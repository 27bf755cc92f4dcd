//! A department roster. Personnel are added with directives of the shape
//! `ADD <name> to <department>`: the second whitespace-separated token is the
//! employee's name and the fourth the department. The roster keeps, per
//! department, the names in the order they were added; departments are kept
//! in the order of their first addition.

use vstd::prelude::*;

use crate::text::push_char;

use vstd::relations::{sorted_by, total_ordering};
use vstd::std_specs::iter::IteratorSpec;

verus! {

broadcast use vstd::string::axiom_spec_iter, vstd::string::next_postcondition;

/// The characters a directive is split on.
pub open spec fn is_space(c: char) -> bool {
    c == ' ' || c == '\t' || c == '\n' || c == '\r'
}

/// Split `rest` into its maximal runs of non-space characters, with `cur`
/// the run in progress to the left of `rest`.
pub open spec fn split_rec(cur: Seq<char>, rest: Seq<char>) -> Seq<Seq<char>>
    decreases rest.len(),
{
    if rest.len() == 0 {
        if cur.len() == 0 {
            Seq::empty()
        } else {
            seq![cur]
        }
    } else if is_space(rest[0]) {
        if cur.len() == 0 {
            split_rec(cur, rest.drop_first())
        } else {
            seq![cur] + split_rec(Seq::empty(), rest.drop_first())
        }
    } else {
        split_rec(cur.push(rest[0]), rest.drop_first())
    }
}

/// The whitespace-separated tokens of a character sequence.
pub open spec fn split_spaces(s: Seq<char>) -> Seq<Seq<char>> {
    split_rec(Seq::empty(), s)
}

fn is_space_char(c: char) -> (r: bool)
    ensures
        r == is_space(c),
{
    c == ' ' || c == '\t' || c == '\n' || c == '\r'
}

/// The whitespace-separated tokens of a string, as owned strings.
fn split_spaces_exec(s: &str) -> (toks: Vec<String>)
    ensures
        toks.deep_view() == split_spaces(s@),
{
    let mut toks: Vec<String> = Vec::new();
    let mut cur = String::new();
    let mut it = s.chars();
    proof {
        assert(toks.deep_view() + split_rec(cur@, it.remaining()) =~= split_spaces(s@));
    }
    loop
        invariant
            split_spaces(s@) == toks.deep_view() + split_rec(cur@, it.remaining()),
            it.decrease() is Some,
        decreases it.decrease()->0,
    {
        let ghost pre_toks = toks.deep_view();
        let ghost pre_cur = cur@;
        match it.next() {
            Some(c) => {
                if is_space_char(c) {
                    if !cur.as_str().is_empty() {
                        toks.push(cur);
                        cur = String::new();
                        proof {
                            assert(toks.deep_view() =~= pre_toks.push(pre_cur));
                            assert(pre_toks + (seq![pre_cur] + split_rec(cur@, it.remaining()))
                                =~= toks.deep_view() + split_rec(cur@, it.remaining()));
                        }
                    }
                } else {
                    push_char(&mut cur, c);
                }
            },
            None => {
                if !cur.as_str().is_empty() {
                    toks.push(cur);
                    proof {
                        assert(toks.deep_view() =~= pre_toks.push(pre_cur));
                        assert(pre_toks + seq![pre_cur] =~= pre_toks.push(pre_cur));
                    }
                } else {
                    proof {
                        assert(pre_toks + Seq::<Seq<char>>::empty() =~= pre_toks);
                    }
                }
                return toks;
            },
        }
    }
}

/// The roster after adding `name` to `dept`: the name is appended to the
/// first entry for the department, or a new entry is opened at the end.
pub open spec fn spec_add(
    entries: Seq<(Seq<char>, Seq<Seq<char>>)>,
    dept: Seq<char>,
    name: Seq<char>,
) -> Seq<(Seq<char>, Seq<Seq<char>>)>
    decreases entries.len(),
{
    if entries.len() == 0 {
        seq![(dept, seq![name])]
    } else if entries[0].0 == dept {
        seq![(entries[0].0, entries[0].1.push(name))] + entries.drop_first()
    } else {
        seq![entries[0]] + spec_add(entries.drop_first(), dept, name)
    }
}

/// When the first entry for `dept` sits at index `i`, `spec_add` updates
/// exactly that entry.
proof fn lemma_spec_add_found(
    entries: Seq<(Seq<char>, Seq<Seq<char>>)>,
    i: int,
    dept: Seq<char>,
    name: Seq<char>,
)
    requires
        0 <= i < entries.len(),
        entries[i].0 == dept,
        forall|j: int| 0 <= j < i ==> (#[trigger] entries[j]).0 != dept,
    ensures
        spec_add(entries, dept, name) =~= entries.update(
            i,
            (entries[i].0, entries[i].1.push(name)),
        ),
    decreases i,
{
    if i == 0 {
        assert(seq![(entries[0].0, entries[0].1.push(name))] + entries.drop_first()
            =~= entries.update(0, (entries[0].0, entries[0].1.push(name))));
    } else {
        lemma_spec_add_found(entries.drop_first(), i - 1, dept, name);
        assert(seq![entries[0]] + entries.drop_first().update(
            i - 1,
            (entries[i].0, entries[i].1.push(name)),
        ) =~= entries.update(i, (entries[i].0, entries[i].1.push(name))));
    }
}

/// When no entry is for `dept`, `spec_add` opens a new entry at the end.
proof fn lemma_spec_add_absent(
    entries: Seq<(Seq<char>, Seq<Seq<char>>)>,
    dept: Seq<char>,
    name: Seq<char>,
)
    requires
        forall|j: int| 0 <= j < entries.len() ==> (#[trigger] entries[j]).0 != dept,
    ensures
        spec_add(entries, dept, name) =~= entries.push((dept, seq![name])),
    decreases entries.len(),
{
    if entries.len() == 0 {
        assert(spec_add(entries, dept, name) =~= entries.push((dept, seq![name])));
    } else {
        lemma_spec_add_absent(entries.drop_first(), dept, name);
        assert(seq![entries[0]] + entries.drop_first().push((dept, seq![name])) =~= entries.push(
            (dept, seq![name]),
        ));
    }
}

/// A roster of employees grouped by department, in order of first addition.
#[derive(Clone)]
pub struct Company {
    employee_map: Vec<(String, Vec<String>)>,
}

impl View for Company {
    type V = Seq<(Seq<char>, Seq<Seq<char>>)>;

    closed spec fn view(&self) -> Seq<(Seq<char>, Seq<Seq<char>>)> {
        self.employee_map.deep_view()
    }
}

/// The index of the first entry for `dept`, if any.
fn find_dept(map: &Vec<(String, Vec<String>)>, dept: &String) -> (r: Option<usize>)
    ensures
        match r {
            Some(i) => i < map@.len() && map@[i as int].0@ == dept@ && forall|j: int|
                0 <= j < i ==> (#[trigger] map@[j]).0@ != dept@,
            None => forall|j: int| 0 <= j < map@.len() ==> (#[trigger] map@[j]).0@ != dept@,
        },
{
    let mut i: usize = 0;
    while i < map.len()
        invariant
            i <= map@.len(),
            forall|j: int| 0 <= j < i ==> (#[trigger] map@[j]).0@ != dept@,
        decreases map@.len() - i,
    {
        if map[i].0 == *dept {
            return Some(i);
        }
        i = i + 1;
    }
    None
}

impl Company {
    /// An empty roster.
    pub fn new() -> (r: Self)
        ensures
            r@ == Seq::<(Seq<char>, Seq<Seq<char>>)>::empty(),
    {
        let c = Company { employee_map: Vec::new() };
        proof {
            assert(c@ =~= Seq::<(Seq<char>, Seq<Seq<char>>)>::empty());
        }
        c
    }

    /// Add one employee from a directive `ADD <name> to <department>`: the
    /// directive's second token is the name, its fourth the department.
    pub fn add_personnel(&mut self, new_employee: String)
        requires
            split_spaces(new_employee@).len() >= 4,
        ensures
            final(self)@ == spec_add(
                old(self)@,
                split_spaces(new_employee@)[3],
                split_spaces(new_employee@)[1],
            ),
    {
        let toks = split_spaces_exec(new_employee.as_str());
        let name = toks[1].clone();
        let department = toks[3].clone();
        proof {
            assert(name@ == split_spaces(new_employee@)[1]);
            assert(department@ == split_spaces(new_employee@)[3]);
        }
        match find_dept(&self.employee_map, &department) {
            Some(i) => {
                let mut entry = self.employee_map.remove(i);
                entry.1.push(name);
                self.employee_map.insert(i, entry);
                proof {
                    lemma_spec_add_found(old(self)@, i as int, department@, name@);
                    assert(self.employee_map.deep_view() =~~= old(self)@.update(
                        i as int,
                        (old(self)@[i as int].0, old(self)@[i as int].1.push(name@)),
                    ));
                }
            },
            None => {
                self.employee_map.push((department, vec![name]));
                proof {
                    lemma_spec_add_absent(old(self)@, department@, name@);
                    assert(self.employee_map.deep_view() =~~= old(self)@.push(
                        (department@, seq![name@]),
                    ));
                }
            },
        }
    }
}

/// The names of the first entry for `dept`, if any.
pub open spec fn dept_lookup(
    entries: Seq<(Seq<char>, Seq<Seq<char>>)>,
    dept: Seq<char>,
) -> Option<Seq<Seq<char>>>
    decreases entries.len(),
{
    if entries.len() == 0 {
        None
    } else if entries[0].0 == dept {
        Some(entries[0].1)
    } else {
        dept_lookup(entries.drop_first(), dept)
    }
}

/// The first entry for `dept` decides the lookup.
proof fn lemma_dept_lookup_found(entries: Seq<(Seq<char>, Seq<Seq<char>>)>, i: int, dept: Seq<char>)
    requires
        0 <= i < entries.len(),
        entries[i].0 == dept,
        forall|j: int| 0 <= j < i ==> (#[trigger] entries[j]).0 != dept,
    ensures
        dept_lookup(entries, dept) == Some(entries[i].1),
    decreases i,
{
    if i > 0 {
        lemma_dept_lookup_found(entries.drop_first(), i - 1, dept);
    }
}

/// With no entry for `dept` the lookup is empty.
proof fn lemma_dept_lookup_absent(entries: Seq<(Seq<char>, Seq<Seq<char>>)>, dept: Seq<char>)
    requires
        forall|j: int| 0 <= j < entries.len() ==> (#[trigger] entries[j]).0 != dept,
    ensures
        dept_lookup(entries, dept) is None,
    decreases entries.len(),
{
    if entries.len() > 0 {
        lemma_dept_lookup_absent(entries.drop_first(), dept);
    }
}

/// All names of the roster, department by department in roster order.
pub open spec fn all_names(entries: Seq<(Seq<char>, Seq<Seq<char>>)>) -> Seq<Seq<char>>
    decreases entries.len(),
{
    if entries.len() == 0 {
        Seq::empty()
    } else {
        entries[0].1 + all_names(entries.drop_first())
    }
}

/// Extending the prefix by one entry appends exactly that entry's names.
proof fn lemma_all_names_take_succ(entries: Seq<(Seq<char>, Seq<Seq<char>>)>, k: int)
    requires
        0 <= k < entries.len(),
    ensures
        all_names(entries.take(k + 1)) == all_names(entries.take(k)) + entries[k].1,
    decreases k,
{
    if k == 0 {
        assert(entries.take(1).drop_first() =~= Seq::<(Seq<char>, Seq<Seq<char>>)>::empty());
        assert(entries.take(0) =~= Seq::<(Seq<char>, Seq<Seq<char>>)>::empty());
        assert(entries[0].1 + Seq::<Seq<char>>::empty() =~= entries[0].1);
        assert(Seq::<Seq<char>>::empty() + entries[0].1 =~= entries[0].1);
    } else {
        lemma_all_names_take_succ(entries.drop_first(), k - 1);
        assert(entries.take(k + 1).drop_first() =~= entries.drop_first().take(k));
        assert(entries.take(k).drop_first() =~= entries.drop_first().take(k - 1));
        assert(entries[0].1 + (all_names(entries.drop_first().take(k - 1)) + entries[k].1) =~= (
        entries[0].1 + all_names(entries.drop_first().take(k - 1))) + entries[k].1);
    }
}

/// Lexicographic order on character sequences, by code point.
pub open spec fn lex_leq(a: Seq<char>, b: Seq<char>) -> bool
    decreases a.len(),
{
    if a.len() == 0 {
        true
    } else if b.len() == 0 {
        false
    } else if a[0] == b[0] {
        lex_leq(a.drop_first(), b.drop_first())
    } else {
        a[0] < b[0]
    }
}

/// The lexicographic order as a relation value, for `sorted_by`.
pub open spec fn lex_leq_rel() -> spec_fn(Seq<char>, Seq<char>) -> bool {
    |a: Seq<char>, b: Seq<char>| lex_leq(a, b)
}

proof fn lemma_lex_refl(a: Seq<char>)
    ensures
        lex_leq(a, a),
    decreases a.len(),
{
    if a.len() > 0 {
        lemma_lex_refl(a.drop_first());
    }
}

proof fn lemma_lex_total(a: Seq<char>, b: Seq<char>)
    ensures
        lex_leq(a, b) || lex_leq(b, a),
    decreases a.len(),
{
    if a.len() > 0 && b.len() > 0 && a[0] == b[0] {
        lemma_lex_total(a.drop_first(), b.drop_first());
    }
}

proof fn lemma_lex_antisym(a: Seq<char>, b: Seq<char>)
    requires
        lex_leq(a, b),
        lex_leq(b, a),
    ensures
        a == b,
    decreases a.len(),
{
    if a.len() > 0 && b.len() > 0 && a[0] == b[0] {
        lemma_lex_antisym(a.drop_first(), b.drop_first());
        assert(a.drop_first() == b.drop_first());
        assert(a.drop_first().len() == a.len() - 1);
        assert(b.drop_first().len() == b.len() - 1);
        assert(a.len() == b.len());
        assert forall|i: int| 0 <= i < a.len() implies a[i] == b[i] by {
            if i > 0 {
                assert(a[i] == a.drop_first()[i - 1]);
                assert(b[i] == b.drop_first()[i - 1]);
            }
        }
    }
    assert(a =~= b);
}

proof fn lemma_lex_trans(a: Seq<char>, b: Seq<char>, c: Seq<char>)
    requires
        lex_leq(a, b),
        lex_leq(b, c),
    ensures
        lex_leq(a, c),
    decreases a.len(),
{
    if a.len() > 0 && b.len() > 0 && c.len() > 0 && a[0] == b[0] && b[0] == c[0] {
        lemma_lex_trans(a.drop_first(), b.drop_first(), c.drop_first());
    }
}

/// The lexicographic order is a total order, as `sort_by` and
/// `lemma_sorted_unique` want it.
pub proof fn lemma_lex_total_ordering()
    ensures
        total_ordering(lex_leq_rel()),
{
    let r = lex_leq_rel();
    assert forall|x: Seq<char>| #[trigger] r(x, x) by {
        lemma_lex_refl(x);
    }
    assert forall|x: Seq<char>, y: Seq<char>| #[trigger] r(x, y) && #[trigger] r(y, x)
        implies x == y by {
        lemma_lex_antisym(x, y);
    }
    assert forall|x: Seq<char>, y: Seq<char>, z: Seq<char>|
        #[trigger] r(x, y) && #[trigger] r(y, z) implies r(x, z) by {
        lemma_lex_trans(x, y, z);
    }
    assert forall|x: Seq<char>, y: Seq<char>| #[trigger] r(x, y) || #[trigger] r(y, x) by {
        lemma_lex_total(x, y);
    }
}

/// Whether `a` precedes `b` (or equals it) in lexicographic order.
fn str_lex_leq(a: &str, b: &str) -> (r: bool)
    ensures
        r == lex_leq(a@, b@),
{
    let mut ia = a.chars();
    let mut ib = b.chars();
    loop
        invariant
            lex_leq(a@, b@) == lex_leq(ia.remaining(), ib.remaining()),
            ia.decrease() is Some,
        decreases ia.decrease()->0,
    {
        match ia.next() {
            None => {
                return true;
            },
            Some(ca) => {
                match ib.next() {
                    None => {
                        return false;
                    },
                    Some(cb) => {
                        if ca < cb {
                            return true;
                        }
                        if ca > cb {
                            return false;
                        }
                    },
                }
            },
        }
    }
}

/// The position at which `x` belongs in a sorted vector: past everything
/// that precedes it.
fn insert_pos(sorted: &Vec<String>, x: &String) -> (p: usize)
    ensures
        p <= sorted@.len(),
        forall|q: int| 0 <= q < p ==> lex_leq(#[trigger] sorted.deep_view()[q], x@),
        p < sorted@.len() ==> !lex_leq(sorted.deep_view()[p as int], x@),
{
    let mut p: usize = 0;
    while p < sorted.len()
        invariant
            p <= sorted@.len(),
            forall|q: int| 0 <= q < p ==> lex_leq(#[trigger] sorted.deep_view()[q], x@),
        decreases sorted@.len() - p,
    {
        if !str_lex_leq(sorted[p].as_str(), x.as_str()) {
            return p;
        }
        proof {
            assert(sorted.deep_view()[p as int] == sorted@[p as int]@);
        }
        p = p + 1;
    }
    p
}

/// Sort names lexicographically: the result is ordered and holds exactly
/// the same names.
fn sort_names(v: &Vec<String>) -> (r: Vec<String>)
    ensures
        sorted_by(r.deep_view(), lex_leq_rel()),
        r.deep_view().to_multiset() == v.deep_view().to_multiset(),
{
    broadcast use vstd::seq_lib::group_to_multiset_ensures;

    let mut result: Vec<String> = Vec::new();
    let mut k: usize = 0;
    proof {
        assert(result.deep_view() =~= Seq::<Seq<char>>::empty());
        assert(v.deep_view().take(0) =~= Seq::<Seq<char>>::empty());
        assert(result.deep_view().to_multiset() =~= v.deep_view().take(0).to_multiset());
    }
    while k < v.len()
        invariant
            k <= v@.len(),
            v.deep_view().len() == v@.len(),
            sorted_by(result.deep_view(), lex_leq_rel()),
            result.deep_view().to_multiset() == v.deep_view().take(k as int).to_multiset(),
        decreases v@.len() - k,
    {
        let x = v[k].clone();
        proof {
            assert(x@ == v.deep_view()[k as int]);
        }
        let ghost pre = result.deep_view();
        let p = insert_pos(&result, &x);
        result.insert(p, x);
        proof {
            assert(result.deep_view() =~= pre.insert(p as int, x@));
            let post = result.deep_view();
            assert forall|i: int, j: int| 0 <= i < j < post.len() implies #[trigger] lex_leq_rel()(
                post[i],
                post[j],
            ) by {
                let rel = lex_leq_rel();
                if j < p {
                    assert(rel(pre[i], pre[j]));
                } else if j == p {
                    assert(post[j] == x@);
                    assert(rel(pre[i], x@));
                } else if i < p {
                    assert(post[j] == pre[j - 1]);
                    if j - 1 == p as int {
                        // pre[p] follows x, and x follows pre[i]
                        lemma_lex_total(pre[p as int], x@);
                        lemma_lex_trans(pre[i], x@, pre[p as int]);
                    } else {
                        assert(rel(pre[i], pre[j - 1]));
                    }
                } else if i == p {
                    assert(post[i] == x@);
                    assert(post[j] == pre[j - 1]);
                    lemma_lex_total(pre[p as int], x@);
                    if j - 1 > p as int {
                        assert(rel(pre[p as int], pre[j - 1]));
                        lemma_lex_trans(x@, pre[p as int], pre[j - 1]);
                    }
                } else {
                    assert(post[i] == pre[i - 1]);
                    assert(post[j] == pre[j - 1]);
                    assert(rel(pre[i - 1], pre[j - 1]));
                }
            }
            assert(v.deep_view().take(k + 1) =~= v.deep_view().take(k as int).push(
                v.deep_view()[k as int],
            ));
            vstd::seq_lib::to_multiset_insert(pre, p as int, x@);
            vstd::seq_lib::to_multiset_build(v.deep_view().take(k as int), x@);
        }
        k = k + 1;
    }
    proof {
        assert(v.deep_view().take(v@.len() as int) =~= v.deep_view());
    }
    result
}

impl Company {
    /// The names added to `department`, in order of addition, if the
    /// department has any.
    pub fn employees_by_dept(&self, department: String) -> (r: Option<&Vec<String>>)
        ensures
            match r {
                Some(v) => dept_lookup(self@, department@) == Some(v.deep_view()),
                None => dept_lookup(self@, department@) is None,
            },
    {
        match find_dept(&self.employee_map, &department) {
            Some(i) => {
                proof {
                    lemma_dept_lookup_found(self@, i as int, department@);
                }
                Some(&self.employee_map[i].1)
            },
            None => {
                proof {
                    lemma_dept_lookup_absent(self@, department@);
                }
                None
            },
        }
    }

    /// Every name on the roster, across departments, sorted
    /// lexicographically.
    pub fn all_employees(&self) -> (r: Option<Vec<String>>)
        ensures
            match r {
                Some(v) => sorted_by(v.deep_view(), lex_leq_rel()) && v.deep_view().to_multiset()
                    == all_names(self@).to_multiset(),
                None => false,
            },
    {
        let mut names: Vec<String> = Vec::new();
        let mut i: usize = 0;
        proof {
            assert(names.deep_view() =~= all_names(self@.take(0)));
        }
        while i < self.employee_map.len()
            invariant
                i <= self.employee_map@.len(),
                self@.len() == self.employee_map@.len(),
                names.deep_view() == all_names(self@.take(i as int)),
            decreases self.employee_map@.len() - i,
        {
            let ghost row = self@[i as int].1;
            let mut j: usize = 0;
            proof {
                assert(row.take(0) =~= Seq::<Seq<char>>::empty());
                assert(names.deep_view() + Seq::<Seq<char>>::empty() =~= names.deep_view());
            }
            let ghost base = names.deep_view();
            while j < self.employee_map[i].1.len()
                invariant
                    i < self.employee_map@.len(),
                    self@.len() == self.employee_map@.len(),
                    row == self@[i as int].1,
                    j <= self.employee_map@[i as int].1@.len(),
                    row.len() == self.employee_map@[i as int].1@.len(),
                    names.deep_view() == base + row.take(j as int),
                decreases self.employee_map@[i as int].1@.len() - j,
            {
                let ghost pre = names.deep_view();
                names.push(self.employee_map[i].1[j].clone());
                proof {
                    assert(self.employee_map@[i as int].1@[j as int]@ == row[j as int]);
                    assert(names.deep_view() =~= pre.push(row[j as int]));
                    assert(row.take(j + 1) =~= row.take(j as int).push(row[j as int]));
                    assert(base + row.take(j as int).push(row[j as int]) =~= (base + row.take(
                        j as int,
                    )).push(row[j as int]));
                }
                j = j + 1;
            }
            proof {
                assert(row.take(row.len() as int) =~= row);
                lemma_all_names_take_succ(self@, i as int);
            }
            i = i + 1;
        }
        proof {
            assert(self@.take(self@.len() as int) =~= self@);
        }
        let sorted = sort_names(&names);
        Some(sorted)
    }
}

} // verus!
