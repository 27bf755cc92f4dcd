//! A toy aggregation playground: a `Car` described by a name and a gas
//! reading, and an `Aggregate` trait that renders a value as one summary
//! string. The summary's number is rendered by a decimal formatter that is
//! verified against `dec_str`.

use vstd::prelude::*;

use crate::text::push_char;

use vstd::string::StringExecFns;

verus! {

/// The character for one decimal digit.
pub open spec fn digit_char(d: nat) -> char
    recommends
        d < 10,
{
    if d == 0 {
        '0'
    } else if d == 1 {
        '1'
    } else if d == 2 {
        '2'
    } else if d == 3 {
        '3'
    } else if d == 4 {
        '4'
    } else if d == 5 {
        '5'
    } else if d == 6 {
        '6'
    } else if d == 7 {
        '7'
    } else if d == 8 {
        '8'
    } else {
        '9'
    }
}

/// The decimal digits of a nonnegative number, most significant first, with
/// no leading zeros (zero itself is the single digit `0`).
pub open spec fn dec_digits(n: nat) -> Seq<char>
    decreases n,
{
    if n < 10 {
        seq![digit_char(n)]
    } else {
        dec_digits(n / 10).push(digit_char(n % 10))
    }
}

/// The decimal rendering of an integer: a minus sign for negative values,
/// then the digits of the magnitude.
pub open spec fn dec_str(x: int) -> Seq<char> {
    if x < 0 {
        seq!['-'] + dec_digits((-x) as nat)
    } else {
        dec_digits(x as nat)
    }
}

fn digit_char_exec(d: u64) -> (c: char)
    requires
        d < 10,
    ensures
        c == digit_char(d as nat),
{
    if d == 0 {
        '0'
    } else if d == 1 {
        '1'
    } else if d == 2 {
        '2'
    } else if d == 3 {
        '3'
    } else if d == 4 {
        '4'
    } else if d == 5 {
        '5'
    } else if d == 6 {
        '6'
    } else if d == 7 {
        '7'
    } else if d == 8 {
        '8'
    } else {
        '9'
    }
}

/// Render a signed 64-bit value in decimal.
fn format_i64(x: i64) -> (s: String)
    ensures
        s@ == dec_str(x as int),
{
    let neg = x < 0;
    let mut m: u64 = if x >= 0 {
        x as u64
    } else if x == i64::MIN {
        9223372036854775808u64
    } else {
        (-x) as u64
    };
    let ghost m0 = m as nat;

    let mut digits_rev: Vec<char> = Vec::new();
    proof {
        assert(dec_digits(m as nat) + digits_rev@.reverse() =~= dec_digits(m0));
    }
    while m >= 10
        invariant
            dec_digits(m0) == dec_digits(m as nat) + digits_rev@.reverse(),
        decreases m,
    {
        let ghost pre = digits_rev@;
        digits_rev.push(digit_char_exec(m % 10));
        proof {
            assert(digits_rev@.reverse() =~= seq![digit_char((m % 10) as nat)] + pre.reverse());
            assert(dec_digits((m / 10) as nat) + (seq![digit_char((m % 10) as nat)]
                + pre.reverse()) =~= (dec_digits((m / 10) as nat).push(
                digit_char((m % 10) as nat),
            )) + pre.reverse());
        }
        m = m / 10;
    }
    let ghost pre = digits_rev@;
    digits_rev.push(digit_char_exec(m));
    proof {
        assert(digits_rev@.reverse() =~= seq![digit_char(m as nat)] + pre.reverse());
        assert(seq![digit_char(m as nat)] + pre.reverse() =~= dec_digits(m as nat)
            + pre.reverse());
        assert(digits_rev@.reverse() == dec_digits(m0));
    }

    let mut out = String::new();
    if neg {
        push_char(&mut out, '-');
    }
    let ghost sign: Seq<char> = if neg {
        seq!['-']
    } else {
        Seq::empty()
    };
    proof {
        assert(out@ =~= sign + digits_rev@.reverse().take(0));
    }
    let mut i: usize = digits_rev.len();
    while i > 0
        invariant
            i <= digits_rev@.len(),
            out@ == sign + digits_rev@.reverse().take(digits_rev@.len() - i),
        decreases i,
    {
        i = i - 1;
        push_char(&mut out, digits_rev[i]);
        proof {
            let rev = digits_rev@.reverse();
            let k = digits_rev@.len() - i - 1;
            assert(rev[k as int] == digits_rev@[i as int]);
            assert(rev.take(k + 1) =~= rev.take(k as int).push(rev[k as int]));
            assert(sign + rev.take(k as int).push(rev[k as int]) =~= (sign + rev.take(
                k as int,
            )).push(rev[k as int]));
        }
    }
    proof {
        assert(digits_rev@.reverse().take(digits_rev@.len() as int) =~= digits_rev@.reverse());
        if x < 0 {
            assert(m0 == (-(x as int)) as nat);
        }
        assert(out@ == dec_str(x as int));
    }
    out
}

/// Something that can describe itself as one summary string.
pub trait Aggregate {
    /// The summary the implementation promises to render.
    spec fn spec_aggregation(&self) -> Seq<char>;

    /// Render the summary.
    fn aggregation(&self) -> (r: String)
        ensures
            r@ == self.spec_aggregation(),
    ;
}

/// A car: a borrowed gas reading and a name.
#[derive(Debug)]
pub struct Car<'a, T, U> {
    gas: &'a T,
    name: U,
}

impl<'a, T, U> Car<'a, T, U> {
    /// The gas reading.
    pub closed spec fn spec_gas(&self) -> T {
        *self.gas
    }

    /// The name.
    pub closed spec fn spec_name(&self) -> U {
        self.name
    }

    /// A car from a borrowed gas reading and a name.
    pub fn new(gas: &'a T, name: U) -> (r: Self)
        ensures
            r.spec_gas() == *gas,
            r.spec_name() == name,
    {
        Car { gas, name }
    }
}

impl<'a> Aggregate for Car<'a, i64, String> {
    open spec fn spec_aggregation(&self) -> Seq<char> {
        "name: "@ + self.spec_name()@ + " gas: "@ + dec_str(self.spec_gas() as int)
    }

    fn aggregation(&self) -> (r: String) {
        let mut out: String = "name: ".to_owned();
        out.append(self.name.as_str());
        out.append(" gas: ");
        let gas = format_i64(*self.gas);
        out.append(gas.as_str());
        proof {
            assert(out@ =~= self.spec_aggregation());
        }
        out
    }
}

} // verus!
