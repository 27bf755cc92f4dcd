//! The abstract machine: a small-step model of the interpreter, plus the
//! laws that hold of every run.
//!
//! A machine state is an operand stack, a variable table keyed by the
//! characters of the variable name, and a program counter. `step` performs
//! one full fetch-decode-execute cycle, including the unconditional advance
//! of the program counter; `run_n` iterates it from the initial state; and
//! `terminates_with` says that a program stops with a given result after
//! some number of steps. `lemma_result_unique` shows that this result is
//! unique, so `terminates_with` pins down the outcome of a run exactly.

use vstd::prelude::*;

use crate::interpreter::{Instruction, InterpreterError};

verus! {

/// The mutable part of the machine: operand stack, variable table, program
/// counter.
#[verifier::ext_equal]
pub struct State {
    pub stack: Seq<i64>,
    pub vars: Map<Seq<char>, i64>,
    pub pc: nat,
}

/// The outcome of one machine step: either a successor state, or a stop with
/// the run's result.
pub enum Step {
    Next(State),
    Stop(Result<i64, InterpreterError>),
}

/// The state a run begins in: empty stack, empty variable table, counter at
/// the first instruction.
pub open spec fn init_state() -> State {
    State { stack: Seq::empty(), vars: Map::empty(), pc: 0 }
}

/// The quotient of `x / d` truncated toward zero (Rust's signed division),
/// as opposed to the floor division of spec-mode `/`.
pub open spec fn quot_trunc(x: int, d: int) -> int
    recommends
        d != 0,
{
    if x == 0 {
        0
    } else if x > 0 && d > 0 {
        x / d
    } else if x < 0 && d < 0 {
        (x * -1) / (d * -1)
    } else if x < 0 {
        ((x * -1) / d) * -1
    } else {
        (x / (d * -1)) * -1
    }
}

/// Signed 64-bit division, truncated toward zero and wrapped to 64 bits:
/// the lone overflowing case, `i64::MIN / -1`, wraps back to `i64::MIN`.
pub open spec fn div_wrap(x: i64, d: i64) -> i64
    recommends
        d != 0,
{
    if x == i64::MIN && d == -1 {
        i64::MIN
    } else {
        quot_trunc(x as int, d as int) as i64
    }
}

/// The value an arithmetic instruction pushes for operands `lhs` and `rhs`,
/// wrapped to 64 bits. `Div` is handled separately because of its zero
/// check.
pub open spec fn arith_value(i: Instruction, lhs: i64, rhs: i64) -> i64
    recommends
        i is Add || i is Sub || i is Mul,
{
    match i {
        Instruction::Add => vstd::wrapping::i64_specs::wrapping_add(lhs, rhs),
        Instruction::Sub => vstd::wrapping::i64_specs::wrapping_sub(lhs, rhs),
        _ => vstd::wrapping::i64_specs::wrapping_mul(lhs, rhs),
    }
}

/// The value a comparison instruction pushes for operands `lhs` and `rhs`:
/// 1 when the relation holds, 0 otherwise.
pub open spec fn compare_value(i: Instruction, lhs: i64, rhs: i64) -> i64
    recommends
        i is CompareEQ || i is CompareNE || i is CompareGT || i is CompareLT
            || i is CompareLTE || i is CompareGTE,
{
    let holds = match i {
        Instruction::CompareEQ => lhs == rhs,
        Instruction::CompareNE => lhs != rhs,
        Instruction::CompareGT => lhs > rhs,
        Instruction::CompareLT => lhs < rhs,
        Instruction::CompareLTE => lhs <= rhs,
        _ => lhs >= rhs,
    };
    if holds {
        1
    } else {
        0
    }
}

/// One full cycle of the machine: fetch at `s.pc` (a counter outside the
/// program is a fault), apply the instruction, and advance the counter by
/// one — also after a taken jump, which is why a jump to `t` resumes at
/// `t + 1`.
pub open spec fn step(prog: Seq<Instruction>, s: State) -> Step {
    if s.pc >= prog.len() {
        Step::Stop(Err(InterpreterError::BadInstructionOffset))
    } else {
        match prog[s.pc as int] {
            Instruction::Load(v) => Step::Next(
                State { stack: s.stack.push(v), pc: s.pc + 1, ..s },
            ),
            Instruction::Read(name) => {
                if s.vars.contains_key(name@) {
                    Step::Next(State { stack: s.stack.push(s.vars[name@]), pc: s.pc + 1, ..s })
                } else {
                    Step::Stop(Err(InterpreterError::UndefinedBehavior))
                }
            },
            Instruction::Write(name) => {
                if s.stack.len() == 0 {
                    Step::Stop(Err(InterpreterError::StackEmpty))
                } else {
                    Step::Next(
                        State {
                            stack: s.stack.drop_last(),
                            vars: s.vars.insert(name@, s.stack.last()),
                            pc: s.pc + 1,
                        },
                    )
                }
            },
            Instruction::Jump(t) => {
                if t >= prog.len() {
                    Step::Stop(Err(InterpreterError::BadInstructionOffset))
                } else {
                    Step::Next(State { pc: t as nat + 1, ..s })
                }
            },
            Instruction::JumpIf(t) => {
                if s.stack.len() == 0 {
                    Step::Stop(Err(InterpreterError::StackEmpty))
                } else {
                    Step::Next(
                        State {
                            stack: s.stack.drop_last(),
                            pc: if s.stack.last() == 0 {
                                t as nat + 1
                            } else {
                                s.pc + 1
                            },
                            ..s
                        },
                    )
                }
            },
            Instruction::Add | Instruction::Sub | Instruction::Mul => {
                if s.stack.len() < 2 {
                    Step::Stop(Err(InterpreterError::StackEmpty))
                } else {
                    let lhs = s.stack[s.stack.len() - 2];
                    let rhs = s.stack.last();
                    Step::Next(
                        State {
                            stack: s.stack.drop_last().drop_last().push(
                                arith_value(prog[s.pc as int], lhs, rhs),
                            ),
                            pc: s.pc + 1,
                            ..s
                        },
                    )
                }
            },
            Instruction::Div => {
                if s.stack.len() < 2 {
                    Step::Stop(Err(InterpreterError::StackEmpty))
                } else if s.stack.last() == 0 {
                    Step::Stop(Err(InterpreterError::DivideByZero))
                } else {
                    let lhs = s.stack[s.stack.len() - 2];
                    let rhs = s.stack.last();
                    Step::Next(
                        State {
                            stack: s.stack.drop_last().drop_last().push(div_wrap(lhs, rhs)),
                            pc: s.pc + 1,
                            ..s
                        },
                    )
                }
            },
            Instruction::CompareEQ | Instruction::CompareNE | Instruction::CompareGT
                | Instruction::CompareLT | Instruction::CompareLTE | Instruction::CompareGTE => {
                if s.stack.len() < 2 {
                    Step::Stop(Err(InterpreterError::StackEmpty))
                } else {
                    let lhs = s.stack[s.stack.len() - 2];
                    let rhs = s.stack.last();
                    Step::Next(
                        State {
                            stack: s.stack.drop_last().drop_last().push(
                                compare_value(prog[s.pc as int], lhs, rhs),
                            ),
                            pc: s.pc + 1,
                            ..s
                        },
                    )
                }
            },
            Instruction::Return => {
                if s.stack.len() == 0 {
                    Step::Stop(Err(InterpreterError::StackEmpty))
                } else {
                    Step::Stop(Ok(s.stack.last()))
                }
            },
        }
    }
}

/// The machine after `n` steps from the initial state: either still running
/// in some state, or stopped with the run's result. A stop is absorbing.
pub open spec fn run_n(prog: Seq<Instruction>, n: nat) -> Step
    decreases n,
{
    if n == 0 {
        Step::Next(init_state())
    } else {
        match run_n(prog, (n - 1) as nat) {
            Step::Next(s) => step(prog, s),
            Step::Stop(r) => Step::Stop(r),
        }
    }
}

/// The program, run from the initial state, stops after some number of steps
/// with result `r`. By `lemma_result_unique` at most one result satisfies
/// this, so it describes the outcome of a run exactly.
pub open spec fn terminates_with(prog: Seq<Instruction>, r: Result<i64, InterpreterError>) -> bool {
    exists|n: nat| #[trigger] run_n(prog, n) == Step::Stop(r)
}

/// The machine stops within `fuel` steps (with whatever result).
pub open spec fn stops_within(prog: Seq<Instruction>, fuel: nat) -> bool {
    exists|n: nat| n <= fuel && (#[trigger] run_n(prog, n)) is Stop
}

/// A machine that stops within `n` steps stops within any larger budget.
pub proof fn lemma_stops_within_monotonic(prog: Seq<Instruction>, n: nat, m: nat)
    requires
        stops_within(prog, n),
        n <= m,
    ensures
        stops_within(prog, m),
{
    let k = choose|k: nat| k <= n && (#[trigger] run_n(prog, k)) is Stop;
    assert(k <= m && run_n(prog, k) is Stop);
}

/// A stopped machine stays stopped: every later step count reports the same
/// stop.
pub proof fn lemma_stop_persists(prog: Seq<Instruction>, n: nat, m: nat)
    requires
        n <= m,
        run_n(prog, n) is Stop,
    ensures
        run_n(prog, m) == run_n(prog, n),
    decreases m,
{
    if n < m {
        lemma_stop_persists(prog, n, (m - 1) as nat);
    }
}

/// A run's result is a function of the program alone: two results that the
/// same program terminates with are equal. In particular two sequential runs
/// of one program return identical results — no state leaks across runs.
pub proof fn lemma_result_unique(
    prog: Seq<Instruction>,
    r1: Result<i64, InterpreterError>,
    r2: Result<i64, InterpreterError>,
)
    requires
        terminates_with(prog, r1),
        terminates_with(prog, r2),
    ensures
        r1 == r2,
{
    let n1 = choose|n: nat| run_n(prog, n) == Step::Stop(r1);
    let n2 = choose|n: nat| run_n(prog, n) == Step::Stop(r2);
    if n1 <= n2 {
        lemma_stop_persists(prog, n1, n2);
    } else {
        lemma_stop_persists(prog, n2, n1);
    }
}

/// A run that reaches `Return` with a value on the stack ends well: the
/// program terminates with `Ok` carrying that top-of-stack value.
pub proof fn lemma_return_yields_top(prog: Seq<Instruction>, n: nat, s: State)
    requires
        run_n(prog, n) == Step::Next(s),
        s.pc < prog.len(),
        prog[s.pc as int] is Return,
        s.stack.len() > 0,
    ensures
        terminates_with(prog, Ok(s.stack.last())),
        run_n(prog, n + 1) == Step::Stop(Ok::<i64, InterpreterError>(s.stack.last())),
{
    assert(run_n(prog, n + 1) == Step::Stop(Ok::<i64, InterpreterError>(s.stack.last())));
}

/// The addressing convention: the counter is advanced once after every
/// instruction, a taken jump included, so a jump to an in-range `t` executes
/// the instruction at `t + 1` next, not the one at `t`.
pub proof fn lemma_jump_resumes_past_target(prog: Seq<Instruction>, n: nat, s: State, t: usize)
    requires
        run_n(prog, n) == Step::Next(s),
        s.pc < prog.len(),
        prog[s.pc as int] == Instruction::Jump(t),
        t < prog.len(),
    ensures
        run_n(prog, n + 1) == Step::Next(State { pc: t as nat + 1, ..s }),
{
    assert(run_n(prog, n + 1) == step(prog, s));
}

/// The same convention for a conditional jump taken on a popped zero; the
/// target is not bounds-checked here, so an out-of-range `t` makes the next
/// fetch the faulting one.
pub proof fn lemma_jump_if_on_zero_resumes_past_target(
    prog: Seq<Instruction>,
    n: nat,
    s: State,
    t: usize,
)
    requires
        run_n(prog, n) == Step::Next(s),
        s.pc < prog.len(),
        prog[s.pc as int] == Instruction::JumpIf(t),
        s.stack.len() > 0,
        s.stack.last() == 0,
    ensures
        run_n(prog, n + 1) == Step::Next(
            State { stack: s.stack.drop_last(), pc: t as nat + 1, ..s },
        ),
{
    assert(run_n(prog, n + 1) == step(prog, s));
}

/// A `Jump` whose target lies outside the program faults immediately with
/// `BadInstructionOffset`: the step stops the machine, so neither the stack
/// nor the variable table of any later state is touched.
pub proof fn lemma_jump_out_of_range_faults(prog: Seq<Instruction>, n: nat, s: State, t: usize)
    requires
        run_n(prog, n) == Step::Next(s),
        s.pc < prog.len(),
        prog[s.pc as int] == Instruction::Jump(t),
        t >= prog.len(),
    ensures
        terminates_with(prog, Err(InterpreterError::BadInstructionOffset)),
        run_n(prog, n + 1) == Step::Stop(
            Err::<i64, InterpreterError>(InterpreterError::BadInstructionOffset),
        ),
{
    assert(run_n(prog, n + 1) == Step::Stop(
        Err::<i64, InterpreterError>(InterpreterError::BadInstructionOffset),
    ));
}

/// Loading two values and adding them returns their sum, wrapped to 64
/// bits — hence exactly `a + b` whenever that sum is representable.
pub proof fn lemma_add_program(a: i64, b: i64)
    ensures
        terminates_with(
            seq![Instruction::Load(a), Instruction::Load(b), Instruction::Add, Instruction::Return],
            Ok(vstd::wrapping::i64_specs::wrapping_add(a, b)),
        ),
        i64::MIN <= a + b <= i64::MAX ==> terminates_with(
            seq![Instruction::Load(a), Instruction::Load(b), Instruction::Add, Instruction::Return],
            Ok((a + b) as i64),
        ),
        stops_within(
            seq![Instruction::Load(a), Instruction::Load(b), Instruction::Add, Instruction::Return],
            4,
        ),
{
    let prog = seq![
        Instruction::Load(a),
        Instruction::Load(b),
        Instruction::Add,
        Instruction::Return,
    ];
    let s0 = init_state();
    let s1 = State { stack: s0.stack.push(a), vars: s0.vars, pc: 1 };
    let s2 = State { stack: s1.stack.push(b), vars: s1.vars, pc: 2 };
    assert(run_n(prog, 0) == Step::Next(s0));
    let sum = vstd::wrapping::i64_specs::wrapping_add(a, b);
    let s3 = State { stack: s2.stack.drop_last().drop_last().push(sum), vars: s2.vars, pc: 3 };
    assert(run_n(prog, 1) == Step::Next(s1));
    assert(run_n(prog, 2) == Step::Next(s2));
    assert(run_n(prog, 3) == Step::Next(s3));
    assert(run_n(prog, 4) == Step::Stop(Ok::<i64, InterpreterError>(sum)));
}

/// Dividing by a loaded zero faults with `DivideByZero`, whatever the
/// dividend.
pub proof fn lemma_divide_by_zero_program(a: i64)
    ensures
        terminates_with(
            seq![Instruction::Load(a), Instruction::Load(0), Instruction::Div, Instruction::Return],
            Err(InterpreterError::DivideByZero),
        ),
        stops_within(
            seq![Instruction::Load(a), Instruction::Load(0), Instruction::Div, Instruction::Return],
            3,
        ),
{
    let prog = seq![
        Instruction::Load(a),
        Instruction::Load(0),
        Instruction::Div,
        Instruction::Return,
    ];
    let s0 = init_state();
    let s1 = State { stack: s0.stack.push(a), vars: s0.vars, pc: 1 };
    let s2 = State { stack: s1.stack.push(0), vars: s1.vars, pc: 2 };
    assert(run_n(prog, 0) == Step::Next(s0));
    assert(run_n(prog, 1) == Step::Next(s1));
    assert(run_n(prog, 2) == Step::Next(s2));
    assert(run_n(prog, 3) == Step::Stop(
        Err::<i64, InterpreterError>(InterpreterError::DivideByZero),
    ));
}

/// Writing a value to a variable and reading it back returns the value
/// unchanged, for any value and any variable name: the round trip through
/// the variable table is the identity.
pub proof fn lemma_write_read_round_trip(v: i64, w: String, r: String)
    requires
        w@ == r@,
    ensures
        terminates_with(
            seq![
                Instruction::Load(v),
                Instruction::Write(w),
                Instruction::Read(r),
                Instruction::Return,
            ],
            Ok(v),
        ),
        stops_within(
            seq![
                Instruction::Load(v),
                Instruction::Write(w),
                Instruction::Read(r),
                Instruction::Return,
            ],
            4,
        ),
{
    let prog = seq![
        Instruction::Load(v),
        Instruction::Write(w),
        Instruction::Read(r),
        Instruction::Return,
    ];
    let s0 = init_state();
    let s1 = State { stack: s0.stack.push(v), vars: s0.vars, pc: 1 };
    let s2 = State { stack: s1.stack.drop_last(), vars: s1.vars.insert(w@, v), pc: 2 };
    let s3 = State { stack: s2.stack.push(v), vars: s2.vars, pc: 3 };
    assert(run_n(prog, 0) == Step::Next(s0));
    assert(run_n(prog, 1) == Step::Next(s1));
    assert(run_n(prog, 2) == Step::Next(s2));
    assert(run_n(prog, 3) == Step::Next(s3));
    assert(run_n(prog, 4) == Step::Stop(Ok::<i64, InterpreterError>(v)));
}

} // verus!
