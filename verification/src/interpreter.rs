//! The bytecode interpreter: instruction set, runtime error taxonomy, and the
//! fetch-decode-execute loop.
//!
//! `interpret` is proved to return exactly what the abstract machine in
//! `semantics` computes: its postcondition says that the abstract machine,
//! started from the empty state, stops after some number of steps with the
//! returned result.

use vstd::prelude::*;

use crate::semantics::{
    div_wrap, lemma_stop_persists, quot_trunc, run_n, step, stops_within, terminates_with, State,
    Step,
};

verus! {

/// One bytecode operation. `Jump` and `JumpIf` carry an instruction index;
/// because the program counter is advanced by one after every instruction,
/// including jumps, a jump to `offset` resumes execution at `offset + 1`.
#[derive(Debug, Clone)]
pub enum Instruction {
    /// Push the operand onto the stack.
    Load(i64),
    /// Push the value bound to the named variable; a name never written
    /// before is a fault.
    Read(String),
    /// Pop one value and bind it to the named variable.
    Write(String),
    /// Unconditional transfer: the target is checked against the program
    /// length before the counter moves.
    Jump(usize),
    /// Pop one value; transfer when it is zero. The target is not checked
    /// here, so a bad target faults at the next fetch instead.
    JumpIf(usize),
    /// Pop two values, push 1 when the relation holds and 0 otherwise.
    CompareEQ,
    CompareNE,
    CompareGT,
    CompareLT,
    CompareLTE,
    CompareGTE,
    /// Pop two values, push the arithmetic result, wrapped to 64 bits.
    Add,
    Sub,
    Mul,
    Div,
    /// Stop and yield the top of the stack.
    Return,
}

/// A terminal runtime fault; the first fault aborts the run and is returned
/// to the caller.
#[derive(Debug, Clone, Copy, PartialEq, Eq, Structural)]
pub enum InterpreterError {
    /// A `Read` referenced a variable never bound by a prior `Write`.
    UndefinedBehavior,
    /// A `Div` popped a zero divisor.
    DivideByZero,
    /// An operation needed more stack values than were available.
    StackEmpty,
    /// The next fetch, or a `Jump` target, lies outside the program.
    BadInstructionOffset,
}

/// The running machine: the program, the operand stack, the program counter
/// and the variable table. The table is a journal of bindings — a `Write`
/// appends and the newest binding for a name wins — whose abstract content
/// is the map `vars_map` of its entries.
pub struct ByteCode {
    code: Vec<Instruction>,
    stack: Vec<i64>,
    instruction_ptr: usize,
    vars: Vec<(String, i64)>,
}

/// The variable table that a journal of bindings denotes: later entries
/// shadow earlier ones with the same name.
spec fn vars_map(entries: Seq<(String, i64)>) -> Map<Seq<char>, i64>
    decreases entries.len(),
{
    if entries.len() == 0 {
        Map::empty()
    } else {
        vars_map(entries.drop_last()).insert(entries.last().0@, entries.last().1)
    }
}

/// The abstract machine state that a `ByteCode` value stands for.
spec fn mstate(bc: &ByteCode) -> State {
    State {
        stack: bc.stack@,
        vars: vars_map(bc.vars@),
        pc: bc.instruction_ptr as nat,
    }
}

/// Entries at indices `i` and beyond do not bind `key`, so the denoted table
/// agrees with the one denoted by the first `i` entries at `key`.
proof fn lemma_vars_map_skip_unbound(entries: Seq<(String, i64)>, i: int, key: Seq<char>)
    requires
        0 <= i <= entries.len(),
        forall|j: int| i <= j < entries.len() ==> (#[trigger] entries[j]).0@ != key,
    ensures
        vars_map(entries).contains_key(key) == vars_map(entries.take(i)).contains_key(key),
        vars_map(entries).contains_key(key) ==> vars_map(entries)[key] == vars_map(
            entries.take(i),
        )[key],
    decreases entries.len(),
{
    if i < entries.len() {
        lemma_vars_map_skip_unbound(entries.drop_last(), i, key);
        assert(entries.drop_last().take(i) =~= entries.take(i));
    } else {
        assert(entries.take(i) =~= entries);
    }
}

/// The entry at index `i` is the last one binding `key`, so it decides the
/// denoted table at `key`.
proof fn lemma_vars_map_found(entries: Seq<(String, i64)>, i: int, key: Seq<char>)
    requires
        0 <= i < entries.len(),
        entries[i].0@ == key,
        forall|j: int| i < j < entries.len() ==> (#[trigger] entries[j]).0@ != key,
    ensures
        vars_map(entries).contains_key(key),
        vars_map(entries)[key] == entries[i].1,
{
    lemma_vars_map_skip_unbound(entries, i + 1, key);
    assert(entries.take(i + 1).drop_last() =~= entries.take(i));
    assert(entries.take(i + 1).last() == entries[i]);
}

/// No entry binds `key`, so the denoted table has no value for it.
proof fn lemma_vars_map_absent(entries: Seq<(String, i64)>, key: Seq<char>)
    requires
        forall|j: int| 0 <= j < entries.len() ==> (#[trigger] entries[j]).0@ != key,
    ensures
        !vars_map(entries).contains_key(key),
{
    lemma_vars_map_skip_unbound(entries, 0, key);
    assert(entries.take(0) =~= Seq::<(String, i64)>::empty());
}

/// Look a name up in the journal: the newest binding, if any.
fn vars_get(entries: &Vec<(String, i64)>, name: &String) -> (r: Option<i64>)
    ensures
        match r {
            Some(v) => vars_map(entries@).contains_key(name@) && vars_map(entries@)[name@] == v,
            None => !vars_map(entries@).contains_key(name@),
        },
{
    let mut i: usize = entries.len();
    while i > 0
        invariant
            i <= entries@.len(),
            forall|j: int| i <= j < entries@.len() ==> (#[trigger] entries@[j]).0@ != name@,
        decreases i,
    {
        i = i - 1;
        if entries[i].0 == *name {
            proof {
                lemma_vars_map_found(entries@, i as int, name@);
            }
            return Some(entries[i].1);
        }
    }
    proof {
        lemma_vars_map_absent(entries@, name@);
    }
    None
}

/// Bind a name: append to the journal, shadowing any earlier binding.
fn vars_set(entries: &mut Vec<(String, i64)>, name: &String, val: i64)
    ensures
        vars_map(final(entries)@) == vars_map(old(entries)@).insert(name@, val),
{
    entries.push((name.clone(), val));
    proof {
        assert(entries@.drop_last() =~= old(entries)@);
    }
}

/// Pop the right then the left operand of a binary instruction; on a stack
/// of fewer than two values nothing is changed and the caller faults.
fn pop2(stack: &mut Vec<i64>) -> (r: Option<(i64, i64)>)
    ensures
        old(stack)@.len() >= 2 ==> r == Some(
            (old(stack)@[old(stack)@.len() - 2], old(stack)@.last()),
        ) && final(stack)@ == old(stack)@.drop_last().drop_last(),
        old(stack)@.len() < 2 ==> r is None && final(stack)@ == old(stack)@,
{
    if stack.len() >= 2 {
        let rhs = stack.pop().unwrap();
        let lhs = stack.pop().unwrap();
        Some((lhs, rhs))
    } else {
        None
    }
}

/// The quotient truncated toward zero stays within the 64-bit range except
/// for `i64::MIN / -1`.
proof fn lemma_quot_in_range(x: i64, d: i64)
    requires
        d != 0,
        !(x == i64::MIN && d == -1),
    ensures
        i64::MIN <= quot_trunc(x as int, d as int) <= i64::MAX,
{
    let xi = x as int;
    let di = d as int;
    if xi > 0 && di > 0 {
        vstd::arithmetic::div_mod::lemma_div_nonincreasing(xi, di);
        vstd::arithmetic::div_mod::lemma_div_pos_is_pos(xi, di);
    } else if xi < 0 && di < 0 {
        vstd::arithmetic::div_mod::lemma_div_nonincreasing(xi * -1, di * -1);
        vstd::arithmetic::div_mod::lemma_div_pos_is_pos(xi * -1, di * -1);
        if xi == i64::MIN {
            vstd::arithmetic::div_mod::lemma_div_is_ordered_by_denominator(xi * -1, 2, di * -1);
        }
    } else if xi < 0 {
        vstd::arithmetic::div_mod::lemma_div_nonincreasing(xi * -1, di);
        vstd::arithmetic::div_mod::lemma_div_pos_is_pos(xi * -1, di);
    } else if xi > 0 {
        vstd::arithmetic::div_mod::lemma_div_nonincreasing(xi, di * -1);
        vstd::arithmetic::div_mod::lemma_div_pos_is_pos(xi, di * -1);
    }
}

/// Signed division truncated toward zero, wrapped to 64 bits: the lone
/// overflowing case, `i64::MIN / -1`, yields `i64::MIN`.
fn div_trunc(lhs: i64, rhs: i64) -> (q: i64)
    requires
        rhs != 0,
    ensures
        q == div_wrap(lhs, rhs),
{
    if lhs == i64::MIN && rhs == -1 {
        i64::MIN
    } else {
        proof {
            lemma_quot_in_range(lhs, rhs);
        }
        lhs.checked_div(rhs).unwrap()
    }
}

/// Execute a program from the empty state to completion: the result is the
/// one the abstract machine stops with, a final top-of-stack value or the
/// first fault.
///
/// The engine performs at most `u64::MAX` machine steps — a ceiling no
/// physically realizable run reaches. A program that stops within that
/// budget gets exactly the machine's result (unique by
/// `lemma_result_unique`); one still running when the budget is spent is
/// abandoned with `BadInstructionOffset`, as the second `ensures` clause
/// states.
pub fn interpret(code: Vec<Instruction>) -> (r: Result<i64, InterpreterError>)
    ensures
        stops_within(code@, u64::MAX as nat) ==> terminates_with(code@, r),
        !stops_within(code@, u64::MAX as nat) ==> r == Err::<i64, InterpreterError>(
            InterpreterError::BadInstructionOffset,
        ),
{
    let mut byte_code = ByteCode {
        code,
        stack: Vec::new(),
        instruction_ptr: 0,
        vars: Vec::new(),
    };
    let ghost mut n: nat = 0;
    let mut fuel: u64 = u64::MAX;

    loop
        invariant
            byte_code.code@ == code@,
            run_n(code@, n) == Step::Next(mstate(&byte_code)),
            n + fuel == u64::MAX,
        decreases fuel,
    {
        if fuel == 0 {
            proof {
                assert forall|k: nat| k <= u64::MAX implies !((#[trigger] run_n(code@, k))
                    is Stop) by {
                    if run_n(code@, k) is Stop {
                        lemma_stop_persists(code@, k, n);
                    }
                }
            }
            return Err(InterpreterError::BadInstructionOffset);
        }
        fuel = fuel - 1;
        let ghost pre = mstate(&byte_code);
        if byte_code.instruction_ptr >= byte_code.code.len() {
            proof {
                assert(run_n(code@, n + 1) == Step::Stop(
                    Err(InterpreterError::BadInstructionOffset),
                ));
            }
            return Err(InterpreterError::BadInstructionOffset);
        }
        let op: Result<(), InterpreterError> = match &byte_code.code[byte_code.instruction_ptr] {
            Instruction::Load(value) => {
                byte_code.stack.push(*value);
                Ok(())
            },
            Instruction::Read(var_name) => {
                match vars_get(&byte_code.vars, var_name) {
                    Some(read_val) => {
                        byte_code.stack.push(read_val);
                        Ok(())
                    },
                    None => Err(InterpreterError::UndefinedBehavior),
                }
            },
            Instruction::Write(var_name) => {
                match byte_code.stack.pop() {
                    Some(val) => {
                        vars_set(&mut byte_code.vars, var_name, val);
                        Ok(())
                    },
                    None => Err(InterpreterError::StackEmpty),
                }
            },
            Instruction::Add => {
                match pop2(&mut byte_code.stack) {
                    Some((lhs, rhs)) => {
                        byte_code.stack.push(lhs.wrapping_add(rhs));
                        Ok(())
                    },
                    None => Err(InterpreterError::StackEmpty),
                }
            },
            Instruction::Sub => {
                match pop2(&mut byte_code.stack) {
                    Some((lhs, rhs)) => {
                        byte_code.stack.push(lhs.wrapping_sub(rhs));
                        Ok(())
                    },
                    None => Err(InterpreterError::StackEmpty),
                }
            },
            Instruction::Mul => {
                match pop2(&mut byte_code.stack) {
                    Some((lhs, rhs)) => {
                        byte_code.stack.push(lhs.wrapping_mul(rhs));
                        Ok(())
                    },
                    None => Err(InterpreterError::StackEmpty),
                }
            },
            Instruction::Div => {
                match pop2(&mut byte_code.stack) {
                    Some((lhs, rhs)) => {
                        if rhs == 0 {
                            Err(InterpreterError::DivideByZero)
                        } else {
                            byte_code.stack.push(div_trunc(lhs, rhs));
                            Ok(())
                        }
                    },
                    None => Err(InterpreterError::StackEmpty),
                }
            },
            Instruction::CompareEQ => {
                match pop2(&mut byte_code.stack) {
                    Some((lhs, rhs)) => {
                        byte_code.stack.push(if lhs == rhs { 1 } else { 0 });
                        Ok(())
                    },
                    None => Err(InterpreterError::StackEmpty),
                }
            },
            Instruction::CompareNE => {
                match pop2(&mut byte_code.stack) {
                    Some((lhs, rhs)) => {
                        byte_code.stack.push(if lhs != rhs { 1 } else { 0 });
                        Ok(())
                    },
                    None => Err(InterpreterError::StackEmpty),
                }
            },
            Instruction::CompareGT => {
                match pop2(&mut byte_code.stack) {
                    Some((lhs, rhs)) => {
                        byte_code.stack.push(if lhs > rhs { 1 } else { 0 });
                        Ok(())
                    },
                    None => Err(InterpreterError::StackEmpty),
                }
            },
            Instruction::CompareLT => {
                match pop2(&mut byte_code.stack) {
                    Some((lhs, rhs)) => {
                        byte_code.stack.push(if lhs < rhs { 1 } else { 0 });
                        Ok(())
                    },
                    None => Err(InterpreterError::StackEmpty),
                }
            },
            Instruction::CompareLTE => {
                match pop2(&mut byte_code.stack) {
                    Some((lhs, rhs)) => {
                        byte_code.stack.push(if lhs <= rhs { 1 } else { 0 });
                        Ok(())
                    },
                    None => Err(InterpreterError::StackEmpty),
                }
            },
            Instruction::CompareGTE => {
                match pop2(&mut byte_code.stack) {
                    Some((lhs, rhs)) => {
                        byte_code.stack.push(if lhs >= rhs { 1 } else { 0 });
                        Ok(())
                    },
                    None => Err(InterpreterError::StackEmpty),
                }
            },
            Instruction::Jump(offset) => {
                if *offset >= byte_code.code.len() {
                    Err(InterpreterError::BadInstructionOffset)
                } else {
                    byte_code.instruction_ptr = *offset;
                    Ok(())
                }
            },
            Instruction::JumpIf(offset) => {
                match byte_code.stack.pop() {
                    Some(val) => {
                        if val == 0 {
                            byte_code.instruction_ptr = *offset;
                        }
                        Ok(())
                    },
                    None => Err(InterpreterError::StackEmpty),
                }
            },
            Instruction::Return => {
                let res = match byte_code.stack.pop() {
                    Some(result) => Ok(result),
                    None => Err(InterpreterError::StackEmpty),
                };
                proof {
                    assert(step(code@, pre) == Step::Stop(res));
                    assert(run_n(code@, n + 1) == Step::Stop(res));
                }
                return res;
            },
        };

        match op {
            Err(error_code) => {
                proof {
                    assert(step(code@, pre) == Step::Stop(Err(error_code)));
                    assert(run_n(code@, n + 1) == Step::Stop(Err(error_code)));
                }
                return Err(error_code);
            },
            Ok(()) => {},
        }

        proof {
            assert(step(code@, pre) == Step::Next(
                State {
                    stack: byte_code.stack@,
                    vars: vars_map(byte_code.vars@),
                    pc: byte_code.instruction_ptr as nat + 1,
                },
            ));
        }
        if byte_code.instruction_ptr == usize::MAX {
            // The advanced counter exceeds every possible program length, so
            // the next fetch can only fault; stop here with that fault.
            proof {
                let s1 = State {
                    stack: byte_code.stack@,
                    vars: vars_map(byte_code.vars@),
                    pc: byte_code.instruction_ptr as nat + 1,
                };
                assert(run_n(code@, n + 1) == Step::Next(s1));
                assert(run_n(code@, n + 2) == Step::Stop(
                    Err(InterpreterError::BadInstructionOffset),
                ));
            }
            return Err(InterpreterError::BadInstructionOffset);
        }
        byte_code.instruction_ptr += 1;
        proof {
            n = n + 1;
            assert(run_n(code@, n) == Step::Next(mstate(&byte_code)));
        }
    }
}

} // verus!
