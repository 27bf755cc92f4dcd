//! A small verified toolbox: a stack-based bytecode interpreter together with
//! a handful of supporting pieces — a singly linked list, a chess piece
//! model, a department roster, the configuration types of a linker front
//! end, a toy aggregation trait, and the event records of a token-staking
//! ledger.
//!
//! The centerpiece is the interpreter: `interpreter::interpret` executes a
//! program over an operand stack and a named-variable table, and its result is
//! proved to agree with the small-step machine model in `semantics`, which
//! also states the laws that hold of every run.

pub mod cars;
pub mod chess;
pub mod company;
pub mod interpreter;
pub mod linker;
pub mod list;
pub mod semantics;
pub mod staking;
mod text;
