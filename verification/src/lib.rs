//! Runtime core of a small dynamically-typed language: a tracing collector
//! over an arena of traceable values, and a stack-based bytecode machine.

pub mod gc;
pub mod vm;
