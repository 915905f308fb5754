//! Errors of compilation and of execution.

use vstd::prelude::*;

verus! {

/// Why a source text could not be compiled.
#[derive(Debug)]
pub enum CompileError {
    SyntaxError(&'static str),
}

impl CompileError {
    /// The text of this error.
    pub open spec fn text(self) -> Seq<char> {
        match self {
            CompileError::SyntaxError(e) => e@,
        }
    }

    /// The text of this error, as it is shown to a user.
    pub fn message(&self) -> (s: String)
        ensures
            s@ == self.text(),
    {
        match self {
            CompileError::SyntaxError(e) => (*e).to_owned(),
        }
    }
}

/// Why a thread stopped. Each of these is fatal to the thread that met it.
#[derive(Clone, Copy, Debug, PartialEq, Eq, Structural)]
pub enum ExecError {
    /// A byte that is no opcode, an operand that is missing or out of range,
    /// a value of the wrong shape, or a combination that is not supported.
    InvalidInstruction,
    /// An operation needed more values than the stack holds.
    StackEmpty,
    /// An operation would have grown the stack past its limit.
    StackFull,
}

impl ExecError {
    /// The text of this error.
    pub open spec fn text(self) -> Seq<char> {
        match self {
            ExecError::InvalidInstruction => "Invalid instruction"@,
            ExecError::StackEmpty => "Stack empty"@,
            ExecError::StackFull => "Stack full"@,
        }
    }

    /// The text of this error, as it is shown to a user.
    pub fn message(&self) -> (s: String)
        ensures
            s@ == self.text(),
    {
        match self {
            ExecError::InvalidInstruction => "Invalid instruction".to_owned(),
            ExecError::StackEmpty => "Stack empty".to_owned(),
            ExecError::StackFull => "Stack full".to_owned(),
        }
    }
}

} // verus!
