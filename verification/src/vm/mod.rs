//! The bytecode machine: values, instructions, and their execution.

pub mod compile;
pub mod error;
pub mod globals;
pub mod instruction;
pub mod laws;
pub mod machine;
pub mod semantics;
pub mod value;

pub use self::compile::compile_text;
pub use self::error::{CompileError, ExecError};
pub use self::instruction::Instruction;
pub use self::machine::{Thread, VirtualMachine};
pub use self::value::{Code, Function, Value};
