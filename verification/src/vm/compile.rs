//! The compiler's place. Compiling source text is not part of this core: the
//! one entry point yields a fixed program, whatever the source.

use super::error::CompileError;
use super::instruction::Instruction;
use super::value::{
    lemma_code_view, lemma_value_view, views, Code, CodeView, Value, ValueView,
};
use std::rc::Rc;
use vstd::prelude::*;

verus! {

/// The routine that the fixed program binds to the global `main`.
pub open spec fn main_routine() -> CodeView {
    CodeView {
        upvalues: 0,
        params: 0,
        constants: seq![
            ValueView::Integer(4),
            ValueView::String("Child"@),
            ValueView::String("greet"@),
        ],
        instrs: seq![
            Instruction::LoadGlobal.opcode(),
            1,
            Instruction::LoadConstant.opcode(),
            0,
            Instruction::Call.opcode(),
            1,
            Instruction::LoadConstant.opcode(),
            2,
            Instruction::GetAttr.opcode(),
            Instruction::Call.opcode(),
            0,
            Instruction::Pop.opcode(),
            2,
        ],
        codes: seq![],
    }
}

/// The fixed program: it makes a function of [`main_routine`] and binds it
/// to the global `main`.
pub open spec fn fixed_program() -> CodeView {
    CodeView {
        upvalues: 0,
        params: 0,
        constants: seq![ValueView::String("main"@)],
        instrs: seq![
            Instruction::LoadCode.opcode(),
            0,
            Instruction::MakeFunction.opcode(),
            0,
            Instruction::SetGlobal.opcode(),
            0,
        ],
        codes: seq![main_routine()],
    }
}

/// Compiles the bytes of a source text. Every source compiles, and to the
/// same program.
pub fn compile_text(source: &[u8]) -> (r: Result<Code, CompileError>)
    ensures
        r matches Ok(code) && code@ == fixed_program(),
{
    let main = Code {
        upvalues: 0,
        params: 0,
        constants: vec![
            Value::Integer(4),
            Value::String(Rc::new("Child".to_owned())),
            Value::String(Rc::new("greet".to_owned())),
        ],
        instrs: vec![
            Instruction::LoadGlobal.to_u8(),
            1,
            Instruction::LoadConstant.to_u8(),
            0,
            Instruction::Call.to_u8(),
            1,
            Instruction::LoadConstant.to_u8(),
            2,
            Instruction::GetAttr.to_u8(),
            Instruction::Call.to_u8(),
            0,
            Instruction::Pop.to_u8(),
            2,
        ],
        codes: vec![],
    };
    proof {
        lemma_code_view(&main);
        lemma_value_view(&main.constants@[0]);
        lemma_value_view(&main.constants@[1]);
        lemma_value_view(&main.constants@[2]);
        assert(views(main.constants@) =~= main_routine().constants);
        assert(main@.instrs =~= main_routine().instrs);
        assert(main@.codes =~= main_routine().codes);
    }
    let program = Code {
        upvalues: 0,
        params: 0,
        constants: vec![Value::String(Rc::new("main".to_owned()))],
        instrs: vec![
            Instruction::LoadCode.to_u8(),
            0,
            Instruction::MakeFunction.to_u8(),
            0,
            Instruction::SetGlobal.to_u8(),
            0,
        ],
        codes: vec![Rc::new(main)],
    };
    proof {
        lemma_code_view(&program);
        lemma_value_view(&program.constants@[0]);
        assert(views(program.constants@) =~= fixed_program().constants);
        assert(program@.instrs =~= fixed_program().instrs);
        assert(program@.codes =~= fixed_program().codes);
    }
    Ok(program)
}

} // verus!
