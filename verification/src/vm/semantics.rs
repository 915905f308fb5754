//! What the machine does, as a function on mathematical states.
//!
//! A state is the current routine, the instruction pointer, the operand
//! stack and the global names. [`step`] says what one instruction does to
//! it, [`run`] what a budget of instructions does. The executable machine is
//! proved to compute exactly these.

use super::error::ExecError;
use super::instruction::{decode, Instruction};
use super::value::{CodeView, FunctionView, ValueView};
use vstd::prelude::*;

verus! {

/// The most values an operand stack may hold. An instruction that would
/// grow the stack past it fails with [`ExecError::StackFull`].
pub const STACK_LIMIT: usize = 65536;

/// The state that one thread runs on.
pub struct State {
    /// The routine being executed.
    pub code: CodeView,
    /// Index of the next instruction byte in `code.instrs`.
    pub instr: nat,
    /// The operand stack; its top is the last element.
    pub stack: Seq<ValueView>,
    /// The values bound to global names.
    pub globals: Map<Seq<char>, ValueView>,
}

/// A state and how the thread stands in it: `Ok(false)` while it can go on,
/// `Ok(true)` once it has run to completion, `Err` when it has failed.
pub type Step = (State, Result<bool, ExecError>);

/// The thread goes on from `s`.
pub open spec fn proceed(s: State) -> Step {
    (s, Ok(false))
}

/// The thread fails in `s`.
pub open spec fn fail(s: State, e: ExecError) -> Step {
    (s, Err(e))
}

/// The values of `s` below its topmost `n`.
pub open spec fn below(s: Seq<ValueView>, n: nat) -> Seq<ValueView> {
    s.subrange(0, s.len() - n)
}

/// The topmost `n` values of `s`, in push order.
pub open spec fn top(s: Seq<ValueView>, n: nat) -> Seq<ValueView> {
    s.subrange(s.len() - n, s.len() as int)
}

/// The supplied arguments cut or padded with `Nil` to `params` values.
pub open spec fn fit_arguments(args: Seq<ValueView>, params: nat) -> Seq<ValueView> {
    Seq::new(
        params,
        |i: int|
            if i < args.len() {
                args[i]
            } else {
                ValueView::Nil
            },
    )
}

/// The two stack slots that a call leaves for its return: the instruction
/// pointer to resume at, then the caller's routine.
pub open spec fn frame_marker(resume: nat, caller: CodeView) -> Seq<ValueView> {
    seq![ValueView::Integer(resume as i32), ValueView::Code(caller)]
}

/// The name that constant `index` of `code` spells, if it is in range and a
/// string.
pub open spec fn constant_name(code: CodeView, index: nat) -> Option<Seq<char>> {
    if index < code.constants.len() {
        match code.constants[index as int] {
            ValueView::String(name) => Some(name),
            _ => None,
        }
    } else {
        None
    }
}

/// `Return`, written or implied by the end of the instructions. With an empty
/// stack the thread is complete. Otherwise the two topmost values must be a
/// frame marker, and the caller resumes from it.
pub open spec fn do_return(s: State) -> Step {
    let n = s.stack.len();
    if n == 0 {
        (s, Ok(true))
    } else if n < 2 {
        fail(s, ExecError::StackEmpty)
    } else {
        match (s.stack[n - 2], s.stack[n - 1]) {
            (ValueView::Integer(resume), ValueView::Code(caller)) => if resume >= 0 {
                proceed(
                    State { code: caller, instr: resume as nat, stack: below(s.stack, 2), ..s },
                )
            } else {
                fail(s, ExecError::InvalidInstruction)
            },
            _ => fail(s, ExecError::InvalidInstruction),
        }
    }
}

/// `Call` with `n` arguments on the stack above the function.
pub open spec fn do_call(s: State, n: nat) -> Step {
    if s.stack.len() < n + 1 {
        fail(s, ExecError::StackEmpty)
    } else {
        match s.stack[s.stack.len() - 1 - n] {
            ValueView::Function(f) => if f.code.upvalues > 0 || s.instr > i32::MAX {
                fail(s, ExecError::InvalidInstruction)
            } else if s.stack.len() - n + f.code.params + 2 > STACK_LIMIT {
                fail(s, ExecError::StackFull)
            } else {
                proceed(
                    State {
                        code: f.code,
                        instr: 0,
                        stack: below(s.stack, n) + fit_arguments(top(s.stack, n), f.code.params)
                            + frame_marker(s.instr, s.code),
                        ..s
                    },
                )
            },
            _ => fail(s, ExecError::InvalidInstruction),
        }
    }
}

/// The thread goes on with `v` pushed, if the stack has room for it.
pub open spec fn push(s: State, v: ValueView) -> Step {
    if s.stack.len() + 1 > STACK_LIMIT {
        fail(s, ExecError::StackFull)
    } else {
        proceed(State { stack: s.stack.push(v), ..s })
    }
}

/// `LoadConstant` of constant `index`.
pub open spec fn do_load_constant(s: State, index: nat) -> Step {
    if index < s.code.constants.len() {
        push(s, s.code.constants[index as int])
    } else {
        fail(s, ExecError::InvalidInstruction)
    }
}

/// `LoadCode` of nested routine `index`.
pub open spec fn do_load_code(s: State, index: nat) -> Step {
    if index < s.code.codes.len() {
        push(s, ValueView::Code(s.code.codes[index as int]))
    } else {
        fail(s, ExecError::InvalidInstruction)
    }
}

/// `MakeFunction` capturing the topmost `n` values over the routine below
/// them.
pub open spec fn do_make_function(s: State, n: nat) -> Step {
    if s.stack.len() < n + 1 {
        fail(s, ExecError::StackEmpty)
    } else {
        match s.stack[s.stack.len() - 1 - n] {
            ValueView::Code(code) => proceed(
                State {
                    stack: below(s.stack, n + 1).push(
                        ValueView::Function(FunctionView { code, upvalues: top(s.stack, n) }),
                    ),
                    ..s
                },
            ),
            _ => fail(s, ExecError::InvalidInstruction),
        }
    }
}

/// `LoadGlobal` of the name that constant `index` spells. An unbound name
/// reads as `Nil`.
pub open spec fn do_load_global(s: State, index: nat) -> Step {
    match constant_name(s.code, index) {
        Some(name) => push(
            s,
            if s.globals.dom().contains(name) {
                s.globals[name]
            } else {
                ValueView::Nil
            },
        ),
        None => fail(s, ExecError::InvalidInstruction),
    }
}

/// `SetGlobal` of the name that constant `index` spells, to the top of the
/// stack.
pub open spec fn do_set_global(s: State, index: nat) -> Step {
    match constant_name(s.code, index) {
        Some(name) => if s.stack.len() < 1 {
            fail(s, ExecError::StackEmpty)
        } else {
            proceed(
                State {
                    stack: below(s.stack, 1),
                    globals: s.globals.insert(name, s.stack.last()),
                    ..s
                },
            )
        },
        None => fail(s, ExecError::InvalidInstruction),
    }
}

/// `GetAttr`: takes an object and, above it, a name. The machine itself
/// keeps no members for any object, so every attribute reads as `Nil`.
pub open spec fn do_get_attr(s: State) -> Step {
    if s.stack.len() < 2 {
        fail(s, ExecError::StackEmpty)
    } else if !(s.stack.last() is String) {
        fail(s, ExecError::InvalidInstruction)
    } else {
        proceed(State { stack: below(s.stack, 2).push(ValueView::Nil), ..s })
    }
}

/// `SetAttr`: takes an object, a name and, on top, the value to store. The
/// machine itself keeps no members for any object, so the three are dropped.
pub open spec fn do_set_attr(s: State) -> Step {
    if s.stack.len() < 3 {
        fail(s, ExecError::StackEmpty)
    } else if !(s.stack[s.stack.len() - 2] is String) {
        fail(s, ExecError::InvalidInstruction)
    } else {
        proceed(State { stack: below(s.stack, 3), ..s })
    }
}

/// `Pop` of the topmost `n` values.
pub open spec fn do_pop(s: State, n: nat) -> Step {
    if s.stack.len() < n {
        fail(s, ExecError::StackEmpty)
    } else {
        proceed(State { stack: below(s.stack, n), ..s })
    }
}

/// What instruction `op` does in `s`, with the instruction pointer already
/// past the opcode and past the operand, where it has one.
pub open spec fn perform(s: State, op: Instruction, operand: nat) -> Step {
    match op {
        Instruction::Return => do_return(s),
        Instruction::Call => do_call(s, operand),
        Instruction::LoadConstant => do_load_constant(s, operand),
        Instruction::LoadCode => do_load_code(s, operand),
        Instruction::MakeFunction => do_make_function(s, operand),
        Instruction::LoadGlobal => do_load_global(s, operand),
        Instruction::SetGlobal => do_set_global(s, operand),
        Instruction::GetAttr => do_get_attr(s),
        Instruction::SetAttr => do_set_attr(s),
        Instruction::Pop => do_pop(s, operand),
    }
}

/// One instruction: fetch, decode, execute. Past the end of the
/// instructions the fetched instruction is `Return`. The instruction pointer
/// moves past each byte that is read; an instruction that fails changes
/// nothing else.
pub open spec fn step(s: State) -> Step {
    let bytes = s.code.instrs;
    if s.instr >= bytes.len() {
        do_return(s)
    } else {
        let s1 = State { instr: s.instr + 1, ..s };
        match decode(bytes[s.instr as int]) {
            None => fail(s1, ExecError::InvalidInstruction),
            Some(op) => if !op.has_operand() {
                perform(s1, op, 0)
            } else if s1.instr >= bytes.len() {
                fail(s1, ExecError::InvalidInstruction)
            } else {
                perform(State { instr: s1.instr + 1, ..s1 }, op, bytes[s1.instr as int] as nat)
            },
        }
    }
}

/// Up to `budget` instructions from `s`: stops at completion, at a failure,
/// or when the budget is used up.
pub open spec fn run(s: State, budget: nat) -> Step
    decreases budget,
{
    if budget == 0 {
        proceed(s)
    } else {
        let (next, status) = step(s);
        if status == Ok::<bool, ExecError>(false) {
            run(next, (budget - 1) as nat)
        } else {
            (next, status)
        }
    }
}

/// The number of instructions that a budget allows. An absent budget stands
/// for the largest count.
pub open spec fn allowance(count: Option<usize>) -> nat {
    match count {
        Some(n) => n as nat,
        None => usize::MAX as nat,
    }
}

} // verus!
