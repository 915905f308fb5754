//! The laws of the machine: what holds of every state.

use super::error::ExecError;
use super::instruction::{decode, Instruction};
use super::semantics::{
    below, fail, fit_arguments, frame_marker, proceed, run, step, top, State, STACK_LIMIT,
};
use super::value::{FunctionView, ValueView};
use vstd::prelude::*;

verus! {

/// Decoding inverts encoding, and a byte that decodes encodes back to itself.
pub proof fn lemma_decode_opcode(i: Instruction, byte: u8)
    ensures
        decode(i.opcode()) == Some(i),
        decode(byte) == Some(i) ==> i.opcode() == byte,
{
}

/// The next instruction of `s` is `op` with the operand byte `operand`.
pub open spec fn next_is(s: State, op: Instruction, operand: nat) -> bool {
    &&& s.instr + 1 < s.code.instrs.len()
    &&& s.code.instrs[s.instr as int] == op.opcode()
    &&& s.code.instrs[(s.instr + 1) as int] == operand
}

/// `s` with the instruction pointer `bytes` further on.
pub open spec fn past(s: State, bytes: nat) -> State {
    State { instr: s.instr + bytes, ..s }
}

/// `LoadConstant` with an index at or past the end of the constant table
/// fails with `InvalidInstruction`, and reads no constant: the one step
/// fails, and so does a run on any budget that lets it be taken.
pub proof fn lemma_load_constant_out_of_range(s: State, index: nat, budget: nat)
    requires
        next_is(s, Instruction::LoadConstant, index),
        index >= s.code.constants.len(),
        budget > 0,
    ensures
        step(s) == fail(past(s, 2), ExecError::InvalidInstruction),
        run(s, budget) == fail(past(s, 2), ExecError::InvalidInstruction),
{
}

/// `LoadCode` with an index at or past the end of the table of nested
/// routines fails with `InvalidInstruction`, and reads no routine: the one
/// step fails, and so does a run on any budget that lets it be taken.
pub proof fn lemma_load_code_out_of_range(s: State, index: nat, budget: nat)
    requires
        next_is(s, Instruction::LoadCode, index),
        index >= s.code.codes.len(),
        budget > 0,
    ensures
        step(s) == fail(past(s, 2), ExecError::InvalidInstruction),
        run(s, budget) == fail(past(s, 2), ExecError::InvalidInstruction),
{
}

/// `Pop` of more values than the stack holds fails with `StackEmpty` and
/// leaves the stack as it was: the one step does, and so does a run on any
/// budget that lets it be taken.
pub proof fn lemma_pop_too_many(s: State, n: nat, budget: nat)
    requires
        next_is(s, Instruction::Pop, n),
        n > s.stack.len(),
        budget > 0,
    ensures
        step(s) == fail(past(s, 2), ExecError::StackEmpty),
        run(s, budget) == fail(past(s, 2), ExecError::StackEmpty),
        run(s, budget).0.stack == s.stack,
{
}

/// A call that succeeds hands the callee exactly as many arguments as it
/// declares parameters: the supplied ones in order, cut where there are too
/// many and followed by `Nil` where there are too few. They stand between
/// the function and the frame marker, and the callee starts at its first
/// instruction.
pub proof fn lemma_call_fits_arguments(s: State, n: nat, f: FunctionView)
    requires
        next_is(s, Instruction::Call, n),
        s.stack.len() > n,
        s.stack[s.stack.len() - 1 - n] == ValueView::Function(f),
        step(s).1 == Ok::<bool, ExecError>(false),
    ensures
        step(s).0.code == f.code,
        step(s).0.instr == 0,
        step(s).0.globals == s.globals,
        step(s).0.stack == below(s.stack, n) + fit_arguments(top(s.stack, n), f.code.params)
            + frame_marker(s.instr + 2, s.code),
        fit_arguments(top(s.stack, n), f.code.params).len() == f.code.params,
        forall|i: int|
            0 <= i < f.code.params ==> #[trigger] fit_arguments(top(s.stack, n), f.code.params)[i]
                == if i < n {
                s.stack[s.stack.len() - n + i]
            } else {
                ValueView::Nil
            },
{
}

/// A call of a routine with no instruction returns at once: after the two
/// steps the caller is at the instruction after the call's operand, and the
/// stack is what it was before the call, with the arguments cut or padded to
/// the callee's parameters. Where the call supplies as many arguments as the
/// callee declares, the stack is exactly what it was.
pub proof fn lemma_call_then_return(s: State, n: nat, f: FunctionView)
    requires
        next_is(s, Instruction::Call, n),
        s.stack.len() > n,
        s.stack[s.stack.len() - 1 - n] == ValueView::Function(f),
        f.code.upvalues == 0,
        f.code.instrs.len() == 0,
        s.instr + 2 <= i32::MAX,
        s.stack.len() - n + f.code.params + 2 <= STACK_LIMIT,
    ensures
        run(s, 2) == proceed(
            State {
                instr: s.instr + 2,
                stack: below(s.stack, n) + fit_arguments(top(s.stack, n), f.code.params),
                ..s
            },
        ),
        f.code.params == n ==> run(s, 2).0.stack == s.stack,
{
    let called = step(s).0;
    let kept = below(s.stack, n) + fit_arguments(top(s.stack, n), f.code.params);
    assert(called.stack == kept + frame_marker(s.instr + 2, s.code));
    assert(below(called.stack, 2) =~= kept);
    assert(step(called) == proceed(State { instr: s.instr + 2, stack: kept, ..s }));
    reveal_with_fuel(run, 3);
    if f.code.params == n {
        assert(kept =~= s.stack);
    }
}

/// A budget can be spent in slices: to run on `a` instructions and, if the
/// thread can still go on, on `b` more, is to run on `a + b`.
pub proof fn lemma_run_in_slices(s: State, a: nat, b: nat)
    ensures
        run(s, a + b) == if run(s, a).1 == Ok::<bool, ExecError>(false) {
            run(run(s, a).0, b)
        } else {
            run(s, a)
        },
    decreases a,
{
    if a > 0 {
        let (next, status) = step(s);
        if status == Ok::<bool, ExecError>(false) {
            lemma_run_in_slices(next, (a - 1) as nat, b);
            assert(run(s, a + b) == run(next, (a + b - 1) as nat));
        }
    }
}

} // verus!
