//! The executable machine: threads, and the virtual machine that runs them.

use super::error::ExecError;
use super::globals::Globals;
use super::instruction::Instruction;
use super::semantics::{
    allowance, below, do_call, do_get_attr, do_load_code, do_load_constant, do_load_global,
    do_make_function, do_pop, do_return, do_set_attr, do_set_global, fit_arguments, frame_marker,
    push, run, step, top, State, STACK_LIMIT,
};
use super::value::{
    lemma_code_view, lemma_function_view, lemma_value_view, share, views, Code, Function, Value,
    ValueView,
};
use std::rc::Rc;
use vstd::prelude::*;

verus! {

/// One execution context: the routine it is in, where in it, and its operand
/// stack. Call frames live on the operand stack, as frame markers.
pub struct Thread {
    pub code: Rc<Code>,
    pub instr: usize,
    pub stack: Vec<Value>,
}

/// The state shared by the threads of one program: its global names.
pub struct VirtualMachine {
    globals: Globals,
}

impl View for VirtualMachine {
    type V = Map<Seq<char>, ValueView>;

    /// The values bound to global names.
    closed spec fn view(&self) -> Map<Seq<char>, ValueView> {
        self.globals@
    }
}

/// The state that `thread` runs on, over the global names `globals`.
pub open spec fn state(thread: Thread, globals: Map<Seq<char>, ValueView>) -> State {
    State {
        code: (*thread.code)@,
        instr: thread.instr as nat,
        stack: views(thread.stack@),
        globals,
    }
}

impl Thread {
    /// Pushes `value`, if the stack has room for it.
    fn push(&mut self, value: Value, Ghost(globals): Ghost<Map<Seq<char>, ValueView>>) -> (r:
        Result<bool, ExecError>)
        ensures
            (state(*final(self), globals), r) == push(state(*old(self), globals), value@),
    {
        if self.stack.len() >= STACK_LIMIT {
            return Err(ExecError::StackFull);
        }
        self.stack.push(value);
        assert(views(self.stack@) =~= views(old(self).stack@).push(value@));
        Ok(false)
    }

    /// `Return`: completes the thread, or resumes the caller from the frame
    /// marker on top of the stack.
    fn do_return(&mut self, Ghost(globals): Ghost<Map<Seq<char>, ValueView>>) -> (r: Result<
        bool,
        ExecError,
    >)
        ensures
            (state(*final(self), globals), r) == do_return(state(*old(self), globals)),
    {
        let n = self.stack.len();
        if n == 0 {
            return Ok(true);
        }
        if n < 2 {
            return Err(ExecError::StackEmpty);
        }
        let resume: usize = match &self.stack[n - 2] {
            Value::Integer(i) => {
                if *i < 0 {
                    return Err(ExecError::InvalidInstruction);
                }
                *i as usize
            },
            _ => {
                return Err(ExecError::InvalidInstruction);
            },
        };
        let caller: Rc<Code> = match &self.stack[n - 1] {
            Value::Code(c) => share(c),
            _ => {
                return Err(ExecError::InvalidInstruction);
            },
        };
        self.stack.truncate(n - 2);
        self.code = caller;
        self.instr = resume;
        assert(views(self.stack@) =~= below(views(old(self).stack@), 2));
        Ok(false)
    }

    /// `Call` with `n` arguments above the function.
    fn do_call(&mut self, n: u8, Ghost(globals): Ghost<Map<Seq<char>, ValueView>>) -> (r: Result<
        bool,
        ExecError,
    >)
        ensures
            (state(*final(self), globals), r) == do_call(state(*old(self), globals), n as nat),
    {
        let len = self.stack.len();
        let n: usize = n as usize;
        if len < n + 1 {
            return Err(ExecError::StackEmpty);
        }
        let callee: Rc<Code> = match &self.stack[len - 1 - n] {
            Value::Function(f) => share(&f.code),
            _ => {
                return Err(ExecError::InvalidInstruction);
            },
        };
        proof {
            let function = self.stack@[len - 1 - n];
            lemma_value_view(&function);
            lemma_function_view(&*function->Function_0);
            lemma_code_view(&*callee);
        }
        if callee.upvalues > 0 || self.instr > 0x7fff_ffff {
            return Err(ExecError::InvalidInstruction);
        }
        let params: usize = callee.params;
        if params > STACK_LIMIT - 2 || len - n > STACK_LIMIT - 2 - params {
            return Err(ExecError::StackFull);
        }
        let ghost before = views(self.stack@);
        if params > n {
            let mut have: usize = n;
            while have < params
                invariant
                    n <= have <= params,
                    self.stack@.len() == len - n + have,
                    views(self.stack@) =~= below(before, n as nat) + fit_arguments(
                        top(before, n as nat),
                        have as nat,
                    ),
                    before.len() == len,
                    n < len,
                    self.code == old(self).code,
                    self.instr == old(self).instr,
                    params <= STACK_LIMIT,
                    len - n <= STACK_LIMIT - 2 - params,
                decreases params - have,
            {
                let ghost shorter = views(self.stack@);
                self.stack.push(Value::Nil);
                have += 1;
                assert(views(self.stack@) =~= shorter.push(ValueView::Nil));
                assert(views(self.stack@) =~= below(before, n as nat) + fit_arguments(
                    top(before, n as nat),
                    have as nat,
                ));
            }
        } else {
            self.stack.truncate(len - n + params);
        }
        assert(views(self.stack@) =~= below(before, n as nat) + fit_arguments(
            top(before, n as nat),
            params as nat,
        ));
        self.stack.push(Value::Integer(self.instr as i32));
        self.stack.push(Value::Code(share(&self.code)));
        assert(views(self.stack@) =~= below(before, n as nat) + fit_arguments(
            top(before, n as nat),
            params as nat,
        ) + frame_marker(old(self).instr as nat, (*old(self).code)@));
        self.instr = 0;
        self.code = callee;
        Ok(false)
    }

    /// `LoadConstant` of constant `index`.
    fn do_load_constant(&mut self, index: u8, Ghost(globals): Ghost<Map<Seq<char>, ValueView>>) -> (r:
        Result<bool, ExecError>)
        ensures
            (state(*final(self), globals), r) == do_load_constant(
                state(*old(self), globals),
                index as nat,
            ),
    {
        let index: usize = index as usize;
        if index >= self.code.constants.len() {
            return Err(ExecError::InvalidInstruction);
        }
        let value = self.code.constants[index].clone();
        self.push(value, Ghost(globals))
    }

    /// `LoadCode` of nested routine `index`.
    fn do_load_code(&mut self, index: u8, Ghost(globals): Ghost<Map<Seq<char>, ValueView>>) -> (r:
        Result<bool, ExecError>)
        ensures
            (state(*final(self), globals), r) == do_load_code(
                state(*old(self), globals),
                index as nat,
            ),
    {
        let index: usize = index as usize;
        if index >= self.code.codes.len() {
            return Err(ExecError::InvalidInstruction);
        }
        let value = Value::Code(share(&self.code.codes[index]));
        self.push(value, Ghost(globals))
    }

    /// `MakeFunction` capturing the topmost `n` values.
    fn do_make_function(&mut self, n: u8, Ghost(globals): Ghost<Map<Seq<char>, ValueView>>) -> (r:
        Result<bool, ExecError>)
        ensures
            (state(*final(self), globals), r) == do_make_function(
                state(*old(self), globals),
                n as nat,
            ),
    {
        let len = self.stack.len();
        let n: usize = n as usize;
        if len < n + 1 {
            return Err(ExecError::StackEmpty);
        }
        let code: Rc<Code> = match &self.stack[len - 1 - n] {
            Value::Code(c) => share(c),
            _ => {
                return Err(ExecError::InvalidInstruction);
            },
        };
        let upvalues = self.stack.split_off(len - n);
        self.stack.truncate(len - 1 - n);
        let function = Function { code, upvalues };
        proof {
            lemma_function_view(&function);
            assert(views(function.upvalues@) =~= top(views(old(self).stack@), n as nat));
        }
        self.stack.push(Value::Function(Rc::new(function)));
        assert(views(self.stack@) =~= below(views(old(self).stack@), (n + 1) as nat).push(
            ValueView::Function(function@),
        ));
        Ok(false)
    }

    /// `GetAttr`: an object and a name give way to `Nil`.
    fn do_get_attr(&mut self, Ghost(globals): Ghost<Map<Seq<char>, ValueView>>) -> (r: Result<
        bool,
        ExecError,
    >)
        ensures
            (state(*final(self), globals), r) == do_get_attr(state(*old(self), globals)),
    {
        let len = self.stack.len();
        if len < 2 {
            return Err(ExecError::StackEmpty);
        }
        match &self.stack[len - 1] {
            Value::String(_) => {},
            _ => {
                return Err(ExecError::InvalidInstruction);
            },
        }
        self.stack.truncate(len - 2);
        self.stack.push(Value::Nil);
        assert(views(self.stack@) =~= below(views(old(self).stack@), 2).push(ValueView::Nil));
        Ok(false)
    }

    /// `SetAttr`: an object, a name and a value are dropped.
    fn do_set_attr(&mut self, Ghost(globals): Ghost<Map<Seq<char>, ValueView>>) -> (r: Result<
        bool,
        ExecError,
    >)
        ensures
            (state(*final(self), globals), r) == do_set_attr(state(*old(self), globals)),
    {
        let len = self.stack.len();
        if len < 3 {
            return Err(ExecError::StackEmpty);
        }
        match &self.stack[len - 2] {
            Value::String(_) => {},
            _ => {
                return Err(ExecError::InvalidInstruction);
            },
        }
        self.stack.truncate(len - 3);
        assert(views(self.stack@) =~= below(views(old(self).stack@), 3));
        Ok(false)
    }

    /// `Pop` of the topmost `n` values.
    fn do_pop(&mut self, n: u8, Ghost(globals): Ghost<Map<Seq<char>, ValueView>>) -> (r: Result<
        bool,
        ExecError,
    >)
        ensures
            (state(*final(self), globals), r) == do_pop(state(*old(self), globals), n as nat),
    {
        let len = self.stack.len();
        let n: usize = n as usize;
        if len < n {
            return Err(ExecError::StackEmpty);
        }
        self.stack.truncate(len - n);
        assert(views(self.stack@) =~= below(views(old(self).stack@), n as nat));
        Ok(false)
    }
}

impl VirtualMachine {
    /// A machine with no global bound.
    pub fn new() -> (vm: VirtualMachine)
        ensures
            vm@ == Map::<Seq<char>, ValueView>::empty(),
    {
        VirtualMachine { globals: Globals::new() }
    }

    /// A thread at the start of `code`, with an empty stack. The machine is
    /// left as it is.
    pub fn load(&mut self, code: Code) -> (thread: Thread)
        ensures
            *thread.code == code,
            thread.instr == 0,
            thread.stack@ == Seq::<Value>::empty(),
            final(self)@ == old(self)@,
    {
        Thread { code: Rc::new(code), instr: 0, stack: Vec::new() }
    }

    /// The value bound to the global `name`, if any.
    pub fn global(&self, name: &str) -> (r: Option<Value>)
        ensures
            match r {
                Some(v) => self@.dom().contains(name@) && self@[name@] == v@,
                None => !self@.dom().contains(name@),
            },
    {
        self.globals.get(&name.to_owned())
    }

    /// `LoadGlobal` of the name that constant `index` spells.
    fn do_load_global(&self, thread: &mut Thread, index: u8) -> (r: Result<bool, ExecError>)
        ensures
            (state(*final(thread), self@), r) == do_load_global(
                state(*old(thread), self@),
                index as nat,
            ),
    {
        let index: usize = index as usize;
        if index >= thread.code.constants.len() {
            return Err(ExecError::InvalidInstruction);
        }
        proof {
            lemma_value_view(&thread.code.constants@[index as int]);
        }
        let value = match &thread.code.constants[index] {
            Value::String(name) => match self.globals.get(&**name) {
                Some(v) => v,
                None => Value::Nil,
            },
            _ => {
                return Err(ExecError::InvalidInstruction);
            },
        };
        thread.push(value, Ghost(self@))
    }

    /// `SetGlobal` of the name that constant `index` spells.
    fn do_set_global(&mut self, thread: &mut Thread, index: u8) -> (r: Result<bool, ExecError>)
        ensures
            (state(*final(thread), final(self)@), r) == do_set_global(
                state(*old(thread), old(self)@),
                index as nat,
            ),
    {
        let index: usize = index as usize;
        if index >= thread.code.constants.len() {
            return Err(ExecError::InvalidInstruction);
        }
        proof {
            lemma_value_view(&thread.code.constants@[index as int]);
        }
        let name: String = match &thread.code.constants[index] {
            Value::String(name) => (**name).clone(),
            _ => {
                return Err(ExecError::InvalidInstruction);
            },
        };
        match thread.stack.pop() {
            Some(value) => {
                self.globals.set(name, value);
                assert(views(thread.stack@) =~= below(views(old(thread).stack@), 1));
                Ok(false)
            },
            None => Err(ExecError::StackEmpty),
        }
    }

    /// Executes one instruction of `thread`.
    fn advance(&mut self, thread: &mut Thread) -> (r: Result<bool, ExecError>)
        ensures
            (state(*final(thread), final(self)@), r) == step(state(*old(thread), old(self)@)),
    {
        let len = thread.code.instrs.len();
        if thread.instr >= len {
            return thread.do_return(Ghost(self@));
        }
        let byte = thread.code.instrs[thread.instr];
        thread.instr += 1;
        let op = match Instruction::from_byte(byte) {
            Some(op) => op,
            None => {
                return Err(ExecError::InvalidInstruction);
            },
        };
        if !op.takes_operand() {
            return match op {
                Instruction::Return => thread.do_return(Ghost(self@)),
                Instruction::GetAttr => thread.do_get_attr(Ghost(self@)),
                _ => thread.do_set_attr(Ghost(self@)),
            };
        }
        if thread.instr >= len {
            return Err(ExecError::InvalidInstruction);
        }
        let operand = thread.code.instrs[thread.instr];
        thread.instr += 1;
        match op {
            Instruction::Call => thread.do_call(operand, Ghost(self@)),
            Instruction::LoadConstant => thread.do_load_constant(operand, Ghost(self@)),
            Instruction::LoadCode => thread.do_load_code(operand, Ghost(self@)),
            Instruction::MakeFunction => thread.do_make_function(operand, Ghost(self@)),
            Instruction::LoadGlobal => self.do_load_global(thread, operand),
            Instruction::SetGlobal => self.do_set_global(thread, operand),
            _ => thread.do_pop(operand, Ghost(self@)),
        }
    }

    /// Runs `thread` for at most `count` instructions; an absent count
    /// stands for the largest one. Returns `Ok(true)` if the thread ran to
    /// completion, `Ok(false)` if the count was used up first, and the error
    /// if an instruction failed.
    pub fn execute(&mut self, thread: &mut Thread, count: Option<usize>) -> (r: Result<
        bool,
        ExecError,
    >)
        ensures
            (state(*final(thread), final(self)@), r) == run(
                state(*old(thread), old(self)@),
                allowance(count),
            ),
    {
        let mut left: usize = match count {
            Some(n) => n,
            None => usize::MAX,
        };
        while left > 0
            invariant
                run(state(*thread, self@), left as nat) == run(
                    state(*old(thread), old(self)@),
                    allowance(count),
                ),
            decreases left,
        {
            let status = self.advance(thread);
            match status {
                Ok(false) => {},
                _ => {
                    return status;
                },
            }
            left -= 1;
        }
        Ok(false)
    }
}

} // verus!
