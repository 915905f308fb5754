//! The value model: tagged values, compiled routines, and closures.
//!
//! Each executable type has a mathematical view, over which the machine's
//! behaviour is stated.

use std::rc::Rc;
use vstd::prelude::*;

verus! {

/// What a [`Value`] holds.
pub enum ValueView {
    String(Seq<char>),
    Integer(i32),
    Nil,
    Code(CodeView),
    Function(FunctionView),
    Userdata(usize),
}

/// What a [`Code`] holds.
pub struct CodeView {
    /// How many values a function over this routine captures.
    pub upvalues: nat,
    /// How many positional parameters the routine declares.
    pub params: nat,
    /// The constant table.
    pub constants: Seq<ValueView>,
    /// The instruction bytes.
    pub instrs: Seq<u8>,
    /// The nested routines.
    pub codes: Seq<CodeView>,
}

/// What a [`Function`] holds.
pub struct FunctionView {
    pub code: CodeView,
    pub upvalues: Seq<ValueView>,
}

/// A value of the language. The heap-backed variants are shared, so a copy
/// is cheap.
pub enum Value {
    /// Immutable text.
    String(Rc<String>),
    Integer(i32),
    Nil,
    /// A compiled routine.
    Code(Rc<Code>),
    /// A routine with its captured values.
    Function(Rc<Function>),
    /// A handle to state that the host manages.
    Userdata(usize),
}

/// One compiled routine. It is not changed once it is built.
pub struct Code {
    pub upvalues: usize,
    pub params: usize,
    pub constants: Vec<Value>,
    pub instrs: Vec<u8>,
    pub codes: Vec<Rc<Code>>,
}

/// A routine together with the values it captured when it was made.
pub struct Function {
    pub code: Rc<Code>,
    pub upvalues: Vec<Value>,
}

/// The view of a value.
pub open spec fn value_view(v: Value) -> ValueView
    decreases v,
{
    match v {
        Value::String(s) => ValueView::String((*s)@),
        Value::Integer(i) => ValueView::Integer(i),
        Value::Nil => ValueView::Nil,
        Value::Code(c) => ValueView::Code(code_view(*c)),
        Value::Function(f) => ValueView::Function(function_view(*f)),
        Value::Userdata(u) => ValueView::Userdata(u),
    }
}

/// The view of a routine.
pub open spec fn code_view(c: Code) -> CodeView
    decreases c,
{
    CodeView {
        upvalues: c.upvalues as nat,
        params: c.params as nat,
        constants: Seq::new(
            c.constants@.len(),
            |i: int|
                if 0 <= i < c.constants@.len() {
                    value_view(c.constants@[i])
                } else {
                    ValueView::Nil
                },
        ),
        instrs: c.instrs@,
        codes: Seq::new(
            c.codes@.len(),
            |i: int|
                if 0 <= i < c.codes@.len() {
                    code_view(*c.codes@[i])
                } else {
                    arbitrary()
                },
        ),
    }
}

/// The view of a function.
pub open spec fn function_view(f: Function) -> FunctionView
    decreases f,
{
    FunctionView {
        code: code_view(*f.code),
        upvalues: Seq::new(
            f.upvalues@.len(),
            |i: int|
                if 0 <= i < f.upvalues@.len() {
                    value_view(f.upvalues@[i])
                } else {
                    ValueView::Nil
                },
        ),
    }
}

/// The views of a sequence of values, in order.
pub open spec fn views(s: Seq<Value>) -> Seq<ValueView> {
    Seq::new(s.len(), |i: int| value_view(s[i]))
}

impl View for Value {
    type V = ValueView;

    open spec fn view(&self) -> ValueView {
        value_view(*self)
    }
}

impl View for Code {
    type V = CodeView;

    open spec fn view(&self) -> CodeView {
        code_view(*self)
    }
}

impl View for Function {
    type V = FunctionView;

    open spec fn view(&self) -> FunctionView {
        function_view(*self)
    }
}

/// A value's view, variant by variant.
pub proof fn lemma_value_view(v: &Value)
    ensures
        match *v {
            Value::String(s) => v@ == ValueView::String((*s)@),
            Value::Integer(i) => v@ == ValueView::Integer(i),
            Value::Nil => v@ == ValueView::Nil,
            Value::Code(c) => v@ == ValueView::Code((*c)@),
            Value::Function(f) => v@ == ValueView::Function((*f)@),
            Value::Userdata(u) => v@ == ValueView::Userdata(u),
        },
{
}

/// A routine's view, field by field.
pub proof fn lemma_code_view(c: &Code)
    ensures
        c@.upvalues == c.upvalues,
        c@.params == c.params,
        c@.constants == views(c.constants@),
        c@.instrs == c.instrs@,
        c@.codes.len() == c.codes@.len(),
        forall|i: int| 0 <= i < c.codes@.len() ==> c@.codes[i] == (*c.codes@[i])@,
{
    assert(c@.constants =~= views(c.constants@));
}

/// A function's view, field by field.
pub proof fn lemma_function_view(f: &Function)
    ensures
        f@.code == (*f.code)@,
        f@.upvalues == views(f.upvalues@),
{
    assert(f@.upvalues =~= views(f.upvalues@));
}

/// `Rc::clone` of std: the new pointer shares the allocation of the given
/// one, so both stand for the same value.
#[verifier::external_body]
pub(crate) fn share<T>(rc: &Rc<T>) -> (res: Rc<T>)
    ensures
        res == *rc,
{
    Rc::clone(rc)
}

impl Clone for Value {
    /// A copy of this value; a heap-backed variant shares its allocation.
    fn clone(&self) -> (res: Value)
        ensures
            res == *self,
    {
        match self {
            Value::String(s) => Value::String(share(s)),
            Value::Integer(i) => Value::Integer(*i),
            Value::Nil => Value::Nil,
            Value::Code(c) => Value::Code(share(c)),
            Value::Function(f) => Value::Function(share(f)),
            Value::Userdata(u) => Value::Userdata(*u),
        }
    }
}

} // verus!
