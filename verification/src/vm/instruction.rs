//! The instruction set and its one-byte encoding.

use num_traits::FromPrimitive;
use vstd::prelude::*;

verus! {

/// One operation of the machine. Each is encoded as a single opcode byte;
/// those that take an operand are followed by exactly one operand byte.
#[derive(Clone, Copy, Debug, PartialEq, Eq, Structural)]
pub enum Instruction {
    Return,
    Call,
    LoadConstant,
    LoadCode,
    MakeFunction,
    LoadGlobal,
    SetGlobal,
    GetAttr,
    SetAttr,
    Pop,
}

/// The instruction that an opcode byte stands for, if any.
pub open spec fn decode(byte: u8) -> Option<Instruction> {
    if byte == 0 {
        Some(Instruction::Return)
    } else if byte == 1 {
        Some(Instruction::Call)
    } else if byte == 2 {
        Some(Instruction::LoadConstant)
    } else if byte == 3 {
        Some(Instruction::LoadCode)
    } else if byte == 4 {
        Some(Instruction::MakeFunction)
    } else if byte == 5 {
        Some(Instruction::LoadGlobal)
    } else if byte == 6 {
        Some(Instruction::SetGlobal)
    } else if byte == 7 {
        Some(Instruction::GetAttr)
    } else if byte == 8 {
        Some(Instruction::SetAttr)
    } else if byte == 9 {
        Some(Instruction::Pop)
    } else {
        None
    }
}

/// The instruction that a number stands for, if any: that of the opcode
/// byte of this value.
pub open spec fn decode_number(n: int) -> Option<Instruction> {
    if 0 <= n <= u8::MAX {
        decode(n as u8)
    } else {
        None
    }
}

impl FromPrimitive for Instruction {
    /// The instruction whose opcode is `n`.
    fn from_i64(n: i64) -> (r: Option<Instruction>)
        ensures
            r == decode_number(n as int),
    {
        match n {
            0 => Some(Instruction::Return),
            1 => Some(Instruction::Call),
            2 => Some(Instruction::LoadConstant),
            3 => Some(Instruction::LoadCode),
            4 => Some(Instruction::MakeFunction),
            5 => Some(Instruction::LoadGlobal),
            6 => Some(Instruction::SetGlobal),
            7 => Some(Instruction::GetAttr),
            8 => Some(Instruction::SetAttr),
            9 => Some(Instruction::Pop),
            _ => None,
        }
    }

    /// The instruction whose opcode is `n`.
    fn from_u64(n: u64) -> (r: Option<Instruction>)
        ensures
            r == decode_number(n as int),
    {
        if n <= 9 {
            Self::from_i64(n as i64)
        } else {
            None
        }
    }
}

/// `FromPrimitive::from_u8` of num_traits, at `Instruction`. The trait
/// provides this method: it widens the byte to a `u64` and hands that to
/// `from_u64`. So the result is what `from_u64` gives for the byte's value.
#[verifier::external_body]
fn from_primitive_u8(byte: u8) -> (r: Option<Instruction>)
    ensures
        r == decode_number(byte as int),
{
    FromPrimitive::from_u8(byte)
}

impl Instruction {
    /// The opcode byte of this instruction.
    pub open spec fn opcode(self) -> u8 {
        match self {
            Instruction::Return => 0,
            Instruction::Call => 1,
            Instruction::LoadConstant => 2,
            Instruction::LoadCode => 3,
            Instruction::MakeFunction => 4,
            Instruction::LoadGlobal => 5,
            Instruction::SetGlobal => 6,
            Instruction::GetAttr => 7,
            Instruction::SetAttr => 8,
            Instruction::Pop => 9,
        }
    }

    /// Whether one operand byte follows the opcode.
    pub open spec fn has_operand(self) -> bool {
        !(self is Return || self is GetAttr || self is SetAttr)
    }

    /// Decodes an opcode byte; `None` for a byte that names no instruction.
    pub fn from_byte(byte: u8) -> (r: Option<Instruction>)
        ensures
            r == decode(byte),
    {
        from_primitive_u8(byte)
    }

    /// Encodes this instruction as its opcode byte.
    pub fn to_u8(self) -> (b: u8)
        ensures
            b == self.opcode(),
    {
        match self {
            Instruction::Return => 0,
            Instruction::Call => 1,
            Instruction::LoadConstant => 2,
            Instruction::LoadCode => 3,
            Instruction::MakeFunction => 4,
            Instruction::LoadGlobal => 5,
            Instruction::SetGlobal => 6,
            Instruction::GetAttr => 7,
            Instruction::SetAttr => 8,
            Instruction::Pop => 9,
        }
    }

    /// Whether one operand byte follows the opcode.
    pub fn takes_operand(self) -> (b: bool)
        ensures
            b == self.has_operand(),
    {
        match self {
            Instruction::Return | Instruction::GetAttr | Instruction::SetAttr => false,
            _ => true,
        }
    }
}

} // verus!
