//! The instruction set: single-byte opcodes and their encoding.

use vstd::prelude::*;
use crate::InstructionSize;

verus! {

/// A bytecode instruction. `OpConstant` is followed by a one-byte index into
/// the constant pool; every other instruction is a single byte.
#[derive(Clone, Copy, Debug, PartialEq, Eq, Structural)]
pub enum OpCode {
    OpReturn,
    OpConstant,
    OpNegate,
    OpAdd,
    OpSubtract,
    OpMultiply,
    OpDivide,
    OpNil,
    OpTrue,
    OpFalse,
}

impl OpCode {
    /// The stable numeric encoding of each opcode.
    pub open spec fn spec_byte(self) -> u8 {
        match self {
            OpCode::OpReturn => 0,
            OpCode::OpConstant => 1,
            OpCode::OpNegate => 2,
            OpCode::OpAdd => 3,
            OpCode::OpSubtract => 4,
            OpCode::OpMultiply => 5,
            OpCode::OpDivide => 6,
            OpCode::OpNil => 7,
            OpCode::OpTrue => 8,
            OpCode::OpFalse => 9,
        }
    }

    /// Decoding: the inverse of `spec_byte`; bytes above 9 decode to nothing.
    pub open spec fn spec_from_byte(b: u8) -> Option<OpCode> {
        if b == 0 {
            Some(OpCode::OpReturn)
        } else if b == 1 {
            Some(OpCode::OpConstant)
        } else if b == 2 {
            Some(OpCode::OpNegate)
        } else if b == 3 {
            Some(OpCode::OpAdd)
        } else if b == 4 {
            Some(OpCode::OpSubtract)
        } else if b == 5 {
            Some(OpCode::OpMultiply)
        } else if b == 6 {
            Some(OpCode::OpDivide)
        } else if b == 7 {
            Some(OpCode::OpNil)
        } else if b == 8 {
            Some(OpCode::OpTrue)
        } else if b == 9 {
            Some(OpCode::OpFalse)
        } else {
            None
        }
    }

    /// Encode this opcode as its instruction byte.
    pub fn as_byte(self) -> (b: u8)
        ensures
            b == self.spec_byte(),
    {
        match self {
            OpCode::OpReturn => 0,
            OpCode::OpConstant => 1,
            OpCode::OpNegate => 2,
            OpCode::OpAdd => 3,
            OpCode::OpSubtract => 4,
            OpCode::OpMultiply => 5,
            OpCode::OpDivide => 6,
            OpCode::OpNil => 7,
            OpCode::OpTrue => 8,
            OpCode::OpFalse => 9,
        }
    }

    /// Decode one byte of the code stream; bytes outside the instruction set
    /// decode to `None`.
    pub fn from_byte(b: u8) -> (r: Option<OpCode>)
        ensures
            r == Self::spec_from_byte(b),
    {
        if b == 0 {
            Some(OpCode::OpReturn)
        } else if b == 1 {
            Some(OpCode::OpConstant)
        } else if b == 2 {
            Some(OpCode::OpNegate)
        } else if b == 3 {
            Some(OpCode::OpAdd)
        } else if b == 4 {
            Some(OpCode::OpSubtract)
        } else if b == 5 {
            Some(OpCode::OpMultiply)
        } else if b == 6 {
            Some(OpCode::OpDivide)
        } else if b == 7 {
            Some(OpCode::OpNil)
        } else if b == 8 {
            Some(OpCode::OpTrue)
        } else if b == 9 {
            Some(OpCode::OpFalse)
        } else {
            None
        }
    }
}

/// Round trip: decoding an encoded opcode gives the opcode back, so the
/// numeric assignments are injective.
pub proof fn lemma_opcode_byte_round_trip(op: OpCode)
    ensures
        OpCode::spec_from_byte(op.spec_byte()) == Some(op),
{
}

impl InstructionSize for OpCode {
    open spec fn spec_size(&self) -> usize {
        match self {
            OpCode::OpConstant => 2,
            _ => 1,
        }
    }

    fn size(&self) -> (s: usize)
        ensures
            s == self.spec_size(),
    {
        match self {
            OpCode::OpConstant => 2,
            _ => 1,
        }
    }
}

} // verus!
