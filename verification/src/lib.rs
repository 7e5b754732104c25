//! Core of a single-pass bytecode compiler and stack virtual machine for a
//! small dynamically typed expression language: a scanner, a Pratt-style
//! compiler that emits bytecode into a chunk, and a stack machine that
//! executes the chunk.
//!
//! Numbers are carried as the bit patterns of 64-bit IEEE-754 floats; the
//! floating-point operations themselves (parsing a literal, arithmetic,
//! printing) are supplied by the embedding program as plain functions on
//! those bit patterns.

use vstd::prelude::*;

pub mod chunk;
pub mod compiler;
pub mod debug;
pub mod error;
pub mod laws;
pub mod op_code;
pub mod scanner;
pub mod value;
pub mod virtual_machine;

verus! {

/// Byte width of an instruction: the opcode plus its immediate operands.
pub trait InstructionSize {
    /// The width that `size` returns.
    spec fn spec_size(&self) -> usize;

    /// How many bytes this instruction occupies in the code stream.
    fn size(&self) -> (s: usize)
        ensures
            s == self.spec_size(),
    ;
}

} // verus!
