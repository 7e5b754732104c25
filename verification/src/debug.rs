//! Debug formatting of a chunk: one line per instruction with its offset,
//! source line and mnemonic. Printing is I/O, so the embedding program
//! implements this trait over the chunk data — code bytes, constants and
//! the `get_line` lookup — that the library exposes and verifies.

use vstd::prelude::*;
use crate::InstructionSize;

verus! {

/// A disassembler over instructions of type `I`, whose byte sizes drive
/// the walk from one offset to the next.
pub trait ChunkDebug<I: InstructionSize> {
    /// Print every instruction of the chunk under a header named `name`.
    fn disassemblee_chunk(&self, name: &str);

    /// Print the instruction at `offset` and hand back its size in bytes,
    /// the step to the next offset.
    fn disassemble_instruction(&self, offset: usize) -> usize;
}

} // verus!
