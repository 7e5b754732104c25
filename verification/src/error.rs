//! The error taxonomy: compile-time failures carrying a source span, and
//! runtime failures carrying a code offset and its resolved source line.

use vstd::prelude::*;
use crate::scanner::TokenType;
use crate::op_code::OpCode;
use crate::value::ValueKind;

verus! {

/// Why compilation (scanning included) failed.
#[derive(Clone, Copy, Debug, PartialEq, Eq, Structural)]
pub enum CompileErrorKind {
    /// A byte that starts no token.
    UnexpectedCharacter,
    /// End of input inside a quoted string literal.
    UnterminatedString,
    /// The parser needed one token type and saw another.
    UnexpectedToken { expected: TokenType, found: TokenType },
    /// A token with no prefix rule where an expression had to start.
    ExpectedExpression,
    /// The constant pool already holds 256 entries.
    TooManyConstants,
}

/// A compile-time failure, with the source span it points at.
#[derive(Clone, Copy, Debug, PartialEq, Eq, Structural)]
pub struct CompileError {
    pub kind: CompileErrorKind,
    /// Byte offset of the start of the offending span.
    pub start: usize,
    /// Byte length of the offending span.
    pub length: usize,
}

/// Why execution failed.
#[derive(Clone, Copy, Debug, PartialEq, Eq, Structural)]
pub enum RuntimeErrorKind {
    /// An operand had the wrong tag for the operation; `operand` is the tag
    /// of the first offending operand.
    TypeMismatch { op: OpCode, operand: ValueKind },
    /// A code byte that decodes to no instruction.
    UndecodableOpcode { byte: u8 },
}

/// A runtime failure, located at the byte offset of the instruction that
/// raised it and at that offset's source line.
#[derive(Clone, Copy, Debug, PartialEq, Eq, Structural)]
pub struct RuntimeError {
    pub kind: RuntimeErrorKind,
    /// Byte offset, within the chunk's code, of the failing instruction.
    pub offset: usize,
    /// Source line of that offset, from the chunk's line table.
    pub line: usize,
}

impl RuntimeError {
    /// Build a runtime error from its kind and location.
    pub fn new(kind: RuntimeErrorKind, offset: usize, line: usize) -> (e: RuntimeError)
        ensures
            e == (RuntimeError { kind, offset, line }),
    {
        RuntimeError { kind, offset, line }
    }
}

/// Either kind of failure, as surfaced by a whole `interpret` call.
#[derive(Clone, Copy, Debug, PartialEq, Eq, Structural)]
pub enum InterpreterError {
    Compile(CompileError),
    Runtime(RuntimeError),
}

/// Misuse of the command-line entry point; raised only by the embedding
/// program, never by this library's own logic.
pub struct ArgumentError {
    pub msg: String,
}

} // verus!
