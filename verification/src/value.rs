//! The tagged runtime value.
//!
//! A number is carried as the raw bit pattern of a 64-bit IEEE-754 float.
//! This module never interprets those bits; the embedding program converts
//! them to and from machine floats at the boundary.

use vstd::prelude::*;

verus! {

/// A runtime value: nothing, a truth value, or a number (as float bits).
#[derive(Clone, Copy, Debug, PartialEq, Eq, Structural)]
pub enum Value {
    Boolean(bool),
    Number(u64),
    Nil,
}

/// The tag of a `Value`, used to describe the operand of a failed operation.
#[derive(Clone, Copy, Debug, PartialEq, Eq, Structural)]
pub enum ValueKind {
    Boolean,
    Number,
    Nil,
}

impl Value {
    /// The tag of this value.
    pub open spec fn spec_kind(self) -> ValueKind {
        match self {
            Value::Boolean(_) => ValueKind::Boolean,
            Value::Number(_) => ValueKind::Number,
            Value::Nil => ValueKind::Nil,
        }
    }

    /// The tag of this value.
    pub fn kind(self) -> (k: ValueKind)
        ensures
            k == self.spec_kind(),
    {
        match self {
            Value::Boolean(_) => ValueKind::Boolean,
            Value::Number(_) => ValueKind::Number,
            Value::Nil => ValueKind::Nil,
        }
    }

    /// Whether this value is a number.
    pub fn is_number(self) -> (r: bool)
        ensures
            r == (self is Number),
    {
        match self {
            Value::Number(_) => true,
            _ => false,
        }
    }

    /// The float bits of a number; `None` for any other value.
    pub fn as_number(self) -> (r: Option<u64>)
        ensures
            match self {
                Value::Number(bits) => r == Some(bits),
                _ => r is None,
            },
    {
        match self {
            Value::Number(bits) => Some(bits),
            _ => None,
        }
    }
}

impl ValueKind {
    /// A human-readable name of the tag, for diagnostics.
    pub fn describe(self) -> (r: &'static str)
        ensures
            r@ == match self {
                ValueKind::Boolean => "boolean"@,
                ValueKind::Number => "number"@,
                ValueKind::Nil => "nil"@,
            },
    {
        match self {
            ValueKind::Boolean => "boolean",
            ValueKind::Number => "number",
            ValueKind::Nil => "nil",
        }
    }
}

} // verus!
