//! Values of the language, truthiness and equality.
use vstd::prelude::*;

use super::number::{num_eq, number_eq};

verus! {

/// A value of the language. A number is held as the bit pattern of an IEEE-754 binary64.
/// `==` on values compares those bit patterns; the language's own equality, under which
/// NaN is unequal to itself and the two zeros are equal, is `Value::equals`.
#[derive(Debug, Clone, Copy, PartialEq)]
pub enum Value {
    Number(u64),
    Bool(bool),
    Nil,
}

/// Numbers are truthy, booleans are themselves, `nil` is falsy.
pub open spec fn truthy(v: Value) -> bool {
    match v {
        Value::Number(_) => true,
        Value::Bool(b) => b,
        Value::Nil => false,
    }
}

/// Equality of the language: numbers compare as IEEE numbers, values of different kinds
/// are unequal.
pub open spec fn values_equal(a: Value, b: Value) -> bool {
    match (a, b) {
        (Value::Number(x), Value::Number(y)) => num_eq(x, y),
        (Value::Bool(x), Value::Bool(y)) => x == y,
        (Value::Nil, Value::Nil) => true,
        _ => false,
    }
}

impl Default for Value {
    fn default() -> (r: Self)
        ensures
            r == Value::Nil,
    {
        Value::Nil
    }
}

impl Value {
    pub fn is_truthy(&self) -> (r: bool)
        ensures
            r == truthy(*self),
    {
        match *self {
            Value::Number(_) => true,
            Value::Bool(b) => b,
            Value::Nil => false,
        }
    }

    /// Equality of the language (`==`).
    pub fn equals(&self, other: &Value) -> (r: bool)
        ensures
            r == values_equal(*self, *other),
    {
        match (*self, *other) {
            (Value::Number(x), Value::Number(y)) => number_eq(x, y),
            (Value::Bool(x), Value::Bool(y)) => x == y,
            (Value::Nil, Value::Nil) => true,
            _ => false,
        }
    }
}

} // verus!
