//! Runtime values: the dynamic values the interpreter computes.

use vstd::prelude::*;
use crate::token::{Literal, ValueView};

verus! {

/// A runtime value; it mirrors `Literal`.  Numbers carry IEEE-754
/// binary64 bit patterns.
#[derive(Debug, PartialEq)]
pub enum RuntimeValue {
    Number(u64),
    String(String),
    Boolean(bool),
    Null,
    Undefined,
}

impl View for RuntimeValue {
    type V = ValueView;

    open spec fn view(&self) -> ValueView {
        match self {
            RuntimeValue::Number(b) => ValueView::Number(*b),
            RuntimeValue::String(s) => ValueView::String(s@),
            RuntimeValue::Boolean(b) => ValueView::Boolean(*b),
            RuntimeValue::Null => ValueView::Null,
            RuntimeValue::Undefined => ValueView::Undefined,
        }
    }
}

impl RuntimeValue {
    /// The runtime value a literal denotes.
    pub fn from_literal(value: &Literal) -> (r: RuntimeValue)
        ensures
            r@ == value@,
    {
        match value {
            Literal::Boolean(b) => RuntimeValue::Boolean(*b),
            Literal::Null => RuntimeValue::Null,
            Literal::Number(n) => RuntimeValue::Number(*n),
            Literal::String(s) => RuntimeValue::String(s.clone()),
            Literal::Undefined => RuntimeValue::Undefined,
        }
    }

    /// A copy of this value.
    pub fn duplicate(&self) -> (r: RuntimeValue)
        ensures
            r@ == self@,
    {
        match self {
            RuntimeValue::Number(b) => RuntimeValue::Number(*b),
            RuntimeValue::String(s) => RuntimeValue::String(s.clone()),
            RuntimeValue::Boolean(b) => RuntimeValue::Boolean(*b),
            RuntimeValue::Null => RuntimeValue::Null,
            RuntimeValue::Undefined => RuntimeValue::Undefined,
        }
    }
}

} // verus!
