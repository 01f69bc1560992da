//! Functions over metadata values: operators, their operands, and
//! producers and streams of values, built from operators.

pub mod expr;
pub mod expression;
pub mod op;
pub mod operand;
pub mod operator;
pub mod util;

use vstd::prelude::*;

verus! {

/// The ways in which applying a function to metadata values can fail.
#[derive(Clone, Copy, Debug, PartialEq, Eq, Structural)]
pub enum Error {
    EmptyStack,
    NotIterable,
    NotSequence,
    NotNumeric,
    NotPredicate,
    NotConverter,
    NotIndex,
    NotProducer,
    NotUsize,
    InvalidOperand,
    EmptySequence,
    EmptyStream,
    EmptyProducer,
    EmptyIterable,
    ZeroStepSize,
    OutOfBounds,
    ItemNotFound,
    Overflow,
}

impl Error {
    /// The message that describes the error.
    pub fn message(&self) -> (r: &'static str)
        ensures
            *self == Error::EmptyStack ==> r@ == "empty operand stack"@,
            *self == Error::NotIterable ==> r@ == "not an iterable"@,
            *self == Error::NotSequence ==> r@ == "not a sequence"@,
            *self == Error::NotNumeric ==> r@ == "not a number"@,
            *self == Error::NotPredicate ==> r@ == "not a predicate"@,
            *self == Error::NotConverter ==> r@ == "not a converter"@,
            *self == Error::NotIndex ==> r@ == "not an index"@,
            *self == Error::NotProducer ==> r@ == "not a producer"@,
            *self == Error::NotUsize ==> r@ == "not a non-negative index"@,
            *self == Error::InvalidOperand ==> r@ == "invalid operand"@,
            *self == Error::EmptySequence ==> r@ == "empty sequence"@,
            *self == Error::EmptyStream ==> r@ == "empty stream"@,
            *self == Error::EmptyProducer ==> r@ == "empty producer"@,
            *self == Error::EmptyIterable ==> r@ == "empty iterable"@,
            *self == Error::ZeroStepSize ==> r@ == "zero step size"@,
            *self == Error::OutOfBounds ==> r@ == "index out of bounds"@,
            *self == Error::ItemNotFound ==> r@ == "item not found"@,
            *self == Error::Overflow ==> r@ == "arithmetic overflow"@,
    {
        match self {
            Error::EmptyStack => "empty operand stack",
            Error::NotIterable => "not an iterable",
            Error::NotSequence => "not a sequence",
            Error::NotNumeric => "not a number",
            Error::NotPredicate => "not a predicate",
            Error::NotConverter => "not a converter",
            Error::NotIndex => "not an index",
            Error::NotProducer => "not a producer",
            Error::NotUsize => "not a non-negative index",
            Error::InvalidOperand => "invalid operand",
            Error::EmptySequence => "empty sequence",
            Error::EmptyStream => "empty stream",
            Error::EmptyProducer => "empty producer",
            Error::EmptyIterable => "empty iterable",
            Error::ZeroStepSize => "zero step size",
            Error::OutOfBounds => "index out of bounds",
            Error::ItemNotFound => "item not found",
            Error::Overflow => "arithmetic overflow",
        }
    }
}

} // verus!