//! Unary operators named for the operand stack: predicates, converters,
//! stream consumers and stream adaptors, and the operator that wraps them.

use vstd::prelude::*;

use crate::functions::Error;
use crate::functions::op::operand::Operand;
use crate::functions::operator::unary::converter::{Converter, converted};
use crate::functions::operator::unary::iter_consumer::{IterConsumer, consumed};
use crate::functions::operator::unary::predicate::{Predicate, predicate_result};
use crate::functions::util::value_seq::{result_view, stream_view, stream_wf};
use crate::metadata::types::{MetaVal, val_wf};

verus! {

/// The unary predicates.
#[derive(Clone, Copy, Debug, PartialEq, Eq, Structural)]
pub enum UnaryPredicate {
    AllEqual,
}

/// The predicate of the operator module with the same meaning.
pub open spec fn as_predicate(p: UnaryPredicate) -> Predicate {
    match p {
        UnaryPredicate::AllEqual => Predicate::AllEqual,
    }
}

impl UnaryPredicate {
    /// Answers the predicate for a value: for `AllEqual`, whether every
    /// element of a sequence equals the first; `NotSequence` for a value that
    /// is not a sequence.
    pub fn process(&self, mv: &MetaVal) -> (r: Result<bool, Error>)
        ensures
            r == predicate_result(as_predicate(*self), mv@),
    {
        match self {
            UnaryPredicate::AllEqual => Predicate::AllEqual.process(mv),
        }
    }
}

/// The unary converters; every unary predicate is one too.
#[derive(Clone, Copy, Debug, PartialEq, Eq, Structural)]
pub enum UnaryConverter {
    Count,
    First,
    Last,
    MaxIn,
    MinIn,
    Rev,
    Sort,
    Sum,
    Prod,
    Flatten,
    Dedup,
    Unique,
    Predicate(UnaryPredicate),
}

/// The converter of the operator module with the same meaning.
pub open spec fn as_converter(c: UnaryConverter) -> Converter {
    match c {
        UnaryConverter::Count => Converter::Count,
        UnaryConverter::First => Converter::First,
        UnaryConverter::Last => Converter::Last,
        UnaryConverter::MaxIn => Converter::MaxIn,
        UnaryConverter::MinIn => Converter::MinIn,
        UnaryConverter::Rev => Converter::Rev,
        UnaryConverter::Sort => Converter::Sort,
        UnaryConverter::Sum => Converter::Sum,
        UnaryConverter::Prod => Converter::Prod,
        UnaryConverter::Flatten => Converter::Flatten,
        UnaryConverter::Dedup => Converter::Dedup,
        UnaryConverter::Unique => Converter::Unique,
        UnaryConverter::Predicate(p) => Converter::Predicate(as_predicate(p)),
    }
}

impl UnaryConverter {
    /// The converter of the operator module with the same meaning.
    pub fn to_converter(&self) -> (r: Converter)
        ensures
            r == as_converter(*self),
    {
        match self {
            UnaryConverter::Count => Converter::Count,
            UnaryConverter::First => Converter::First,
            UnaryConverter::Last => Converter::Last,
            UnaryConverter::MaxIn => Converter::MaxIn,
            UnaryConverter::MinIn => Converter::MinIn,
            UnaryConverter::Rev => Converter::Rev,
            UnaryConverter::Sort => Converter::Sort,
            UnaryConverter::Sum => Converter::Sum,
            UnaryConverter::Prod => Converter::Prod,
            UnaryConverter::Flatten => Converter::Flatten,
            UnaryConverter::Dedup => Converter::Dedup,
            UnaryConverter::Unique => Converter::Unique,
            UnaryConverter::Predicate(UnaryPredicate::AllEqual) => Converter::Predicate(
                Predicate::AllEqual,
            ),
        }
    }

    /// Converts a value, as the converter with the same meaning does.
    pub fn process(&self, mv: MetaVal) -> (r: Result<MetaVal, Error>)
        requires
            val_wf(mv@),
        ensures
            result_view(r) == converted(as_converter(*self), mv@),
            r matches Ok(v) ==> val_wf(v@),
    {
        self.to_converter().process(mv)
    }

    /// The converter made of a predicate.
    pub fn from_predicate(p: UnaryPredicate) -> (r: Self)
        ensures
            r == UnaryConverter::Predicate(p),
    {
        UnaryConverter::Predicate(p)
    }

    /// The predicate inside a converter; `NotPredicate` for any other
    /// converter.
    pub fn try_into_predicate(self) -> (r: Result<UnaryPredicate, Error>)
        ensures
            match self {
                UnaryConverter::Predicate(p) => r == Ok::<UnaryPredicate, Error>(p),
                _ => r == Err::<UnaryPredicate, Error>(Error::NotPredicate),
            },
    {
        match self {
            UnaryConverter::Predicate(p) => Ok(p),
            _ => Err(Error::NotPredicate),
        }
    }
}

/// The unary stream consumers.
#[derive(Clone, Copy, Debug, PartialEq, Eq, Structural)]
pub enum UnaryIterConsumer {
    Collect,
    Rev,
    Sort,
    Count,
    First,
    Last,
    MaxIn,
    MinIn,
    Sum,
    Prod,
    AllEqual,
}

/// The consumer of the operator module with the same meaning.
pub open spec fn as_consumer(c: UnaryIterConsumer) -> IterConsumer {
    match c {
        UnaryIterConsumer::Collect => IterConsumer::Collect,
        UnaryIterConsumer::Rev => IterConsumer::Rev,
        UnaryIterConsumer::Sort => IterConsumer::Sort,
        UnaryIterConsumer::Count => IterConsumer::Count,
        UnaryIterConsumer::First => IterConsumer::First,
        UnaryIterConsumer::Last => IterConsumer::Last,
        UnaryIterConsumer::MaxIn => IterConsumer::MaxIn,
        UnaryIterConsumer::MinIn => IterConsumer::MinIn,
        UnaryIterConsumer::Sum => IterConsumer::Sum,
        UnaryIterConsumer::Prod => IterConsumer::Prod,
        UnaryIterConsumer::AllEqual => IterConsumer::AllEqual,
    }
}

impl UnaryIterConsumer {
    /// Consumes a stream into one value, as the consumer with the same
    /// meaning does.
    pub fn process(&self, it: Vec<Result<MetaVal, Error>>) -> (r: Result<MetaVal, Error>)
        requires
            stream_wf(it@),
        ensures
            result_view(r) == consumed(as_consumer(*self), stream_view(it@)),
    {
        let c = match self {
            UnaryIterConsumer::Collect => IterConsumer::Collect,
            UnaryIterConsumer::Rev => IterConsumer::Rev,
            UnaryIterConsumer::Sort => IterConsumer::Sort,
            UnaryIterConsumer::Count => IterConsumer::Count,
            UnaryIterConsumer::First => IterConsumer::First,
            UnaryIterConsumer::Last => IterConsumer::Last,
            UnaryIterConsumer::MaxIn => IterConsumer::MaxIn,
            UnaryIterConsumer::MinIn => IterConsumer::MinIn,
            UnaryIterConsumer::Sum => IterConsumer::Sum,
            UnaryIterConsumer::Prod => IterConsumer::Prod,
            UnaryIterConsumer::AllEqual => IterConsumer::AllEqual,
        };
        c.process(it)
    }
}

/// The unary stream adaptors.
#[derive(Clone, Copy, Debug, PartialEq, Eq, Structural)]
pub enum UnaryIterAdaptor {
    Flatten,
    Dedup,
    Unique,
}

/// A unary operator: a converter or a stream consumer.
#[derive(Clone, Copy, Debug, PartialEq, Eq, Structural)]
pub enum UnaryOp {
    Converter(UnaryConverter),
    IterConsumer(UnaryIterConsumer),
}

impl UnaryOp {
    /// Applying a unary operator to an operand on its own is not supported:
    /// every operand is refused as invalid.
    pub fn process(&self, operand: Operand) -> (r: Result<Operand, Error>)
        ensures
            r == Err::<Operand, Error>(Error::InvalidOperand),
    {
        Err(Error::InvalidOperand)
    }

    /// The operator made of a converter.
    pub fn from_converter(c: UnaryConverter) -> (r: Self)
        ensures
            r == UnaryOp::Converter(c),
    {
        UnaryOp::Converter(c)
    }

    /// The converter inside an operator; `NotConverter` for a consumer.
    pub fn try_into_converter(self) -> (r: Result<UnaryConverter, Error>)
        ensures
            match self {
                UnaryOp::Converter(c) => r == Ok::<UnaryConverter, Error>(c),
                _ => r == Err::<UnaryConverter, Error>(Error::NotConverter),
            },
    {
        match self {
            UnaryOp::Converter(c) => Ok(c),
            _ => Err(Error::NotConverter),
        }
    }
}

} // verus!
