//! The operands that the operators take and give.

use vstd::prelude::*;

use crate::functions::Error;
use crate::functions::util::value_producer::{ValueProducer, producer_wf};
use crate::metadata::types::{MetaVal, val_wf};

verus! {

/// A value that an operator takes or gives: a producer of values, a
/// value, or an index.
pub enum Operand {
    Producer(ValueProducer),
    Value(MetaVal),
    Usize(usize),
}

/// Whether the values an operand holds or reads are well formed.
pub open spec fn operand_wf(o: Operand) -> bool {
    match o {
        Operand::Producer(p) => producer_wf(p),
        Operand::Value(v) => val_wf(v@),
        Operand::Usize(_) => true,
    }
}

/// The index that an operand denotes: an index, or a non-negative integer
/// value.
pub open spec fn operand_index(o: Operand) -> Result<usize, Error> {
    match o {
        Operand::Usize(u) => Ok(u),
        Operand::Value(MetaVal::Int(i)) => if i < 0 {
            Err(Error::NotUsize)
        } else {
            Ok(i as usize)
        },
        _ => Err(Error::NotUsize),
    }
}

impl Operand {
    /// The producer held; `NotProducer` for any other operand.
    pub fn try_into_producer(self) -> (r: Result<ValueProducer, Error>)
        ensures
            self matches Operand::Producer(p) ==> r == Ok::<ValueProducer, Error>(p),
            !(self is Producer) ==> r == Err::<ValueProducer, Error>(Error::NotProducer),
    {
        match self {
            Operand::Producer(vp) => Ok(vp),
            _ => Err(Error::NotProducer),
        }
    }

    /// The index denoted: an index, or a non-negative integer value;
    /// `NotUsize` for any other operand.
    pub fn try_into_usize(self) -> (r: Result<usize, Error>)
        ensures
            r == operand_index(self),
    {
        match self {
            Operand::Usize(u) => Ok(u),
            Operand::Value(MetaVal::Int(i)) => {
                if i < 0 {
                    Err(Error::NotUsize)
                } else {
                    Ok(i as usize)
                }
            },
            _ => Err(Error::NotUsize),
        }
    }

    /// An index operand.
    pub fn from_usize(u: usize) -> (r: Self)
        ensures
            r == Operand::Usize(u),
    {
        Operand::Usize(u)
    }

    /// A value operand.
    pub fn from_value(mv: MetaVal) -> (r: Self)
        ensures
            r == Operand::Value(mv),
    {
        Operand::Value(mv)
    }
}

} // verus!
