//! Operators that take two arguments.

pub mod converter;
pub mod imp;
pub mod iter_adaptor;
pub mod iter_consumer;
pub mod predicate;

pub use self::converter::Converter;
pub use self::iter_adaptor::IterAdaptor;
pub use self::iter_consumer::IterConsumer;
pub use self::predicate::Predicate;

use vstd::prelude::*;

use crate::functions::Error;
use crate::functions::operand::{Operand, operand_index, operand_wf};
use crate::functions::operator::unary::value_outcome;
use crate::functions::util::iterable_like::{
    IterableLike,
    iterable_items,
    lemma_nth_item_ok,
    lemma_operand_iterable_wf,
    operand_iterable,
};
use crate::functions::util::nth_item;
use crate::metadata::types::{MetaVal, lemma_vals_view, vals_view};

use self::imp::Impl;

verus! {

/// The operators that take two operands.
#[derive(Clone, Copy, Debug, PartialEq, Eq, Structural)]
pub enum Op {
    Nth,
    StepBy,
    Chain,
    Zip,
    MapEach,
    Filter,
    SkipWhile,
    TakeWhile,
    Skip,
    Take,
    All,
    Any,
    Find,
    Position,
    Interleave,
    Intersperse,
    Chunks,
    Windows,
    Eq,
    Ne,
    Lt,
    Le,
    Gt,
    Ge,
}

/// What an operator gives for two operands: `Nth` takes an iterable and
/// an index and gives the value at that index; every other operator gives
/// the nil value.
pub open spec fn binary_outcome(op: Op, a: Operand, b: Operand, r: Result<Operand, Error>) -> bool {
    match op {
        Op::Nth => match operand_iterable(a) {
            Err(e) => r == Err::<Operand, Error>(e),
            Ok(il) => match operand_index(b) {
                Err(e) => r == Err::<Operand, Error>(e),
                Ok(n) => value_outcome(r) == Some(nth_item(iterable_items(il), n as int)),
            },
        },
        _ => r == Ok::<Operand, Error>(Operand::Value(MetaVal::Nil)),
    }
}

impl Op {
    /// Applies this operator to two operands.
    pub fn process(&self, o_a: Operand, o_b: Operand) -> (r: Result<Operand, Error>)
        requires
            operand_wf(o_a),
        ensures
            binary_outcome(*self, o_a, o_b, r),
            r matches Ok(x) ==> operand_wf(x),
    {
        match self {
            Op::Nth => {
                proof {
                    lemma_operand_iterable_wf(o_a);
                }
                let il = IterableLike::try_from_operand(o_a)?;
                let mv = match il {
                    IterableLike::Sequence(s) => {
                        let n = o_b.try_into_usize()?;
                        proof {
                            lemma_vals_view(s@);
                            lemma_nth_item_ok(vals_view(s@), n as int);
                        }
                        Impl::nth_s(s, n)?
                    },
                    IterableLike::Producer(p) => Impl::nth(p, o_b.try_into_usize()?)?,
                };
                Ok(Operand::Value(mv))
            },
            _ => Ok(Operand::Value(MetaVal::Nil)),
        }
    }
}

} // verus!
