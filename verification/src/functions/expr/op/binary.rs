//! The operators of expressions that take two arguments.

use vstd::prelude::*;

use crate::functions::Error;
use crate::functions::expr::Arg;
use crate::functions::operand::{Operand, operand_index, operand_wf};
use crate::functions::operator::binary::imp::zipped;
use crate::functions::operator::unary::{as_sequence_view, value_outcome};
use crate::functions::util::iterable_like::{
    IterableLike,
    as_producer,
    iterable_items,
    lemma_operand_iterable_wf,
    operand_iterable,
};
use crate::functions::util::nth_item;
use crate::functions::util::stream_adaptor::stepped_items;
use crate::functions::util::value_producer::{Chain, Skip, StepBy, Take, ValueProducer, Zip};
use crate::functions::util::value_seq::collected;
use crate::metadata::types::{MetaVal, ValView, vals_view};

verus! {

/// The operators of expressions that take two arguments.
#[derive(Clone, Copy, Debug, PartialEq, Eq, Structural)]
pub enum Op {
    Nth,
    All,
    Any,
    Find,
    Position,
    Filter,
    MapEach,
    StepBy,
    Chain,
    Zip,
    Skip,
    Take,
    SkipWhile,
    TakeWhile,
    Eq,
    Ne,
    Lt,
    Le,
    Gt,
    Ge,
}

/// Whether an operator takes a predicate as its second argument.
pub open spec fn takes_predicate(op: Op) -> bool {
    op == Op::All || op == Op::Any || op == Op::Find || op == Op::Position || op == Op::Filter || op
        == Op::SkipWhile || op == Op::TakeWhile
}

/// Whether an operator takes an index as its second argument.
pub open spec fn takes_index(op: Op) -> bool {
    op == Op::Nth || op == Op::StepBy || op == Op::Skip || op == Op::Take
}

/// What an operator that takes an iterable and an index gives.
pub open spec fn indexed_outcome(op: Op, il: IterableLike, n: usize, r: Result<Arg, Error>) -> bool {
    match op {
        Op::Nth => value_outcome(r) == Some(nth_item(iterable_items(il), n as int)),
        Op::StepBy => if n == 0 {
            r == Err::<Arg, Error>(Error::ZeroStepSize)
        } else {
            match il {
                IterableLike::Sequence(_) => value_outcome(r) == Some(
                    as_sequence_view(collected(stepped_items(n as int, n as int, iterable_items(il)))),
                ),
                IterableLike::Producer(p) => r == Ok::<Arg, Error>(
                    Operand::Producer(ValueProducer::StepBy(StepBy { vp: Box::new(p), n })),
                ),
            }
        },
        Op::Skip => match il {
            IterableLike::Sequence(s) => value_outcome(r) == Some(
                Ok::<ValView, Error>(
                    ValView::Sequence(
                        vals_view(
                            if n >= s@.len() {
                                Seq::<MetaVal>::empty()
                            } else {
                                s@.skip(n as int)
                            },
                        ),
                    ),
                ),
            ),
            IterableLike::Producer(p) => r == Ok::<Arg, Error>(
                Operand::Producer(ValueProducer::Skip(Skip { vp: Box::new(p), n })),
            ),
        },
        _ => match il {
            IterableLike::Sequence(s) => value_outcome(r) == Some(
                Ok::<ValView, Error>(
                    ValView::Sequence(
                        vals_view(
                            if n >= s@.len() {
                                s@
                            } else {
                                s@.take(n as int)
                            },
                        ),
                    ),
                ),
            ),
            IterableLike::Producer(p) => r == Ok::<Arg, Error>(
                Operand::Producer(ValueProducer::Take(Take { vp: Box::new(p), n })),
            ),
        },
    }
}

/// What `Chain` (`is_zip` false) or `Zip` (`is_zip` true) gives for two
/// iterables: a sequence value when both are sequences, else a producer.
pub open spec fn paired_outcome(is_zip: bool, a: IterableLike, b: IterableLike, r: Result<Arg, Error>) -> bool {
    match (a, b) {
        (IterableLike::Sequence(sa), IterableLike::Sequence(sb)) => value_outcome(r) == Some(
            Ok::<ValView, Error>(
                ValView::Sequence(
                    if is_zip {
                        zipped(vals_view(sa@), vals_view(sb@))
                    } else {
                        vals_view(sa@ + sb@)
                    },
                ),
            ),
        ),
        _ => r == Ok::<Arg, Error>(
            Operand::Producer(
                if is_zip {
                    ValueProducer::Zip(Zip(Box::new(as_producer(a)), Box::new(as_producer(b))))
                } else {
                    ValueProducer::Chain(Chain(Box::new(as_producer(a)), Box::new(as_producer(b))))
                },
            ),
        ),
    }
}

/// What an operator gives for two arguments. The first must be an
/// iterable (`NotIterable` else), but for the comparisons, which give the
/// nil value. An argument is an operand of `functions::operand`, and no
/// operand holds a predicate or a converter: turning the second argument
/// into one always fails, so the operators that take one give
/// `NotPredicate` or `NotConverter` whatever the arguments are. The others
/// take an index or a second iterable.
pub open spec fn expr_binary_outcome(op: Op, a: Arg, b: Arg, r: Result<Arg, Error>) -> bool {
    if op == Op::Eq || op == Op::Ne || op == Op::Lt || op == Op::Le || op == Op::Gt || op == Op::Ge {
        r == Ok::<Arg, Error>(Operand::Value(MetaVal::Nil))
    } else {
        match operand_iterable(a) {
            Err(e) => r == Err::<Arg, Error>(e),
            Ok(il) => if takes_predicate(op) {
                r == Err::<Arg, Error>(Error::NotPredicate)
            } else if op == Op::MapEach {
                r == Err::<Arg, Error>(Error::NotConverter)
            } else if takes_index(op) {
                match operand_index(b) {
                    Err(e) => r == Err::<Arg, Error>(e),
                    Ok(n) => indexed_outcome(op, il, n, r),
                }
            } else {
                match operand_iterable(b) {
                    Err(e) => r == Err::<Arg, Error>(e),
                    Ok(il_b) => paired_outcome(op == Op::Zip, il, il_b, r),
                }
            },
        }
    }
}

impl Op {
    /// Applies this operator to two arguments.
    pub fn process(&self, o_a: Arg, o_b: Arg) -> (r: Result<Arg, Error>)
        requires
            operand_wf(o_a),
        ensures
            expr_binary_outcome(*self, o_a, o_b, r),
            operand_wf(o_b) ==> (r matches Ok(x) ==> operand_wf(x)),
    {
        match self {
            Op::Eq | Op::Ne | Op::Lt | Op::Le | Op::Gt | Op::Ge => Ok(Operand::Value(MetaVal::Nil)),
            _ => {
                proof {
                    lemma_operand_iterable_wf(o_a);
                    if operand_wf(o_b) {
                        lemma_operand_iterable_wf(o_b);
                    }
                }
                let il = IterableLike::try_from_operand(o_a)?;
                match self {
                    Op::All | Op::Any | Op::Find | Op::Position | Op::Filter | Op::SkipWhile | Op::TakeWhile => Err(
                        Error::NotPredicate,
                    ),
                    Op::MapEach => Err(Error::NotConverter),
                    Op::Nth => Ok(Operand::Value(il.nth(o_b.try_into_usize()?)?)),
                    Op::StepBy => Ok(il.step_by(o_b.try_into_usize()?)?.into_operand()),
                    Op::Skip => Ok(il.skip(o_b.try_into_usize()?)?.into_operand()),
                    Op::Take => Ok(il.take(o_b.try_into_usize()?)?.into_operand()),
                    Op::Chain => Ok(il.chain(IterableLike::try_from_operand(o_b)?)?.into_operand()),
                    _ => Ok(il.zip(IterableLike::try_from_operand(o_b)?)?.into_operand()),
                }
            },
        }
    }
}

} // verus!
