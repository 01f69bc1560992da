//! Operators that take one value, or one stream of values.

pub mod converter;
pub mod iter_adaptor;
pub mod iter_consumer;
pub mod predicate;

pub use self::converter::Converter;
pub use self::iter_adaptor::IterAdaptor;
pub use self::iter_consumer::IterConsumer;
pub use self::predicate::Predicate;

use vstd::prelude::*;

use crate::decimal::Decimal;
use crate::functions::Error;
use crate::functions::operand::{Operand, operand_wf};
use crate::functions::operator::unary::iter_consumer::{map_ok, total_from};
use crate::functions::util::iterable_like::{
    IterableLike,
    all_equal_outcome,
    extreme_outcome,
    first_outcome,
    collected_outcome,
    reversed_outcome,
    sorted_outcome,
    iterable_items,
    lemma_operand_iterable_wf,
    last_outcome,
    operand_iterable,
};
use crate::functions::util::number_like::{NumberLike, number_of, value_of};
use crate::functions::util::value_producer::{Dedup, Flatten, Unique, ValueProducer};
use crate::functions::util::value_seq::{collected, deduped, flattened, lemma_sequence_wf, uniqued};
use crate::metadata::types::{MetaVal, ValView, vals_view};

verus! {

/// The operators that take one operand.
#[derive(Clone, Copy, Debug, PartialEq, Eq, Structural)]
pub enum Op {
    Collect,
    Count,
    First,
    Last,
    MinIn,
    MaxIn,
    Rev,
    Sort,
    Sum,
    Prod,
    AllEqual,
    Flatten,
    Dedup,
    Unique,
    Neg,
    Abs,
    Not,
}

/// The view of a result that holds a value operand; `None` for a result
/// that holds another operand.
pub open spec fn value_outcome(r: Result<Operand, Error>) -> Option<Result<ValView, Error>> {
    match r {
        Ok(Operand::Value(mv)) => Some(Ok(mv@)),
        Ok(_) => None,
        Err(e) => Some(Err(e)),
    }
}

/// A sequence result as the view of a sequence value.
pub open spec fn as_sequence_view(r: Result<Seq<ValView>, Error>) -> Result<ValView, Error> {
    map_ok(r, |vs: Seq<ValView>| ValView::Sequence(vs))
}

/// A number result as the view of a value.
pub open spec fn as_number_view(r: Result<NumberLike, Error>) -> Result<ValView, Error> {
    map_ok(r, |n: NumberLike| value_of(n))
}

/// The negation of a number; a decimal keeps its scale.
pub open spec fn negated_number(n: NumberLike) -> NumberLike {
    match n {
        NumberLike::Integer(i) => NumberLike::Integer((-i) as i64),
        NumberLike::Decimal(d) => NumberLike::Decimal(Decimal { mantissa: (-d.mantissa) as i128, scale: d.scale }),
    }
}

/// The absolute value of a number; a decimal keeps its scale.
pub open spec fn absolute_number(n: NumberLike) -> NumberLike {
    match n {
        NumberLike::Integer(i) => NumberLike::Integer(if i < 0 { (-i) as i64 } else { i }),
        NumberLike::Decimal(d) => NumberLike::Decimal(
            Decimal { mantissa: if d.mantissa < 0 { (-d.mantissa) as i128 } else { d.mantissa }, scale: d.scale },
        ),
    }
}

/// Negating a number twice gives it back, but for the integer whose
/// negation is out of range.
pub proof fn lemma_negation_involutive(n: NumberLike)
    requires
        n != NumberLike::Integer(i64::MIN),
        n matches NumberLike::Decimal(d) ==> d.mantissa != i128::MIN,
    ensures
        negated_number(negated_number(n)) == n,
{
}

/// Taking the absolute value twice gives the same as taking it once, but
/// for the integer whose absolute value is out of range.
pub proof fn lemma_absolute_idempotent(n: NumberLike)
    requires
        n != NumberLike::Integer(i64::MIN),
        n matches NumberLike::Decimal(d) ==> d.mantissa != i128::MIN,
    ensures
        absolute_number(absolute_number(n)) == absolute_number(n),
{
}

/// Whether an operand holds the integer that has no negation in range.
pub open spec fn holds_min_integer(o: Operand) -> bool {
    o == Operand::Value(MetaVal::Int(i64::MIN))
}

/// What an operator that reads an iterable gives for it.
pub open spec fn iterated_outcome(op: Op, il: IterableLike, r: Result<Operand, Error>) -> bool {
    match op {
        Op::Collect => value_outcome(r) == Some(as_sequence_view(collected_outcome(il))),
        Op::Count => r == map_ok(
            collected(iterable_items(il)),
            |vs: Seq<ValView>| Operand::Usize(vs.len() as usize),
        ),
        Op::First => value_outcome(r) == Some(first_outcome(il)),
        Op::Last => value_outcome(r) == Some(last_outcome(il)),
        Op::MinIn => value_outcome(r) == Some(as_number_view(extreme_outcome(il, false))),
        Op::MaxIn => value_outcome(r) == Some(as_number_view(extreme_outcome(il, true))),
        Op::Rev => value_outcome(r) == Some(as_sequence_view(reversed_outcome(il))),
        Op::Sort => value_outcome(r) == Some(as_sequence_view(sorted_outcome(il))),
        Op::Sum => value_outcome(r) == Some(
            as_number_view(total_from(NumberLike::Integer(0), iterable_items(il), true)),
        ),
        Op::Prod => value_outcome(r) == Some(
            as_number_view(total_from(NumberLike::Integer(1), iterable_items(il), false)),
        ),
        Op::AllEqual => value_outcome(r) == Some(map_ok(all_equal_outcome(il), |b: bool| ValView::Bul(b))),
        Op::Flatten => match il {
            IterableLike::Sequence(s) => value_outcome(r) == Some(
                Ok::<ValView, Error>(ValView::Sequence(flattened(vals_view(s@)))),
            ),
            IterableLike::Producer(p) => r == Ok::<Operand, Error>(
                Operand::Producer(ValueProducer::Flatten(Flatten(Box::new(p)))),
            ),
        },
        Op::Dedup => match il {
            IterableLike::Sequence(s) => value_outcome(r) == Some(
                Ok::<ValView, Error>(ValView::Sequence(deduped(vals_view(s@)))),
            ),
            IterableLike::Producer(p) => r == Ok::<Operand, Error>(
                Operand::Producer(ValueProducer::Dedup(Dedup(Box::new(p)))),
            ),
        },
        Op::Unique => match il {
            IterableLike::Sequence(s) => value_outcome(r) == Some(
                Ok::<ValView, Error>(ValView::Sequence(uniqued(vals_view(s@)))),
            ),
            IterableLike::Producer(p) => r == Ok::<Operand, Error>(
                Operand::Producer(ValueProducer::Unique(Unique(Box::new(p)))),
            ),
        },
        _ => false,
    }
}

/// What an operator gives for an operand: the number operators need a
/// number value (`NotNumeric` else), `Not` a boolean value
/// (`InvalidOperand` else), the others an iterable (`NotIterable` else).
pub open spec fn unary_outcome(op: Op, o: Operand, r: Result<Operand, Error>) -> bool {
    match op {
        Op::Neg | Op::Abs => match o {
            Operand::Value(mv) => match number_of(mv@) {
                Some(n) => value_outcome(r) == Some(
                    Ok::<ValView, Error>(
                        value_of(
                            if op == Op::Neg {
                                negated_number(n)
                            } else {
                                absolute_number(n)
                            },
                        ),
                    ),
                ),
                None => r == Err::<Operand, Error>(Error::NotNumeric),
            },
            _ => r == Err::<Operand, Error>(Error::NotNumeric),
        },
        Op::Not => match o {
            Operand::Value(MetaVal::Bul(b)) => value_outcome(r) == Some(Ok::<ValView, Error>(ValView::Bul(!b))),
            _ => r == Err::<Operand, Error>(Error::InvalidOperand),
        },
        _ => match operand_iterable(o) {
            Err(e) => r == Err::<Operand, Error>(e),
            Ok(il) => iterated_outcome(op, il, r),
        },
    }
}

impl Op {
    /// Applies this operator to an operand.
    pub fn process(&self, o: Operand) -> (r: Result<Operand, Error>)
        requires
            operand_wf(o),
            (*self == Op::Neg || *self == Op::Abs) ==> !holds_min_integer(o),
        ensures
            unary_outcome(*self, o, r),
            r matches Ok(x) ==> operand_wf(x),
    {
        match self {
            Op::Neg | Op::Abs => {
                let number = match o {
                    Operand::Value(mv) => NumberLike::try_from_val(mv)?,
                    _ => return Err(Error::NotNumeric),
                };
                let out = if *self == Op::Neg { Self::neg(number) } else { Self::abs(number) };
                Ok(Operand::Value(out.to_val()))
            },
            Op::Not => match o {
                Operand::Value(MetaVal::Bul(b)) => Ok(Operand::Value(MetaVal::Bul(Self::not(b)))),
                _ => Err(Error::InvalidOperand),
            },
            _ => {
                proof {
                    lemma_operand_iterable_wf(o);
                }
                let il = IterableLike::try_from_operand(o)?;
                match self {
                    Op::Collect | Op::Rev | Op::Sort => {
                        let vs = if *self == Op::Collect {
                            il.collect()?
                        } else if *self == Op::Rev {
                            il.rev()?
                        } else {
                            il.sort()?
                        };
                        proof {
                            lemma_sequence_wf(vs@);
                        }
                        Ok(Operand::Value(MetaVal::Sequence(vs)))
                    },
                    Op::Count => Ok(Operand::Usize(il.count()?)),
                    Op::First => Ok(Operand::Value(il.first()?)),
                    Op::Last => Ok(Operand::Value(il.last()?)),
                    Op::MinIn => Ok(Operand::Value(il.min_in()?.to_val())),
                    Op::MaxIn => Ok(Operand::Value(il.max_in()?.to_val())),
                    Op::Sum => Ok(Operand::Value(il.sum()?.to_val())),
                    Op::Prod => Ok(Operand::Value(il.prod()?.to_val())),
                    Op::AllEqual => Ok(Operand::Value(MetaVal::Bul(il.all_equal()?))),
                    Op::Flatten => Ok(il.flatten()?.into_operand()),
                    Op::Dedup => Ok(il.dedup()?.into_operand()),
                    _ => Ok(il.unique()?.into_operand()),
                }
            },
        }
    }

    /// The negation of a number; zero stays zero.
    fn neg(number: NumberLike) -> (r: NumberLike)
        requires
            number.wf(),
            number != NumberLike::Integer(i64::MIN),
        ensures
            r == negated_number(number),
            r.wf(),
    {
        match number {
            NumberLike::Integer(i) => NumberLike::Integer(-i),
            NumberLike::Decimal(d) => NumberLike::Decimal(if d.mantissa == 0 { d } else { d.negated() }),
        }
    }

    /// The absolute value of a number.
    fn abs(number: NumberLike) -> (r: NumberLike)
        requires
            number.wf(),
            number != NumberLike::Integer(i64::MIN),
        ensures
            r == absolute_number(number),
            r.wf(),
    {
        match number {
            NumberLike::Integer(i) => NumberLike::Integer(if i < 0 { -i } else { i }),
            NumberLike::Decimal(d) => NumberLike::Decimal(d.abs()),
        }
    }

    /// The negation of a boolean.
    fn not(b: bool) -> (r: bool)
        ensures
            r == !b,
    {
        !b
    }
}

} // verus!
