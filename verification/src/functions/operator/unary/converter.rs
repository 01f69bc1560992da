//! Unary operators that turn a value into another value.

use vstd::prelude::*;

use crate::functions::Error;
use crate::functions::operator::into_sequence;
use crate::functions::operator::unary::iter_consumer::{
    IterConsumer,
    extreme,
    map_ok,
    total_from,
};
use crate::functions::operator::unary::predicate::{Predicate, predicate_result};
use crate::functions::util::number_like::{NumberLike, value_of};
use crate::functions::util::value_seq::{
    dedup_values,
    deduped,
    flatten_values,
    flattened,
    ok_stream,
    ok_values,
    result_view,
    reverse_values,
    sort_values,
    sorted_vals,
    unique_values,
    uniqued,
    all_wf,
    lemma_ops_keep_wf,
};
use crate::metadata::types::{MetaVal, ValView, val_wf, lemma_vals_view, lemma_vals_wf};

verus! {

/// The unary converters; every unary predicate is one too.
#[derive(Clone, Copy, Debug, PartialEq, Eq, Structural)]
pub enum Converter {
    Count,
    First,
    Last,
    MaxIn,
    MinIn,
    Rev,
    Sort,
    Sum,
    Prod,
    Flatten,
    Dedup,
    Unique,
    Predicate(Predicate),
}

/// What a converter makes of the elements of a sequence.
pub open spec fn converted_sequence(c: Converter, xs: Seq<ValView>) -> Result<ValView, Error> {
    match c {
        Converter::Count => Ok(ValView::Int((xs.len() as i64) as int)),
        Converter::First => if xs.len() == 0 {
            Err(Error::EmptySequence)
        } else {
            Ok(xs[0])
        },
        Converter::Last => if xs.len() == 0 {
            Err(Error::EmptySequence)
        } else {
            Ok(xs.last())
        },
        Converter::MaxIn => extreme(ok_stream(xs), true),
        Converter::MinIn => extreme(ok_stream(xs), false),
        Converter::Rev => Ok(ValView::Sequence(xs.reverse())),
        Converter::Sort => Ok(ValView::Sequence(sorted_vals(xs))),
        Converter::Sum => map_ok(
            total_from(NumberLike::Integer(0), ok_stream(xs), true),
            |n: NumberLike| value_of(n),
        ),
        Converter::Prod => map_ok(
            total_from(NumberLike::Integer(1), ok_stream(xs), false),
            |n: NumberLike| value_of(n),
        ),
        Converter::Flatten => Ok(ValView::Sequence(flattened(xs))),
        Converter::Dedup => Ok(ValView::Sequence(deduped(xs))),
        Converter::Unique => Ok(ValView::Sequence(uniqued(xs))),
        Converter::Predicate(p) => map_ok(
            predicate_result(p, ValView::Sequence(xs)),
            |b: bool| ValView::Bul(b),
        ),
    }
}

/// What a converter makes of a value: every converter but a predicate
/// needs a sequence.
pub open spec fn converted(c: Converter, v: ValView) -> Result<ValView, Error> {
    match c {
        Converter::Predicate(p) => map_ok(predicate_result(p, v), |b: bool| ValView::Bul(b)),
        _ => match v {
            ValView::Sequence(xs) => converted_sequence(c, xs),
            _ => Err(Error::NotSequence),
        },
    }
}

impl Converter {
    /// Converts a value. On a sequence: its length, its first or last
    /// element, its largest or smallest number, its elements reversed or
    /// sorted, the sum or product of its numbers, its elements with nested
    /// sequences spliced in, without repeats of the element before, or
    /// without repeats of any element before. A predicate gives its answer
    /// as a boolean value.
    pub fn process(&self, mv: MetaVal) -> (r: Result<MetaVal, Error>)
        requires
            val_wf(mv@),
        ensures
            result_view(r) == converted(*self, mv@),
            r matches Ok(v) ==> val_wf(v@),
    {
        if let Converter::Predicate(pred) = self {
            let b = pred.process(&mv)?;
            return Ok(MetaVal::Bul(b));
        }
        let ghost xs = match mv@ {
            ValView::Sequence(xs) => xs,
            _ => Seq::empty(),
        };
        let seq = into_sequence(mv)?;
        proof {
            lemma_vals_view(seq@);
            lemma_vals_wf(xs);
            assert forall|k: int| 0 <= k < seq@.len() implies val_wf(#[trigger] seq@[k]@) by {
                assert(xs[k] == seq@[k]@);
            }
            assert(all_wf(xs)) by {
                assert forall|i: int| 0 <= i < xs.len() implies val_wf(#[trigger] xs[i]) by {}
            }
            lemma_ops_keep_wf(xs);
            lemma_vals_wf(xs.reverse());
            lemma_vals_wf(sorted_vals(xs));
            lemma_vals_wf(flattened(xs));
            lemma_vals_wf(deduped(xs));
            lemma_vals_wf(uniqued(xs));
        }
        match self {
            Converter::Count => Ok(MetaVal::Int(seq.len() as i64)),
            Converter::First | Converter::Last => {
                if seq.len() == 0 {
                    return Err(Error::EmptySequence);
                }
                let mut seq = seq;
                let ghost before = seq@;
                let x = match self {
                    Converter::First => seq.remove(0),
                    _ => seq.pop().unwrap(),
                };
                proof {
                    assert(xs[0] == before[0]@);
                    assert(xs.last() == before.last()@);
                }
                Ok(x)
            },
            Converter::MaxIn => IterConsumer::MaxIn.process(ok_values(seq)),
            Converter::MinIn => IterConsumer::MinIn.process(ok_values(seq)),
            Converter::Sum => IterConsumer::Sum.process(ok_values(seq)),
            Converter::Prod => IterConsumer::Prod.process(ok_values(seq)),
            Converter::Rev => Ok(MetaVal::Sequence(reverse_values(seq))),
            Converter::Sort => Ok(MetaVal::Sequence(sort_values(seq))),
            Converter::Flatten => Ok(MetaVal::Sequence(flatten_values(seq))),
            Converter::Dedup => Ok(MetaVal::Sequence(dedup_values(seq))),
            _ => Ok(MetaVal::Sequence(unique_values(seq))),
        }
    }
}

} // verus!
