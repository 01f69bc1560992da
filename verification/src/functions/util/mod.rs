//! Numbers, sequences and streams of values used by the functions, and the
//! functions that consume streams.

pub mod iterable_like;
pub mod number_like;
pub mod stream_adaptor;
pub mod value_producer;
pub mod value_seq;

pub use self::number_like::NumberLike;
pub use self::stream_adaptor::StreamAdaptor;

use vstd::prelude::*;

use crate::functions::Error;
use crate::functions::op::operator::{UnaryPredicate, as_predicate};
use crate::functions::operator::unary::iter_consumer::{
    all_equal_from,
    all_equal_rest,
    extreme_from,
    extreme_of_rest,
    map_ok,
    total_from,
    total_of_rest,
};
use crate::functions::operator::unary::predicate::predicate_result;
use crate::functions::util::number_like::number_of;
use crate::functions::util::stream_adaptor::{
    DedupAdaptor,
    FlattenAdaptor,
    UniqueAdaptor,
    adaptor_wf,
    items,
};
use crate::functions::util::value_seq::{
    collect_stream,
    collected,
    lemma_stream_take_first,
    reverse_values,
    sort_values,
    sorted_vals,
    stream_view,
    stream_wf,
};
use crate::metadata::types::{MetaVal, ValView, val_wf, vals_view, lemma_vals_view};

verus! {

/// Whether a vector result holds values with the expected views, or the
/// expected error.
pub open spec fn vals_result_is(r: Result<Vec<MetaVal>, Error>, expected: Result<Seq<ValView>, Error>) -> bool {
    match (r, expected) {
        (Ok(v), Ok(s)) => vals_view(v@) == s,
        (Err(e), Err(f)) => e == f,
        _ => false,
    }
}

/// The extreme number of a stream: `EmptySequence` for an empty one; the
/// first error, or `NotNumeric` at the first value that is not a number.
pub open spec fn extreme_number(s: Seq<Result<ValView, Error>>, is_max: bool) -> Result<NumberLike, Error> {
    if s.len() == 0 {
        Err(Error::EmptySequence)
    } else {
        match s[0] {
            Err(e) => Err(e),
            Ok(v) => match number_of(v) {
                None => Err(Error::NotNumeric),
                Some(n) => extreme_from(n, s.drop_first(), is_max),
            },
        }
    }
}

/// The value at position `n` of a stream; an error before it stops the
/// scan, and a stream that ends before it gives `OutOfBounds`.
pub open spec fn nth_item(s: Seq<Result<ValView, Error>>, n: int) -> Result<ValView, Error>
    decreases s.len(),
{
    if s.len() == 0 {
        Err(Error::OutOfBounds)
    } else {
        match s[0] {
            Err(e) => Err(e),
            Ok(v) => if n == 0 {
                Ok(v)
            } else {
                nth_item(s.drop_first(), n - 1)
            },
        }
    }
}

/// Whether a predicate holds of every value (`target` false) or of some
/// value (`target` true) of a stream: the first error, of the stream or of
/// the predicate, stops the scan, as does the first answer that is
/// `target`.
pub open spec fn all_any_items(s: Seq<Result<ValView, Error>>, p: UnaryPredicate, target: bool) -> Result<
    bool,
    Error,
>
    decreases s.len(),
{
    if s.len() == 0 {
        Ok(!target)
    } else {
        match s[0] {
            Err(e) => Err(e),
            Ok(v) => match predicate_result(as_predicate(p), v) {
                Err(e) => Err(e),
                Ok(b) => if b == target {
                    Ok(target)
                } else {
                    all_any_items(s.drop_first(), p, target)
                },
            },
        }
    }
}

/// Namespace for the functions that consume streams.
pub struct Impl;

impl Impl {
    /// The values of a stream, in order; the first error stops it.
    pub fn collect(sa: StreamAdaptor) -> (r: Result<Vec<MetaVal>, Error>)
        requires
            adaptor_wf(sa),
        ensures
            vals_result_is(r, collected(items(sa))),
    {
        collect_stream(sa.into_items())
    }

    /// The number of values of a stream; the first error stops it.
    pub fn count(sa: StreamAdaptor) -> (r: Result<usize, Error>)
        requires
            adaptor_wf(sa),
        ensures
            r == map_ok(collected(items(sa)), |vs: Seq<ValView>| vs.len() as usize),
    {
        let seq = collect_stream(sa.into_items())?;
        proof {
            lemma_vals_view(seq@);
        }
        Ok(seq.len())
    }

    /// The first item of a stream, value or error; `EmptyStream` for an empty
    /// one.
    pub fn first(sa: StreamAdaptor) -> (r: Result<MetaVal, Error>)
        requires
            adaptor_wf(sa),
        ensures
            items(sa).len() == 0 ==> r == Err::<MetaVal, Error>(Error::EmptyStream),
            items(sa).len() > 0 ==> crate::functions::util::value_seq::result_view(r) == items(sa)[0],
    {
        let mut it = sa.into_items();
        if it.len() == 0 {
            Err(Error::EmptyStream)
        } else {
            let ghost before = it@;
            let x = it.remove(0);
            proof {
                assert(stream_view(before)[0] == crate::functions::util::value_seq::result_view(x));
            }
            x
        }
    }

    /// The last value of a stream; the first error stops it, and an empty
    /// stream gives `EmptyStream`.
    pub fn last(sa: StreamAdaptor) -> (r: Result<MetaVal, Error>)
        requires
            adaptor_wf(sa),
        ensures
            crate::functions::util::value_seq::result_view(r) == match collected(items(sa)) {
                Err(e) => Err(e),
                Ok(vs) => if vs.len() == 0 {
                    Err(Error::EmptyStream)
                } else {
                    Ok(vs.last())
                },
            },
    {
        let mut seq = collect_stream(sa.into_items())?;
        let ghost before = seq@;
        proof {
            lemma_vals_view(seq@);
        }
        match seq.pop() {
            None => Err(Error::EmptyStream),
            Some(v) => {
                proof {
                    assert(before.last() == v);
                }
                Ok(v)
            },
        }
    }

    fn min_max(sa: StreamAdaptor, is_max: bool) -> (r: Result<NumberLike, Error>)
        requires
            adaptor_wf(sa),
        ensures
            r == extreme_number(items(sa), is_max),
            r matches Ok(n) ==> n.wf(),
    {
        let mut rest = sa.into_items();
        let ghost s0 = stream_view(rest@);
        if rest.len() == 0 {
            return Err(Error::EmptySequence);
        }
        let ghost before = rest@;
        let x = rest.remove(0);
        proof {
            assert(s0.skip(0) =~= s0);
            lemma_stream_take_first(before, rest@, s0, 0);
            assert(s0.skip(1) =~= s0.drop_first());
        }
        let v = x?;
        let first = NumberLike::try_from_val(v)?;
        extreme_of_rest(first, rest, is_max)
    }

    /// The smallest number of a stream, the first of equal ones;
    /// `EmptySequence` for an empty stream.
    pub fn min(sa: StreamAdaptor) -> (r: Result<NumberLike, Error>)
        requires
            adaptor_wf(sa),
        ensures
            r == extreme_number(items(sa), false),
            r matches Ok(n) ==> n.wf(),
    {
        Self::min_max(sa, false)
    }

    /// The largest number of a stream, the last of equal ones;
    /// `EmptySequence` for an empty stream.
    pub fn max(sa: StreamAdaptor) -> (r: Result<NumberLike, Error>)
        requires
            adaptor_wf(sa),
        ensures
            r == extreme_number(items(sa), true),
            r matches Ok(n) ==> n.wf(),
    {
        Self::min_max(sa, true)
    }

    /// The values of a stream in reverse order; the first error stops it.
    pub fn rev(sa: StreamAdaptor) -> (r: Result<Vec<MetaVal>, Error>)
        requires
            adaptor_wf(sa),
        ensures
            vals_result_is(r, map_ok(collected(items(sa)), |vs: Seq<ValView>| vs.reverse())),
            r matches Ok(vs) ==> forall|k: int| 0 <= k < vs@.len() ==> val_wf(#[trigger] vs@[k]@),
    {
        let it = sa.into_items();
        let seq = collect_stream(it)?;
        let ghost s0 = seq@;
        let r = reverse_values(seq);
        proof {
            crate::functions::util::value_seq::lemma_values_keep_wf(s0, r@);
        }
        Ok(r)
    }

    /// The values of a stream in increasing value order; the first error
    /// stops it.
    pub fn sort(sa: StreamAdaptor) -> (r: Result<Vec<MetaVal>, Error>)
        requires
            adaptor_wf(sa),
        ensures
            vals_result_is(r, map_ok(collected(items(sa)), |vs: Seq<ValView>| sorted_vals(vs))),
    {
        let seq = collect_stream(sa.into_items())?;
        Ok(sort_values(seq))
    }

    /// The sum of the numbers of a stream, from the integer 0.
    pub fn sum(sa: StreamAdaptor) -> (r: Result<NumberLike, Error>)
        requires
            adaptor_wf(sa),
        ensures
            r == total_from(NumberLike::Integer(0), items(sa), true),
            r matches Ok(n) ==> n.wf(),
    {
        total_of_rest(NumberLike::Integer(0), sa.into_items(), true)
    }

    /// The product of the numbers of a stream, from the integer 1.
    pub fn prod(sa: StreamAdaptor) -> (r: Result<NumberLike, Error>)
        requires
            adaptor_wf(sa),
        ensures
            r == total_from(NumberLike::Integer(1), items(sa), false),
            r matches Ok(n) ==> n.wf(),
    {
        total_of_rest(NumberLike::Integer(1), sa.into_items(), false)
    }

    /// Whether every value of a stream equals the first; the first error
    /// before a differing value stops it.
    pub fn all_equal(sa: StreamAdaptor) -> (r: Result<bool, Error>)
        requires
            adaptor_wf(sa),
        ensures
            items(sa).len() == 0 ==> r == Ok::<bool, Error>(true),
            items(sa).len() > 0 ==> r == match items(sa)[0] {
                Err(e) => Err(e),
                Ok(first) => all_equal_from(first, items(sa).drop_first()),
            },
    {
        let mut rest = sa.into_items();
        let ghost s0 = stream_view(rest@);
        if rest.len() == 0 {
            return Ok(true);
        }
        let ghost before = rest@;
        let x = rest.remove(0);
        proof {
            assert(s0.skip(0) =~= s0);
            lemma_stream_take_first(before, rest@, s0, 0);
            assert(s0.skip(1) =~= s0.drop_first());
        }
        let first = x?;
        all_equal_rest(&first, rest)
    }

    /// The stream with the elements of its sequences spliced in.
    pub fn flatten(sa: StreamAdaptor) -> (r: Result<FlattenAdaptor, Error>)
        ensures
            r matches Ok(a) && *a.0 == sa,
    {
        Ok(FlattenAdaptor::new(sa))
    }

    /// The stream without repeats of the value before.
    pub fn dedup(sa: StreamAdaptor) -> (r: Result<DedupAdaptor, Error>)
        ensures
            r matches Ok(a) && *a.0 == sa,
    {
        Ok(DedupAdaptor::new(sa))
    }

    /// The stream without repeats of any value before.
    pub fn unique(sa: StreamAdaptor) -> (r: Result<UniqueAdaptor, Error>)
        ensures
            r matches Ok(a) && *a.0 == sa,
    {
        Ok(UniqueAdaptor::new(sa))
    }

    /// The value at position `n` of a stream.
    pub fn nth(sa: StreamAdaptor, n: usize) -> (r: Result<MetaVal, Error>)
        requires
            adaptor_wf(sa),
        ensures
            crate::functions::util::value_seq::result_view(r) == nth_item(items(sa), n as int),
            r matches Ok(v) ==> val_wf(v@),
    {
        let mut rest = sa.into_items();
        let ghost s0 = stream_view(rest@);
        let mut i: usize = 0;
        let ghost mut k: int = 0;
        proof {
            assert(s0.skip(0) =~= s0);
        }
        while rest.len() > 0
            invariant
                s0 == items(sa),
                0 <= k <= s0.len(),
                s0.len() == k + rest@.len(),
                stream_view(rest@) == s0.skip(k),
                stream_wf(rest@),
                i == k,
                i <= n,
                nth_item(s0, n as int) == nth_item(s0.skip(k), n - i),
            decreases rest.len(),
        {
            let ghost before = rest@;
            let x = rest.remove(0);
            proof {
                lemma_stream_take_first(before, rest@, s0, k);
            }
            let mv = x?;
            if i == n {
                return Ok(mv);
            }
            i = i + 1;
            proof {
                k = k + 1;
            }
        }
        Err(Error::OutOfBounds)
    }

    fn all_any(sa: StreamAdaptor, u_pred: UnaryPredicate, target: bool) -> (r: Result<bool, Error>)
        requires
            adaptor_wf(sa),
        ensures
            r == all_any_items(items(sa), u_pred, target),
    {
        let mut rest = sa.into_items();
        let ghost s0 = stream_view(rest@);
        let ghost mut k: int = 0;
        proof {
            assert(s0.skip(0) =~= s0);
        }
        while rest.len() > 0
            invariant
                s0 == items(sa),
                0 <= k <= s0.len(),
                s0.len() == k + rest@.len(),
                stream_view(rest@) == s0.skip(k),
                stream_wf(rest@),
                all_any_items(s0, u_pred, target) == all_any_items(s0.skip(k), u_pred, target),
            decreases rest.len(),
        {
            let ghost before = rest@;
            let x = rest.remove(0);
            proof {
                lemma_stream_take_first(before, rest@, s0, k);
            }
            let mv = x?;
            let b = u_pred.process(&mv)?;
            if b == target {
                return Ok(target);
            }
            proof {
                k = k + 1;
            }
        }
        Ok(!target)
    }

    /// Whether a predicate holds of every value of a stream.
    pub fn all(sa: StreamAdaptor, u_pred: UnaryPredicate) -> (r: Result<bool, Error>)
        requires
            adaptor_wf(sa),
        ensures
            r == all_any_items(items(sa), u_pred, false),
    {
        Self::all_any(sa, u_pred, false)
    }

    /// Whether a predicate holds of some value of a stream.
    pub fn any(sa: StreamAdaptor, u_pred: UnaryPredicate) -> (r: Result<bool, Error>)
        requires
            adaptor_wf(sa),
        ensures
            r == all_any_items(items(sa), u_pred, true),
    {
        Self::all_any(sa, u_pred, true)
    }
}

} // verus!
