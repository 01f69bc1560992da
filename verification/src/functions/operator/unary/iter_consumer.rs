//! Unary operators that consume a stream of values into one value.

use vstd::prelude::*;

use crate::functions::Error;
use crate::functions::util::number_like::{NumberLike, number_of, number_product, number_sum, value_of};
use crate::functions::util::value_seq::{
    collected,
    collect_stream,
    reverse_values,
    sort_values,
    sorted_vals,
    stream_view,
    stream_wf,
    all_wf,
    lemma_ops_keep_wf,
    result_view,
    lemma_stream_take_first,
};
use crate::metadata::types::{MetaVal, ValView, val_wf, vals_view, lemma_vals_view, lemma_vals_wf};

verus! {

/// The unary stream consumers.
#[derive(Clone, Copy, Debug, PartialEq, Eq, Structural)]
pub enum IterConsumer {
    Collect,
    Rev,
    Sort,
    Count,
    First,
    Last,
    MaxIn,
    MinIn,
    Sum,
    Prod,
    AllEqual,
}

/// The larger of two numbers (the second when they are equal), or the
/// smaller (the first when they are equal).
pub open spec fn picked(acc: NumberLike, n: NumberLike, is_max: bool) -> NumberLike {
    if is_max {
        if acc.scaled() > n.scaled() {
            acc
        } else {
            n
        }
    } else {
        if acc.scaled() > n.scaled() {
            n
        } else {
            acc
        }
    }
}

/// The extreme number of a stream, starting from `acc`: the first error, or
/// `NotNumeric` at the first value that is not a number, stops it.
pub open spec fn extreme_from(acc: NumberLike, s: Seq<Result<ValView, Error>>, is_max: bool) -> Result<
    NumberLike,
    Error,
>
    decreases s.len(),
{
    if s.len() == 0 {
        Ok(acc)
    } else {
        match s[0] {
            Err(e) => Err(e),
            Ok(v) => match number_of(v) {
                None => Err(Error::NotNumeric),
                Some(n) => extreme_from(picked(acc, n, is_max), s.drop_first(), is_max),
            },
        }
    }
}

/// The largest or smallest number of a stream; `EmptySequence` for an empty
/// one.
pub open spec fn extreme(s: Seq<Result<ValView, Error>>, is_max: bool) -> Result<ValView, Error> {
    if s.len() == 0 {
        Err(Error::EmptySequence)
    } else {
        match s[0] {
            Err(e) => Err(e),
            Ok(v) => match number_of(v) {
                None => Err(Error::NotNumeric),
                Some(n) => match extreme_from(n, s.drop_first(), is_max) {
                    Ok(m) => Ok(value_of(m)),
                    Err(e) => Err(e),
                },
            },
        }
    }
}

/// The sum or product of a stream, starting from `acc`: the first error,
/// `NotNumeric` at the first value that is not a number, or `Overflow` when
/// a partial result leaves the range of its type, stops it.
pub open spec fn total_from(acc: NumberLike, s: Seq<Result<ValView, Error>>, is_sum: bool) -> Result<
    NumberLike,
    Error,
>
    decreases s.len(),
{
    if s.len() == 0 {
        Ok(acc)
    } else {
        match s[0] {
            Err(e) => Err(e),
            Ok(v) => match number_of(v) {
                None => Err(Error::NotNumeric),
                Some(n) => match (if is_sum {
                    number_sum(acc, n)
                } else {
                    number_product(acc, n)
                }) {
                    None => Err(Error::Overflow),
                    Some(t) => total_from(t, s.drop_first(), is_sum),
                },
            },
        }
    }
}

/// Whether every value of a stream equals `first`: `false` at the first
/// value that differs, the first error before it stops it.
pub open spec fn all_equal_from(first: ValView, s: Seq<Result<ValView, Error>>) -> Result<bool, Error>
    decreases s.len(),
{
    if s.len() == 0 {
        Ok(true)
    } else {
        match s[0] {
            Err(e) => Err(e),
            Ok(v) => if v != first {
                Ok(false)
            } else {
                all_equal_from(first, s.drop_first())
            },
        }
    }
}

/// A result with its value wrapped into another.
pub open spec fn map_ok<A, B>(r: Result<A, Error>, f: spec_fn(A) -> B) -> Result<B, Error> {
    match r {
        Ok(a) => Ok(f(a)),
        Err(e) => Err(e),
    }
}

/// What a unary consumer makes of a stream.
pub open spec fn consumed(c: IterConsumer, s: Seq<Result<ValView, Error>>) -> Result<ValView, Error> {
    match c {
        IterConsumer::Collect => map_ok(collected(s), |vs: Seq<ValView>| ValView::Sequence(vs)),
        IterConsumer::Rev => map_ok(
            collected(s),
            |vs: Seq<ValView>| ValView::Sequence(vs.reverse()),
        ),
        IterConsumer::Sort => map_ok(
            collected(s),
            |vs: Seq<ValView>| ValView::Sequence(sorted_vals(vs)),
        ),
        IterConsumer::Count => map_ok(
            collected(s),
            |vs: Seq<ValView>| ValView::Int((vs.len() as i64) as int),
        ),
        IterConsumer::First => if s.len() == 0 {
            Err(Error::EmptyStream)
        } else {
            s[0]
        },
        IterConsumer::Last => match collected(s) {
            Err(e) => Err(e),
            Ok(vs) => if vs.len() == 0 {
                Err(Error::EmptyStream)
            } else {
                Ok(vs.last())
            },
        },
        IterConsumer::MaxIn => extreme(s, true),
        IterConsumer::MinIn => extreme(s, false),
        IterConsumer::Sum => map_ok(
            total_from(NumberLike::Integer(0), s, true),
            |n: NumberLike| value_of(n),
        ),
        IterConsumer::Prod => map_ok(
            total_from(NumberLike::Integer(1), s, false),
            |n: NumberLike| value_of(n),
        ),
        IterConsumer::AllEqual => if s.len() == 0 {
            Ok(ValView::Bul(true))
        } else {
            match s[0] {
                Err(e) => Err(e),
                Ok(first) => map_ok(
                    all_equal_from(first, s.drop_first()),
                    |b: bool| ValView::Bul(b),
                ),
            }
        },
    }
}

/// The extreme number of the rest of a stream, starting from `acc`.
pub(crate) fn extreme_of_rest(acc: NumberLike, it: Vec<Result<MetaVal, Error>>, is_max: bool) -> (r: Result<
    NumberLike,
    Error,
>)
    requires
        acc.wf(),
        stream_wf(it@),
    ensures
        r == extreme_from(acc, stream_view(it@), is_max),
        r matches Ok(n) ==> n.wf(),
{
    let ghost s0 = stream_view(it@);
    let mut rest = it;
    let mut target = acc;
    let ghost mut i: int = 0;
    proof {
        assert(s0.skip(0) =~= s0);
    }
    while rest.len() > 0
        invariant
            s0 == stream_view(it@),
            0 <= i <= s0.len(),
            stream_view(rest@) == s0.skip(i),
            stream_wf(rest@),
            target.wf(),
            extreme_from(acc, s0, is_max) == extreme_from(target, s0.skip(i), is_max),
        decreases rest.len(),
    {
        let ghost before = rest@;
        let x = rest.remove(0);
        proof {
            lemma_stream_take_first(before, rest@, s0, i);
        }
        let v = x?;
        let nl = NumberLike::try_from_val(v)?;
        target = if is_max {
            target.val_max(nl)
        } else {
            target.val_min(nl)
        };
        proof {
            i = i + 1;
        }
    }
    Ok(target)
}

/// The sum or the product of the rest of a stream, starting from `acc`.
pub(crate) fn total_of_rest(acc: NumberLike, it: Vec<Result<MetaVal, Error>>, is_sum: bool) -> (r: Result<
    NumberLike,
    Error,
>)
    requires
        acc.wf(),
        stream_wf(it@),
    ensures
        r == total_from(acc, stream_view(it@), is_sum),
        r matches Ok(n) ==> n.wf(),
{
    let ghost s0 = stream_view(it@);
    let mut rest = it;
    let mut total = acc;
    let ghost mut i: int = 0;
    proof {
        assert(s0.skip(0) =~= s0);
    }
    while rest.len() > 0
        invariant
            s0 == stream_view(it@),
            0 <= i <= s0.len(),
            stream_view(rest@) == s0.skip(i),
            stream_wf(rest@),
            total.wf(),
            total_from(acc, s0, is_sum) == total_from(total, s0.skip(i), is_sum),
        decreases rest.len(),
    {
        let ghost before = rest@;
        let x = rest.remove(0);
        proof {
            lemma_stream_take_first(before, rest@, s0, i);
        }
        let v = x?;
        let nl = NumberLike::try_from_val(v)?;
        let next = if is_sum {
            total.checked_add(nl)
        } else {
            total.checked_mul(nl)
        };
        match next {
            None => {
                return Err(Error::Overflow);
            },
            Some(t) => {
                total = t;
            },
        }
        proof {
            i = i + 1;
        }
    }
    Ok(total)
}

/// Whether every value of the rest of a stream equals `first`.
pub(crate) fn all_equal_rest(first: &MetaVal, it: Vec<Result<MetaVal, Error>>) -> (r: Result<bool, Error>)
    requires
        stream_wf(it@),
    ensures
        r == all_equal_from(first@, stream_view(it@)),
{
    let ghost s0 = stream_view(it@);
    let mut rest = it;
    let ghost mut i: int = 0;
    proof {
        assert(s0.skip(0) =~= s0);
    }
    while rest.len() > 0
        invariant
            s0 == stream_view(it@),
            0 <= i <= s0.len(),
            stream_view(rest@) == s0.skip(i),
            stream_wf(rest@),
            all_equal_from(first@, s0) == all_equal_from(first@, s0.skip(i)),
        decreases rest.len(),
    {
        let ghost before = rest@;
        let x = rest.remove(0);
        proof {
            lemma_stream_take_first(before, rest@, s0, i);
        }
        let v = x?;
        if !v.equal(first) {
            return Ok(false);
        }
        proof {
            i = i + 1;
        }
    }
    Ok(true)
}

impl IterConsumer {
    /// Consumes a stream into one value. Collecting, reversing, sorting,
    /// counting and taking the last value stop at the first error; taking the
    /// first value gives the first item, error or not. The extremes, the sum
    /// and the product need numbers; the check for equal values stops at the
    /// first value that differs.
    pub fn process(&self, it: Vec<Result<MetaVal, Error>>) -> (r: Result<MetaVal, Error>)
        requires
            stream_wf(it@),
        ensures
            result_view(r) == consumed(*self, stream_view(it@)),
            r matches Ok(v) ==> val_wf(v@),
    {
        let ghost s0 = stream_view(it@);
        match self {
            IterConsumer::Collect | IterConsumer::Rev | IterConsumer::Sort | IterConsumer::Count
            | IterConsumer::Last => {
                let ghost it0 = it@;
                let seq = collect_stream(it)?;
                let ghost xs = vals_view(seq@);
                proof {
                    lemma_vals_view(seq@);
                    assert(all_wf(xs)) by {
                        assert forall|i: int| 0 <= i < xs.len() implies val_wf(#[trigger] xs[i]) by {
                            assert(xs[i] == seq@[i]@);
                        }
                    }
                    lemma_ops_keep_wf(xs);
                    lemma_vals_wf(xs);
                    lemma_vals_wf(xs.reverse());
                    lemma_vals_wf(sorted_vals(xs));
                }
                match self {
                    IterConsumer::Collect => Ok(MetaVal::Sequence(seq)),
                    IterConsumer::Rev => Ok(MetaVal::Sequence(reverse_values(seq))),
                    IterConsumer::Sort => Ok(MetaVal::Sequence(sort_values(seq))),
                    IterConsumer::Count => Ok(MetaVal::Int(seq.len() as i64)),
                    _ => {
                        let mut seq = seq;
                        let ghost before = seq@;
                        match seq.pop() {
                            None => Err(Error::EmptyStream),
                            Some(last) => {
                                proof {
                                    assert(before.last() == last);
                                    assert(xs[xs.len() - 1] == last@);
                                }
                                Ok(last)
                            },
                        }
                    },
                }
            },
            IterConsumer::First => {
                if it.len() == 0 {
                    Err(Error::EmptyStream)
                } else {
                    let mut it = it;
                    let ghost before = it@;
                    let x = it.remove(0);
                    proof {
                        assert(s0[0] == result_view(before[0]));
                        assert(before[0] matches Ok(v) ==> val_wf(v@));
                    }
                    x
                }
            },
            IterConsumer::MaxIn | IterConsumer::MinIn => {
                let is_max = match self {
                    IterConsumer::MaxIn => true,
                    _ => false,
                };
                if it.len() == 0 {
                    return Err(Error::EmptySequence);
                }
                let mut rest = it;
                let ghost before = rest@;
                let x = rest.remove(0);
                proof {
                    assert(s0.skip(0) =~= s0);
                    lemma_stream_take_first(before, rest@, s0, 0);
                    assert(s0.skip(1) =~= s0.drop_first());
                }
                let v = x?;
                let first = NumberLike::try_from_val(v)?;
                let m = extreme_of_rest(first, rest, is_max)?;
                Ok(m.to_val())
            },
            IterConsumer::Sum | IterConsumer::Prod => {
                let is_sum = match self {
                    IterConsumer::Sum => true,
                    _ => false,
                };
                let start = if is_sum {
                    NumberLike::Integer(0)
                } else {
                    NumberLike::Integer(1)
                };
                let t = total_of_rest(start, it, is_sum)?;
                Ok(t.to_val())
            },
            IterConsumer::AllEqual => {
                if it.len() == 0 {
                    return Ok(MetaVal::Bul(true));
                }
                let mut rest = it;
                let ghost before = rest@;
                let x = rest.remove(0);
                proof {
                    assert(s0.skip(0) =~= s0);
                    lemma_stream_take_first(before, rest@, s0, 0);
                    assert(s0.skip(1) =~= s0.drop_first());
                }
                let first = x?;
                let b = all_equal_rest(&first, rest)?;
                Ok(MetaVal::Bul(b))
            },
        }
    }
}

} // verus!
