//! Streams of values built from a source and adaptors: flattening,
//! removing repeats, filtering by a predicate, converting, stepping,
//! chaining and zipping.
//!
//! A stream is finite and every adaptor is a function of the items it
//! reads, so a stream is described by the items it yields, and evaluated
//! into them in one pass.

use vstd::prelude::*;

use crate::functions::Error;
use crate::functions::op::operator::{UnaryConverter, UnaryPredicate, as_converter, as_predicate};
use crate::functions::operator::unary::converter::converted;
use crate::functions::operator::unary::predicate::predicate_result;
use crate::functions::util::value_seq::{
    lemma_stream_take_first,
    ok_stream,
    ok_values,
    result_view,
    stream_view,
    stream_wf,
};
use crate::metadata::types::{MetaVal, ValView, val_wf, vals_view, lemma_vals_view};

verus! {

/// A stream of values: a source, or an adaptor over other streams.
pub enum StreamAdaptor {
    /// Items read from a stream of metadata values.
    Raw(Vec<Result<MetaVal, Error>>),
    /// The values of a sequence.
    Fixed(Vec<MetaVal>),
    Flatten(FlattenAdaptor),
    Dedup(DedupAdaptor),
    Unique(UniqueAdaptor),
    Filter(FilterAdaptor),
    MapEach(MapAdaptor),
    StepBy(StepByAdaptor),
    Chain(ChainAdaptor),
    Zip(ZipAdaptor),
}

/// Splices the elements of the sequences of a stream into it.
pub struct FlattenAdaptor(pub Box<StreamAdaptor>);

/// Drops each value that equals the last value yielded.
pub struct DedupAdaptor(pub Box<StreamAdaptor>);

/// Drops each value that equals a value yielded before.
pub struct UniqueAdaptor(pub Box<StreamAdaptor>);

/// Keeps the values for which a predicate holds.
pub struct FilterAdaptor(pub Box<StreamAdaptor>, pub UnaryPredicate);

/// Converts each value.
pub struct MapAdaptor(pub Box<StreamAdaptor>, pub UnaryConverter);

/// Keeps every `n`-th value, from the first on, and every error.
pub struct StepByAdaptor {
    pub stream: Box<StreamAdaptor>,
    pub n: usize,
}

/// The items of one stream, then those of another.
pub struct ChainAdaptor(pub Box<StreamAdaptor>, pub Box<StreamAdaptor>);

/// Pairs of the items of two streams, as far as the shorter goes.
pub struct ZipAdaptor(pub Box<StreamAdaptor>, pub Box<StreamAdaptor>);

/// Drops the first `n` items, but for their errors.
pub struct SkipAdaptor {
    pub it: Box<StreamAdaptor>,
    pub n: usize,
}

/// Keeps the first `n` items.
pub struct TakeAdaptor {
    pub it: Box<StreamAdaptor>,
    pub n: usize,
}

/// The items of a stream with the elements of its sequences spliced in.
pub open spec fn flattened_items(s: Seq<Result<ValView, Error>>) -> Seq<Result<ValView, Error>>
    decreases s.len(),
{
    if s.len() == 0 {
        Seq::empty()
    } else {
        flattened_items(s.drop_last()) + match s.last() {
            Ok(ValView::Sequence(xs)) => ok_stream(xs),
            other => seq![other],
        }
    }
}

/// The items of a stream without the values that equal the last value
/// yielded before them, starting with `last` as that value.
pub open spec fn deduped_items(last: Option<ValView>, s: Seq<Result<ValView, Error>>) -> Seq<
    Result<ValView, Error>,
>
    decreases s.len(),
{
    if s.len() == 0 {
        Seq::empty()
    } else {
        match s[0] {
            Err(e) => seq![Err(e)] + deduped_items(last, s.drop_first()),
            Ok(v) => if last == Some(v) {
                deduped_items(last, s.drop_first())
            } else {
                seq![Ok(v)] + deduped_items(Some(v), s.drop_first())
            },
        }
    }
}

/// The items of a stream without the values that equal a value of `seen`
/// or one yielded before them.
pub open spec fn unique_items(seen: Seq<ValView>, s: Seq<Result<ValView, Error>>) -> Seq<
    Result<ValView, Error>,
>
    decreases s.len(),
{
    if s.len() == 0 {
        Seq::empty()
    } else {
        match s[0] {
            Err(e) => seq![Err(e)] + unique_items(seen, s.drop_first()),
            Ok(v) => if seen.contains(v) {
                unique_items(seen, s.drop_first())
            } else {
                seq![Ok(v)] + unique_items(seen.push(v), s.drop_first())
            },
        }
    }
}

/// The items of a stream that a predicate keeps: the values it holds for,
/// and the errors, its own among them.
pub open spec fn filtered_items(s: Seq<Result<ValView, Error>>, p: UnaryPredicate) -> Seq<
    Result<ValView, Error>,
>
    decreases s.len(),
{
    if s.len() == 0 {
        Seq::empty()
    } else {
        filtered_items(s.drop_last(), p) + match s.last() {
            Err(e) => seq![Err(e)],
            Ok(v) => match predicate_result(as_predicate(p), v) {
                Err(e) => seq![Err(e)],
                Ok(true) => seq![Ok(v)],
                Ok(false) => Seq::empty(),
            },
        }
    }
}

/// The items of a stream with each value converted.
pub open spec fn mapped_items(s: Seq<Result<ValView, Error>>, c: UnaryConverter) -> Seq<
    Result<ValView, Error>,
> {
    Seq::new(
        s.len(),
        |i: int|
            match s[i] {
                Err(e) => Err(e),
                Ok(v) => converted(as_converter(c), v),
            },
    )
}

/// The items of a stream that stepping keeps, `curr` values after the
/// last one kept: a value when at least `n` values have passed, and every
/// error.
pub open spec fn stepped_items(curr: int, n: int, s: Seq<Result<ValView, Error>>) -> Seq<
    Result<ValView, Error>,
>
    decreases s.len(),
{
    if s.len() == 0 {
        Seq::empty()
    } else {
        match s[0] {
            Err(e) => seq![Err(e)] + stepped_items(curr, n, s.drop_first()),
            Ok(v) => if curr >= n {
                seq![Ok(v)] + stepped_items(1, n, s.drop_first())
            } else {
                stepped_items(curr + 1, n, s.drop_first())
            },
        }
    }
}

/// The items of two streams paired up, as far as the shorter goes: the
/// error of the first, else of the second, or the pair of their values.
pub open spec fn zipped_items(a: Seq<Result<ValView, Error>>, b: Seq<Result<ValView, Error>>) -> Seq<
    Result<ValView, Error>,
> {
    Seq::new(
        if a.len() < b.len() {
            a.len()
        } else {
            b.len()
        },
        |i: int|
            match (a[i], b[i]) {
                (Err(e), _) => Err(e),
                (_, Err(e)) => Err(e),
                (Ok(x), Ok(y)) => Ok(ValView::Sequence(seq![x, y])),
            },
    )
}

/// The errors among some items.
pub open spec fn errors_of(s: Seq<Result<ValView, Error>>) -> Seq<Result<ValView, Error>>
    decreases s.len(),
{
    if s.len() == 0 {
        Seq::empty()
    } else {
        errors_of(s.drop_last()) + match s.last() {
            Err(e) => seq![Err::<ValView, Error>(e)],
            Ok(_) => Seq::empty(),
        }
    }
}

/// The items of a stream after the first `n`, preceded by the errors among
/// those `n`.
pub open spec fn skipped_items(s: Seq<Result<ValView, Error>>, n: int) -> Seq<Result<ValView, Error>> {
    if n >= s.len() {
        errors_of(s)
    } else {
        errors_of(s.take(n)) + s.skip(n)
    }
}

/// The first `n` items of a stream, or all of them.
pub open spec fn taken_items(s: Seq<Result<ValView, Error>>, n: int) -> Seq<Result<ValView, Error>> {
    if n >= s.len() {
        s
    } else {
        s.take(n)
    }
}

/// The items that a stream yields.
pub open spec fn items(sa: StreamAdaptor) -> Seq<Result<ValView, Error>>
    decreases sa,
{
    match sa {
        StreamAdaptor::Raw(v) => stream_view(v@),
        StreamAdaptor::Fixed(v) => ok_stream(vals_view(v@)),
        StreamAdaptor::Flatten(a) => flattened_items(items(*a.0)),
        StreamAdaptor::Dedup(a) => deduped_items(None, items(*a.0)),
        StreamAdaptor::Unique(a) => unique_items(Seq::empty(), items(*a.0)),
        StreamAdaptor::Filter(a) => filtered_items(items(*a.0), a.1),
        StreamAdaptor::MapEach(a) => mapped_items(items(*a.0), a.1),
        StreamAdaptor::StepBy(a) => stepped_items(a.n as int, a.n as int, items(*a.stream)),
        StreamAdaptor::Chain(a) => items(*a.0) + items(*a.1),
        StreamAdaptor::Zip(a) => zipped_items(items(*a.0), items(*a.1)),
    }
}

/// Whether the sources of a stream hold well-formed values, and its steps
/// are positive.
pub open spec fn adaptor_wf(sa: StreamAdaptor) -> bool
    decreases sa,
{
    match sa {
        StreamAdaptor::Raw(v) => stream_wf(v@),
        StreamAdaptor::Fixed(v) => forall|k: int| 0 <= k < v@.len() ==> val_wf(#[trigger] v@[k]@),
        StreamAdaptor::Flatten(a) => adaptor_wf(*a.0),
        StreamAdaptor::Dedup(a) => adaptor_wf(*a.0),
        StreamAdaptor::Unique(a) => adaptor_wf(*a.0),
        StreamAdaptor::Filter(a) => adaptor_wf(*a.0),
        StreamAdaptor::MapEach(a) => adaptor_wf(*a.0),
        StreamAdaptor::StepBy(a) => a.n > 0 && adaptor_wf(*a.stream),
        StreamAdaptor::Chain(a) => adaptor_wf(*a.0) && adaptor_wf(*a.1),
        StreamAdaptor::Zip(a) => adaptor_wf(*a.0) && adaptor_wf(*a.1),
    }
}

/// Splices the elements of the sequences of a stream into it.
pub(crate) fn flatten_stream(s: Vec<Result<MetaVal, Error>>) -> (r: Vec<Result<MetaVal, Error>>)
    requires
        stream_wf(s@),
    ensures
        stream_view(r@) == flattened_items(stream_view(s@)),
        stream_wf(r@),
{
    let ghost s0 = stream_view(s@);
    let mut rest = s;
    let mut out: Vec<Result<MetaVal, Error>> = Vec::new();
    let ghost mut i: int = 0;
    proof {
        assert(s0.skip(0) =~= s0);
        assert(stream_view(out@) =~= flattened_items(s0.take(0)));
    }
    while rest.len() > 0
        invariant
            0 <= i <= s0.len(),
            s0.len() == i + rest@.len(),
            stream_view(rest@) == s0.skip(i),
            stream_wf(rest@),
            stream_wf(out@),
            stream_view(out@) == flattened_items(s0.take(i)),
        decreases rest.len(),
    {
        let ghost before = rest@;
        let ghost out_before = out@;
        let x = rest.remove(0);
        proof {
            lemma_stream_take_first(before, rest@, s0, i);
            assert(s0.take(i + 1).drop_last() =~= s0.take(i));
            assert(s0.take(i + 1).last() == s0[i]);
        }
        match x {
            Ok(MetaVal::Sequence(inner)) => {
                proof {
                    lemma_vals_view(inner@);
                    crate::metadata::types::lemma_vals_wf(vals_view(inner@));
                    assert forall|k: int| 0 <= k < inner@.len() implies val_wf(#[trigger] inner@[k]@) by {
                        assert(vals_view(inner@)[k] == inner@[k]@);
                    }
                }
                let mut pieces = ok_values(inner);
                let ghost pv = pieces@;
                out.append(&mut pieces);
                proof {
                    assert(stream_view(out@) =~= stream_view(out_before) + stream_view(pv));
                    assert forall|k: int| 0 <= k < out@.len() implies (#[trigger] out@[k] matches Ok(v) ==> val_wf(v@)) by {
                        if k < out_before.len() {
                            assert(out@[k] == out_before[k]);
                        } else {
                            assert(out@[k] == pv[k - out_before.len()]);
                        }
                    }
                }
            },
            other => {
                out.push(other);
                proof {
                    assert(stream_view(out@) =~= stream_view(out_before) + seq![result_view(other)]);
                    assert forall|k: int| 0 <= k < out@.len() implies (#[trigger] out@[k] matches Ok(v) ==> val_wf(v@)) by {
                        if k < out_before.len() {
                            assert(out@[k] == out_before[k]);
                        }
                    }
                }
            },
        }
        proof {
            i = i + 1;
        }
    }
    proof {
        assert(s0.take(i) =~= s0);
    }
    out
}

/// The view of an optional value.
pub open spec fn opt_view(v: Option<MetaVal>) -> Option<ValView> {
    match v {
        Some(x) => Some(x@),
        None => None,
    }
}

/// Drops each value of a stream that equals the last value kept.
pub(crate) fn dedup_stream(s: Vec<Result<MetaVal, Error>>) -> (r: Vec<Result<MetaVal, Error>>)
    requires
        stream_wf(s@),
    ensures
        stream_view(r@) == deduped_items(None, stream_view(s@)),
        stream_wf(r@),
{
    let ghost s0 = stream_view(s@);
    let mut rest = s;
    let mut out: Vec<Result<MetaVal, Error>> = Vec::new();
    let mut last: Option<MetaVal> = None;
    let ghost mut i: int = 0;
    proof {
        assert(s0.skip(0) =~= s0);
        assert(stream_view(out@) + deduped_items(None, s0) =~= deduped_items(None, s0));
    }
    while rest.len() > 0
        invariant
            0 <= i <= s0.len(),
            s0.len() == i + rest@.len(),
            stream_view(rest@) == s0.skip(i),
            stream_wf(rest@),
            stream_wf(out@),
            stream_view(out@) + deduped_items(opt_view(last), s0.skip(i)) == deduped_items(None, s0),
        decreases rest.len(),
    {
        let ghost before = rest@;
        let ghost out_before = out@;
        let x = rest.remove(0);
        proof {
            lemma_stream_take_first(before, rest@, s0, i);
        }
        match x {
            Err(e) => {
                out.push(Err(e));
                proof {
                    assert(stream_view(out@) =~= stream_view(out_before) + seq![Err::<ValView, Error>(e)]);
                }
            },
            Ok(v) => {
                let repeat = match &last {
                    Some(l) => v.equal(l),
                    None => false,
                };
                if !repeat {
                    let copy = v.deep_copy();
                    out.push(Ok(v));
                    last = Some(copy);
                    proof {
                        assert(stream_view(out@) =~= stream_view(out_before) + seq![Ok::<ValView, Error>(v@)]);
                    }
                }
            },
        }
        proof {
            assert forall|k: int| 0 <= k < out@.len() implies (#[trigger] out@[k] matches Ok(w) ==> val_wf(w@)) by {
                if k < out_before.len() {
                    assert(out@[k] == out_before[k]);
                }
            }
            i = i + 1;
        }
    }
    proof {
        assert(stream_view(out@) + Seq::<Result<ValView, Error>>::empty() =~= stream_view(out@));
    }
    out
}

/// Whether a value equals one of a vector.
fn contains_value(seen: &Vec<MetaVal>, v: &MetaVal) -> (r: bool)
    ensures
        r == vals_view(seen@).contains(v@),
{
    proof {
        lemma_vals_view(seen@);
    }
    let mut k: usize = 0;
    while k < seen.len()
        invariant
            k <= seen@.len(),
            vals_view(seen@).len() == seen@.len(),
            forall|j: int| 0 <= j < seen@.len() ==> vals_view(seen@)[j] == seen@[j]@,
            forall|j: int| 0 <= j < k ==> vals_view(seen@)[j] != v@,
        decreases seen.len() - k,
    {
        if seen[k].equal(v) {
            proof {
                assert(vals_view(seen@)[k as int] == v@);
            }
            return true;
        }
        k = k + 1;
    }
    false
}

/// Drops each value of a stream that equals a value kept before.
pub(crate) fn unique_stream(s: Vec<Result<MetaVal, Error>>) -> (r: Vec<Result<MetaVal, Error>>)
    requires
        stream_wf(s@),
    ensures
        stream_view(r@) == unique_items(Seq::empty(), stream_view(s@)),
        stream_wf(r@),
{
    let ghost s0 = stream_view(s@);
    let mut rest = s;
    let mut out: Vec<Result<MetaVal, Error>> = Vec::new();
    let mut seen: Vec<MetaVal> = Vec::new();
    let ghost mut i: int = 0;
    proof {
        assert(s0.skip(0) =~= s0);
        lemma_vals_view(seen@);
        assert(vals_view(seen@) =~= Seq::<ValView>::empty());
        assert(stream_view(out@) + unique_items(Seq::empty(), s0) =~= unique_items(Seq::empty(), s0));
    }
    while rest.len() > 0
        invariant
            0 <= i <= s0.len(),
            s0.len() == i + rest@.len(),
            stream_view(rest@) == s0.skip(i),
            stream_wf(rest@),
            stream_wf(out@),
            stream_view(out@) + unique_items(vals_view(seen@), s0.skip(i)) == unique_items(
                Seq::empty(),
                s0,
            ),
        decreases rest.len(),
    {
        let ghost before = rest@;
        let ghost out_before = out@;
        let ghost seen_before = seen@;
        let x = rest.remove(0);
        proof {
            lemma_stream_take_first(before, rest@, s0, i);
        }
        match x {
            Err(e) => {
                out.push(Err(e));
                proof {
                    assert(stream_view(out@) =~= stream_view(out_before) + seq![Err::<ValView, Error>(e)]);
                }
            },
            Ok(v) => {
                if !contains_value(&seen, &v) {
                    let copy = v.deep_copy();
                    out.push(Ok(v));
                    seen.push(copy);
                    proof {
                        crate::functions::util::value_seq::lemma_vals_view_push(seen_before, copy);
                        assert(stream_view(out@) =~= stream_view(out_before) + seq![Ok::<ValView, Error>(v@)]);
                    }
                }
            },
        }
        proof {
            assert forall|k: int| 0 <= k < out@.len() implies (#[trigger] out@[k] matches Ok(w) ==> val_wf(w@)) by {
                if k < out_before.len() {
                    assert(out@[k] == out_before[k]);
                }
            }
            i = i + 1;
        }
    }
    proof {
        assert(stream_view(out@) + Seq::<Result<ValView, Error>>::empty() =~= stream_view(out@));
    }
    out
}

/// Keeps the values of a stream for which a predicate holds, with every
/// error, the predicate's among them.
pub(crate) fn filter_stream(s: Vec<Result<MetaVal, Error>>, p: UnaryPredicate) -> (r: Vec<Result<MetaVal, Error>>)
    requires
        stream_wf(s@),
    ensures
        stream_view(r@) == filtered_items(stream_view(s@), p),
        stream_wf(r@),
{
    let ghost s0 = stream_view(s@);
    let mut rest = s;
    let mut out: Vec<Result<MetaVal, Error>> = Vec::new();
    let ghost mut i: int = 0;
    proof {
        assert(s0.skip(0) =~= s0);
        assert(stream_view(out@) =~= filtered_items(s0.take(0), p));
    }
    while rest.len() > 0
        invariant
            0 <= i <= s0.len(),
            s0.len() == i + rest@.len(),
            stream_view(rest@) == s0.skip(i),
            stream_wf(rest@),
            stream_wf(out@),
            stream_view(out@) == filtered_items(s0.take(i), p),
        decreases rest.len(),
    {
        let ghost before = rest@;
        let ghost out_before = out@;
        let x = rest.remove(0);
        proof {
            lemma_stream_take_first(before, rest@, s0, i);
            assert(s0.take(i + 1).drop_last() =~= s0.take(i));
            assert(s0.take(i + 1).last() == s0[i]);
        }
        match x {
            Err(e) => {
                out.push(Err(e));
                proof {
                    assert(stream_view(out@) =~= stream_view(out_before) + seq![Err::<ValView, Error>(e)]);
                }
            },
            Ok(v) => {
                match p.process(&v) {
                    Err(e) => {
                        out.push(Err(e));
                        proof {
                            assert(stream_view(out@) =~= stream_view(out_before) + seq![Err::<ValView, Error>(e)]);
                        }
                    },
                    Ok(b) => {
                        if b {
                            out.push(Ok(v));
                            proof {
                                assert(stream_view(out@) =~= stream_view(out_before) + seq![Ok::<ValView, Error>(v@)]);
                            }
                        } else {
                            proof {
                                assert(stream_view(out@) =~= stream_view(out_before) + Seq::<Result<ValView, Error>>::empty());
                            }
                        }
                    },
                }
            },
        }
        proof {
            assert forall|k: int| 0 <= k < out@.len() implies (#[trigger] out@[k] matches Ok(w) ==> val_wf(w@)) by {
                if k < out_before.len() {
                    assert(out@[k] == out_before[k]);
                }
            }
            i = i + 1;
        }
    }
    proof {
        assert(s0.take(i) =~= s0);
    }
    out
}

/// Converts each value of a stream.
pub(crate) fn map_stream(s: Vec<Result<MetaVal, Error>>, c: UnaryConverter) -> (r: Vec<Result<MetaVal, Error>>)
    requires
        stream_wf(s@),
    ensures
        stream_view(r@) == mapped_items(stream_view(s@), c),
        stream_wf(r@),
{
    let ghost s0 = stream_view(s@);
    let mut rest = s;
    let mut out: Vec<Result<MetaVal, Error>> = Vec::new();
    let ghost mut i: int = 0;
    proof {
        assert(s0.skip(0) =~= s0);
        assert(stream_view(out@) =~= mapped_items(s0.take(0), c));
    }
    while rest.len() > 0
        invariant
            0 <= i <= s0.len(),
            s0.len() == i + rest@.len(),
            stream_view(rest@) == s0.skip(i),
            stream_wf(rest@),
            stream_wf(out@),
            stream_view(out@) == mapped_items(s0.take(i), c),
            out@.len() == i,
        decreases rest.len(),
    {
        let ghost before = rest@;
        let ghost out_before = out@;
        let x = rest.remove(0);
        proof {
            lemma_stream_take_first(before, rest@, s0, i);
        }
        let y = match x {
            Err(e) => Err(e),
            Ok(v) => c.process(v),
        };
        out.push(y);
        proof {
            assert(stream_view(out@) =~= mapped_items(s0.take(i + 1), c)) by {
                assert forall|k: int| 0 <= k < i + 1 implies stream_view(out@)[k] == mapped_items(s0.take(i + 1), c)[k] by {
                    if k < i {
                        assert(out@[k] == out_before[k]);
                        assert(stream_view(out_before)[k] == mapped_items(s0.take(i), c)[k]);
                    }
                }
            }
            assert forall|k: int| 0 <= k < out@.len() implies (#[trigger] out@[k] matches Ok(w) ==> val_wf(w@)) by {
                if k < out_before.len() {
                    assert(out@[k] == out_before[k]);
                }
            }
            i = i + 1;
        }
    }
    proof {
        assert(s0.take(i) =~= s0);
    }
    out
}

/// Keeps every `n`-th value of a stream, from the first on, and every
/// error.
pub(crate) fn step_stream(s: Vec<Result<MetaVal, Error>>, n: usize) -> (r: Vec<Result<MetaVal, Error>>)
    requires
        stream_wf(s@),
        n > 0,
    ensures
        stream_view(r@) == stepped_items(n as int, n as int, stream_view(s@)),
        stream_wf(r@),
{
    let ghost s0 = stream_view(s@);
    let mut rest = s;
    let mut out: Vec<Result<MetaVal, Error>> = Vec::new();
    let mut curr: usize = n;
    let ghost mut i: int = 0;
    proof {
        assert(s0.skip(0) =~= s0);
        assert(stream_view(out@) + stepped_items(n as int, n as int, s0) =~= stepped_items(n as int, n as int, s0));
    }
    while rest.len() > 0
        invariant
            0 <= i <= s0.len(),
            s0.len() == i + rest@.len(),
            stream_view(rest@) == s0.skip(i),
            1 <= curr <= n,
            stream_wf(rest@),
            stream_wf(out@),
            stream_view(out@) + stepped_items(curr as int, n as int, s0.skip(i)) == stepped_items(
                n as int,
                n as int,
                s0,
            ),
        decreases rest.len(),
    {
        let ghost before = rest@;
        let ghost out_before = out@;
        let x = rest.remove(0);
        proof {
            lemma_stream_take_first(before, rest@, s0, i);
        }
        match x {
            Err(e) => {
                out.push(Err(e));
                proof {
                    assert(stream_view(out@) =~= stream_view(out_before) + seq![Err::<ValView, Error>(e)]);
                }
            },
            Ok(v) => {
                if curr >= n {
                    curr = 1;
                    out.push(Ok(v));
                    proof {
                        assert(stream_view(out@) =~= stream_view(out_before) + seq![Ok::<ValView, Error>(v@)]);
                    }
                } else {
                    curr = curr + 1;
                }
            },
        }
        proof {
            assert forall|k: int| 0 <= k < out@.len() implies (#[trigger] out@[k] matches Ok(w) ==> val_wf(w@)) by {
                if k < out_before.len() {
                    assert(out@[k] == out_before[k]);
                }
            }
            i = i + 1;
        }
    }
    proof {
        assert(stream_view(out@) + Seq::<Result<ValView, Error>>::empty() =~= stream_view(out@));
    }
    out
}

/// Pairs the items of two streams, as far as the shorter goes.
pub(crate) fn zip_streams(a: Vec<Result<MetaVal, Error>>, b: Vec<Result<MetaVal, Error>>) -> (r: Vec<
    Result<MetaVal, Error>,
>)
    requires
        stream_wf(a@),
        stream_wf(b@),
    ensures
        stream_view(r@) == zipped_items(stream_view(a@), stream_view(b@)),
        stream_wf(r@),
{
    let ghost a0 = stream_view(a@);
    let ghost b0 = stream_view(b@);
    let mut rest_a = a;
    let mut rest_b = b;
    let mut out: Vec<Result<MetaVal, Error>> = Vec::new();
    let ghost mut i: int = 0;
    proof {
        assert(a0.skip(0) =~= a0);
        assert(b0.skip(0) =~= b0);
        assert(stream_view(out@) =~= zipped_items(a0.take(0), b0.take(0)));
    }
    while rest_a.len() > 0 && rest_b.len() > 0
        invariant
            0 <= i <= a0.len(),
            i <= b0.len(),
            a0.len() == i + rest_a@.len(),
            b0.len() == i + rest_b@.len(),
            stream_view(rest_a@) == a0.skip(i),
            stream_view(rest_b@) == b0.skip(i),
            stream_wf(rest_a@),
            stream_wf(rest_b@),
            stream_wf(out@),
            stream_view(out@) == zipped_items(a0.take(i), b0.take(i)),
            out@.len() == i,
        decreases rest_a.len(),
    {
        let ghost ba = rest_a@;
        let ghost bb = rest_b@;
        let ghost out_before = out@;
        let x = rest_a.remove(0);
        let y = rest_b.remove(0);
        proof {
            lemma_stream_take_first(ba, rest_a@, a0, i);
            lemma_stream_take_first(bb, rest_b@, b0, i);
        }
        let z = match (x, y) {
            (Err(e), _) => Err(e),
            (_, Err(e)) => Err(e),
            (Ok(p), Ok(q)) => {
                let pair = vec![p, q];
                proof {
                    lemma_vals_view(pair@);
                    assert(vals_view(pair@) =~= seq![pair@[0]@, pair@[1]@]);
                    crate::metadata::types::lemma_vals_wf(vals_view(pair@));
                }
                Ok(MetaVal::Sequence(pair))
            },
        };
        out.push(z);
        proof {
            assert(stream_view(out@) =~= zipped_items(a0.take(i + 1), b0.take(i + 1))) by {
                assert forall|k: int| 0 <= k < i + 1 implies stream_view(out@)[k] == zipped_items(a0.take(i + 1), b0.take(i + 1))[k] by {
                    if k < i {
                        assert(out@[k] == out_before[k]);
                        assert(stream_view(out_before)[k] == zipped_items(a0.take(i), b0.take(i))[k]);
                    }
                }
            }
            assert forall|k: int| 0 <= k < out@.len() implies (#[trigger] out@[k] matches Ok(w) ==> val_wf(w@)) by {
                if k < out_before.len() {
                    assert(out@[k] == out_before[k]);
                }
            }
            i = i + 1;
        }
    }
    proof {
        assert(zipped_items(a0.take(i), b0.take(i)) =~= zipped_items(a0, b0));
    }
    out
}

/// Drops the first `n` items of a stream, keeping their errors.
pub(crate) fn skip_stream(s: Vec<Result<MetaVal, Error>>, n: usize) -> (r: Vec<Result<MetaVal, Error>>)
    requires
        stream_wf(s@),
    ensures
        stream_view(r@) == skipped_items(stream_view(s@), n as int),
        stream_wf(r@),
{
    let ghost s0 = stream_view(s@);
    let mut rest = s;
    let mut out: Vec<Result<MetaVal, Error>> = Vec::new();
    let mut curr: usize = 0;
    proof {
        assert(s0.skip(0) =~= s0);
        assert(stream_view(out@) =~= errors_of(s0.take(0)));
    }
    while curr < n && rest.len() > 0
        invariant
            curr <= n,
            curr <= s0.len(),
            s0.len() == curr + rest@.len(),
            stream_view(rest@) == s0.skip(curr as int),
            stream_wf(rest@),
            stream_wf(out@),
            stream_view(out@) == errors_of(s0.take(curr as int)),
        decreases rest.len(),
    {
        let ghost before = rest@;
        let ghost out_before = out@;
        let x = rest.remove(0);
        proof {
            lemma_stream_take_first(before, rest@, s0, curr as int);
            assert(s0.take(curr + 1).drop_last() =~= s0.take(curr as int));
            assert(s0.take(curr + 1).last() == s0[curr as int]);
        }
        match x {
            Err(e) => {
                out.push(Err(e));
                proof {
                    assert(stream_view(out@) =~= stream_view(out_before) + seq![Err::<ValView, Error>(e)]);
                }
            },
            Ok(_) => {
                proof {
                    assert(stream_view(out@) =~= stream_view(out_before) + Seq::<Result<ValView, Error>>::empty());
                }
            },
        }
        proof {
            assert forall|k: int| 0 <= k < out@.len() implies (#[trigger] out@[k] matches Ok(w) ==> val_wf(w@)) by {
                if k < out_before.len() {
                    assert(out@[k] == out_before[k]);
                }
            }
        }
        curr = curr + 1;
    }
    let ghost out_before = out@;
    let ghost rest_before = rest@;
    out.append(&mut rest);
    proof {
        assert(stream_view(out@) =~= stream_view(out_before) + stream_view(rest_before));
        if curr < n {
            assert(s0.take(curr as int) =~= s0);
            assert(s0.skip(curr as int).len() == 0);
        } else if n < s0.len() {
            assert(curr == n);
        } else {
            assert(s0.take(curr as int) =~= s0);
        }
        assert forall|k: int| 0 <= k < out@.len() implies (#[trigger] out@[k] matches Ok(w) ==> val_wf(w@)) by {
            if k < out_before.len() {
                assert(out@[k] == out_before[k]);
            } else {
                assert(out@[k] == rest_before[k - out_before.len()]);
            }
        }
    }
    out
}

/// Keeps the first `n` items of a stream.
pub(crate) fn take_stream(s: Vec<Result<MetaVal, Error>>, n: usize) -> (r: Vec<Result<MetaVal, Error>>)
    requires
        stream_wf(s@),
    ensures
        stream_view(r@) == taken_items(stream_view(s@), n as int),
        stream_wf(r@),
{
    let ghost s0 = s@;
    let mut v = s;
    v.truncate(n);
    proof {
        if n < s0.len() {
            assert(stream_view(v@) =~= stream_view(s0).take(n as int));
        }
        assert forall|k: int| 0 <= k < v@.len() implies (#[trigger] v@[k] matches Ok(w) ==> val_wf(w@)) by {
            assert(v@[k] == s0[k]);
        }
    }
    v
}

impl StreamAdaptor {
    /// The next item; the stream is left with the items after it. `None`
    /// once no item is left, and the stream then stays empty.
    pub fn next(&mut self) -> (r: Option<Result<MetaVal, Error>>)
        requires
            adaptor_wf(*old(self)),
        ensures
            adaptor_wf(*final(self)),
            items(*old(self)).len() == 0 ==> r is None && items(*final(self)).len() == 0,
            items(*old(self)).len() > 0 ==> (r matches Some(x) && result_view(x) == items(*old(self))[0] && items(
                *final(self),
            ) == items(*old(self)).drop_first()),
            r matches Some(Ok(v)) ==> val_wf(v@),
    {
        let mut taken = StreamAdaptor::Raw(Vec::new());
        core::mem::swap(self, &mut taken);
        let mut rest = taken.into_items();
        if rest.len() == 0 {
            *self = StreamAdaptor::Raw(rest);
            None
        } else {
            let ghost before = rest@;
            let x = rest.remove(0);
            proof {
                assert(stream_view(rest@) =~= stream_view(before).drop_first());
                assert(stream_view(before)[0] == result_view(x));
                assert(before[0] == x);
            }
            *self = StreamAdaptor::Raw(rest);
            Some(x)
        }
    }

    /// The items that this stream yields, in order.
    pub fn into_items(self) -> (r: Vec<Result<MetaVal, Error>>)
        requires
            adaptor_wf(self),
        ensures
            stream_view(r@) == items(self),
            stream_wf(r@),
        decreases self,
    {
        match self {
            StreamAdaptor::Raw(v) => v,
            StreamAdaptor::Fixed(v) => ok_values(v),
            StreamAdaptor::Flatten(a) => flatten_stream((*a.0).into_items()),
            StreamAdaptor::Dedup(a) => dedup_stream((*a.0).into_items()),
            StreamAdaptor::Unique(a) => unique_stream((*a.0).into_items()),
            StreamAdaptor::Filter(a) => filter_stream((*a.0).into_items(), a.1),
            StreamAdaptor::MapEach(a) => map_stream((*a.0).into_items(), a.1),
            StreamAdaptor::StepBy(a) => step_stream((*a.stream).into_items(), a.n),
            StreamAdaptor::Chain(a) => {
                let mut first = (*a.0).into_items();
                let mut second = (*a.1).into_items();
                let ghost f = first@;
                let ghost g = second@;
                first.append(&mut second);
                proof {
                    assert(stream_view(first@) =~= stream_view(f) + stream_view(g));
                    assert forall|k: int| 0 <= k < first@.len() implies (#[trigger] first@[k] matches Ok(w) ==> val_wf(w@)) by {
                        if k < f.len() {
                            assert(first@[k] == f[k]);
                        } else {
                            assert(first@[k] == g[k - f.len()]);
                        }
                    }
                }
                first
            },
            StreamAdaptor::Zip(a) => zip_streams((*a.0).into_items(), (*a.1).into_items()),
        }
    }
}

impl FlattenAdaptor {
    /// Flattens a stream.
    pub fn new(s: StreamAdaptor) -> (r: Self)
        ensures
            *r.0 == s,
    {
        FlattenAdaptor(Box::new(s))
    }
}

impl DedupAdaptor {
    /// Removes the repeats of a stream.
    pub fn new(s: StreamAdaptor) -> (r: Self)
        ensures
            *r.0 == s,
    {
        DedupAdaptor(Box::new(s))
    }
}

impl UniqueAdaptor {
    /// Keeps the first occurrence of each value of a stream.
    pub fn new(s: StreamAdaptor) -> (r: Self)
        ensures
            *r.0 == s,
    {
        UniqueAdaptor(Box::new(s))
    }
}

impl FilterAdaptor {
    /// Filters a stream by a predicate.
    pub fn new(s: StreamAdaptor, pred: UnaryPredicate) -> (r: Self)
        ensures
            *r.0 == s,
            r.1 == pred,
    {
        FilterAdaptor(Box::new(s), pred)
    }
}

impl MapAdaptor {
    /// Converts the values of a stream.
    pub fn new(s: StreamAdaptor, conv: UnaryConverter) -> (r: Self)
        ensures
            *r.0 == s,
            r.1 == conv,
    {
        MapAdaptor(Box::new(s), conv)
    }
}

impl StepByAdaptor {
    /// Steps through a stream by `n`; `ZeroStepSize` for a step of zero.
    pub fn new(s: StreamAdaptor, n: usize) -> (r: Result<Self, Error>)
        ensures
            n == 0 ==> r matches Err(Error::ZeroStepSize),
            n > 0 ==> (r matches Ok(a) && *a.stream == s && a.n == n),
    {
        if n == 0 {
            Err(Error::ZeroStepSize)
        } else {
            Ok(StepByAdaptor { stream: Box::new(s), n })
        }
    }
}

impl ChainAdaptor {
    /// Chains two streams.
    pub fn new(sa_a: StreamAdaptor, sa_b: StreamAdaptor) -> (r: Self)
        ensures
            *r.0 == sa_a,
            *r.1 == sa_b,
    {
        ChainAdaptor(Box::new(sa_a), Box::new(sa_b))
    }
}

impl ZipAdaptor {
    /// Zips two streams.
    pub fn new(s_a: StreamAdaptor, s_b: StreamAdaptor) -> (r: Self)
        ensures
            *r.0 == s_a,
            *r.1 == s_b,
    {
        ZipAdaptor(Box::new(s_a), Box::new(s_b))
    }
}

impl SkipAdaptor {
    /// Skips the first `n` items of a stream.
    pub fn new(s: StreamAdaptor, n: usize) -> (r: Self)
        ensures
            *r.it == s,
            r.n == n,
    {
        SkipAdaptor { it: Box::new(s), n }
    }

    /// The items that this stream yields: the errors among the first `n`
    /// items, then the items after them.
    pub fn into_items(self) -> (r: Vec<Result<MetaVal, Error>>)
        requires
            adaptor_wf(*self.it),
        ensures
            stream_view(r@) == skipped_items(items(*self.it), self.n as int),
            stream_wf(r@),
    {
        skip_stream((*self.it).into_items(), self.n)
    }
}

impl TakeAdaptor {
    /// Keeps the first `n` items of a stream.
    pub fn new(s: StreamAdaptor, n: usize) -> (r: Self)
        ensures
            *r.it == s,
            r.n == n,
    {
        TakeAdaptor { it: Box::new(s), n }
    }

    /// The items that this stream yields: its first `n`.
    pub fn into_items(self) -> (r: Vec<Result<MetaVal, Error>>)
        requires
            adaptor_wf(*self.it),
        ensures
            stream_view(r@) == taken_items(items(*self.it), self.n as int),
            stream_wf(r@),
    {
        take_stream((*self.it).into_items(), self.n)
    }
}

} // verus!
