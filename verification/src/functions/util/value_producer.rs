//! Producers of values: sources of values, and the adaptors that the
//! operand stack builds over them.
//!
//! A producer is finite and every adaptor is a function of the items it
//! reads, so a producer is described by the items it yields, and evaluated
//! into them in one pass.

use vstd::prelude::*;

use crate::functions::Error;
use crate::functions::op::operator::{UnaryConverter, UnaryPredicate, as_predicate};
use crate::functions::operator::unary::predicate::predicate_result;
use crate::functions::util::stream_adaptor::{
    deduped_items,
    filter_stream,
    filtered_items,
    map_stream,
    mapped_items,
    dedup_stream,
    flatten_stream,
    flattened_items,
    skip_stream,
    skipped_items,
    step_stream,
    stepped_items,
    take_stream,
    taken_items,
    unique_items,
    unique_stream,
    zip_streams,
    zipped_items,
};
use crate::functions::util::value_seq::{
    flattened,
    lemma_stream_take_first,
    ok_stream,
    ok_values,
    result_view,
    stream_view,
    stream_wf,
};
use crate::metadata::types::{MetaVal, ValView, val_wf, vals_view};

verus! {

/// A producer of values.
pub enum ValueProducer {
    Source(Source),
    Fixed(Fixed),
    Raw(Raw),
    Flatten(Flatten),
    Dedup(Dedup),
    Unique(Unique),
    Filter(Filter),
    MapEach(MapEach),
    StepBy(StepBy),
    Chain(Chain),
    Zip(Zip),
    Skip(Skip),
    Take(Take),
    SkipWhile(SkipWhile),
    TakeWhile(TakeWhile),
    Intersperse(Intersperse),
    Interleave(Interleave),
}

/// The values read from a stream of metadata values, with the errors met.
pub struct Source(pub Vec<Result<MetaVal, Error>>);

/// The values of a sequence.
pub struct Fixed(pub Vec<MetaVal>);

/// Given items, values and errors.
pub struct Raw(pub Vec<Result<MetaVal, Error>>);

/// Splices the elements of the sequences of a producer into it.
pub struct Flatten(pub Box<ValueProducer>);

/// Drops each value that equals the last value yielded.
pub struct Dedup(pub Box<ValueProducer>);

/// Drops each value that equals a value yielded before.
pub struct Unique(pub Box<ValueProducer>);

/// Keeps the values for which a predicate holds, and every error.
pub struct Filter(pub Box<ValueProducer>, pub UnaryPredicate);

/// Converts each value.
pub struct MapEach(pub Box<ValueProducer>, pub UnaryConverter);

/// Drops the values before the first for which a predicate fails.
pub struct SkipWhile(pub Box<ValueProducer>, pub UnaryPredicate);

/// Keeps the values before the first for which a predicate fails.
pub struct TakeWhile(pub Box<ValueProducer>, pub UnaryPredicate);

/// Keeps every `n`-th value, from the first on, and every error.
pub struct StepBy {
    pub vp: Box<ValueProducer>,
    pub n: usize,
}

/// The items of one producer, then those of another.
pub struct Chain(pub Box<ValueProducer>, pub Box<ValueProducer>);

/// Pairs of the items of two producers, as far as the shorter goes.
pub struct Zip(pub Box<ValueProducer>, pub Box<ValueProducer>);

/// Drops the first `n` items, but for their errors.
pub struct Skip {
    pub vp: Box<ValueProducer>,
    pub n: usize,
}

/// Keeps the first `n` items.
pub struct Take {
    pub vp: Box<ValueProducer>,
    pub n: usize,
}

/// Follows each item with a copy of a value.
pub struct Intersperse(pub Box<ValueProducer>, pub MetaVal);

/// The items of two producers in turn, from the first, until the one whose
/// turn it is has none left.
pub struct Interleave(pub Box<ValueProducer>, pub Box<ValueProducer>);

/// The items of a stream, each followed by a value.
pub open spec fn interspersed_items(s: Seq<Result<ValView, Error>>, sep: ValView) -> Seq<
    Result<ValView, Error>,
>
    decreases s.len(),
{
    if s.len() == 0 {
        Seq::empty()
    } else {
        interspersed_items(s.drop_last(), sep) + seq![s.last(), Ok(sep)]
    }
}

/// The items of two streams in turn, from the first, until the stream
/// whose turn it is has none left.
pub open spec fn interleaved_items(a: Seq<Result<ValView, Error>>, b: Seq<Result<ValView, Error>>) -> Seq<
    Result<ValView, Error>,
>
    decreases a.len(),
{
    if a.len() == 0 {
        Seq::empty()
    } else if b.len() == 0 {
        seq![a[0]]
    } else {
        seq![a[0], b[0]] + interleaved_items(a.drop_first(), b.drop_first())
    }
}

/// The items of a stream from the first value for which a predicate fails
/// on: the values before it are dropped, the errors met there kept.
pub open spec fn skipped_while_items(s: Seq<Result<ValView, Error>>, p: UnaryPredicate) -> Seq<
    Result<ValView, Error>,
>
    decreases s.len(),
{
    if s.len() == 0 {
        Seq::empty()
    } else {
        match s[0] {
            Err(e) => seq![Err(e)] + skipped_while_items(s.drop_first(), p),
            Ok(v) => match predicate_result(as_predicate(p), v) {
                Err(e) => seq![Err(e)] + skipped_while_items(s.drop_first(), p),
                Ok(true) => skipped_while_items(s.drop_first(), p),
                Ok(false) => s,
            },
        }
    }
}

/// The items of a stream up to the first value for which a predicate
/// fails, that value left out; the errors met on the way are kept.
pub open spec fn taken_while_items(s: Seq<Result<ValView, Error>>, p: UnaryPredicate) -> Seq<
    Result<ValView, Error>,
>
    decreases s.len(),
{
    if s.len() == 0 {
        Seq::empty()
    } else {
        match s[0] {
            Err(e) => seq![Err(e)] + taken_while_items(s.drop_first(), p),
            Ok(v) => match predicate_result(as_predicate(p), v) {
                Err(e) => seq![Err(e)] + taken_while_items(s.drop_first(), p),
                Ok(true) => seq![Ok(v)] + taken_while_items(s.drop_first(), p),
                Ok(false) => Seq::empty(),
            },
        }
    }
}

/// The items that a producer yields.
pub open spec fn produced(vp: ValueProducer) -> Seq<Result<ValView, Error>>
    decreases vp,
{
    match vp {
        ValueProducer::Source(s) => stream_view(s.0@),
        ValueProducer::Fixed(f) => ok_stream(vals_view(f.0@)),
        ValueProducer::Raw(r) => stream_view(r.0@),
        ValueProducer::Flatten(a) => flattened_items(produced(*a.0)),
        ValueProducer::Dedup(a) => deduped_items(None, produced(*a.0)),
        ValueProducer::Unique(a) => unique_items(Seq::empty(), produced(*a.0)),
        ValueProducer::Filter(a) => filtered_items(produced(*a.0), a.1),
        ValueProducer::MapEach(a) => mapped_items(produced(*a.0), a.1),
        ValueProducer::StepBy(a) => stepped_items(a.n as int, a.n as int, produced(*a.vp)),
        ValueProducer::Chain(a) => produced(*a.0) + produced(*a.1),
        ValueProducer::Zip(a) => zipped_items(produced(*a.0), produced(*a.1)),
        ValueProducer::Skip(a) => skipped_items(produced(*a.vp), a.n as int),
        ValueProducer::Take(a) => taken_items(produced(*a.vp), a.n as int),
        ValueProducer::SkipWhile(a) => skipped_while_items(produced(*a.0), a.1),
        ValueProducer::TakeWhile(a) => taken_while_items(produced(*a.0), a.1),
        ValueProducer::Intersperse(a) => interspersed_items(produced(*a.0), a.1@),
        ValueProducer::Interleave(a) => interleaved_items(produced(*a.0), produced(*a.1)),
    }
}

/// Whether the sources of a producer hold well-formed values, and its steps
/// are positive.
pub open spec fn producer_wf(vp: ValueProducer) -> bool
    decreases vp,
{
    match vp {
        ValueProducer::Source(s) => stream_wf(s.0@),
        ValueProducer::Fixed(f) => forall|k: int| 0 <= k < f.0@.len() ==> val_wf(#[trigger] f.0@[k]@),
        ValueProducer::Raw(r) => stream_wf(r.0@),
        ValueProducer::Flatten(a) => producer_wf(*a.0),
        ValueProducer::Dedup(a) => producer_wf(*a.0),
        ValueProducer::Unique(a) => producer_wf(*a.0),
        ValueProducer::Filter(a) => producer_wf(*a.0),
        ValueProducer::MapEach(a) => producer_wf(*a.0),
        ValueProducer::StepBy(a) => a.n > 0 && producer_wf(*a.vp),
        ValueProducer::Chain(a) => producer_wf(*a.0) && producer_wf(*a.1),
        ValueProducer::Zip(a) => producer_wf(*a.0) && producer_wf(*a.1),
        ValueProducer::Skip(a) => producer_wf(*a.vp),
        ValueProducer::Take(a) => producer_wf(*a.vp),
        ValueProducer::SkipWhile(a) => producer_wf(*a.0),
        ValueProducer::TakeWhile(a) => producer_wf(*a.0),
        ValueProducer::Intersperse(a) => producer_wf(*a.0) && val_wf(a.1@),
        ValueProducer::Interleave(a) => producer_wf(*a.0) && producer_wf(*a.1),
    }
}

/// Follows each item of a stream with a copy of a value.
fn intersperse_stream(s: Vec<Result<MetaVal, Error>>, sep: MetaVal) -> (r: Vec<Result<MetaVal, Error>>)
    requires
        stream_wf(s@),
        val_wf(sep@),
    ensures
        stream_view(r@) == interspersed_items(stream_view(s@), sep@),
        stream_wf(r@),
{
    let ghost s0 = stream_view(s@);
    let mut rest = s;
    let mut out: Vec<Result<MetaVal, Error>> = Vec::new();
    let ghost mut i: int = 0;
    proof {
        assert(s0.skip(0) =~= s0);
        assert(stream_view(out@) =~= interspersed_items(s0.take(0), sep@));
    }
    while rest.len() > 0
        invariant
            0 <= i <= s0.len(),
            s0.len() == i + rest@.len(),
            stream_view(rest@) == s0.skip(i),
            stream_wf(rest@),
            stream_wf(out@),
            val_wf(sep@),
            stream_view(out@) == interspersed_items(s0.take(i), sep@),
        decreases rest.len(),
    {
        let ghost before = rest@;
        let ghost out_before = out@;
        let x = rest.remove(0);
        proof {
            lemma_stream_take_first(before, rest@, s0, i);
            assert(s0.take(i + 1).drop_last() =~= s0.take(i));
            assert(s0.take(i + 1).last() == s0[i]);
        }
        out.push(x);
        out.push(Ok(sep.deep_copy()));
        proof {
            assert(stream_view(out@) =~= stream_view(out_before) + seq![s0[i], Ok::<ValView, Error>(sep@)]);
            assert forall|k: int| 0 <= k < out@.len() implies (#[trigger] out@[k] matches Ok(w) ==> val_wf(w@)) by {
                if k < out_before.len() {
                    assert(out@[k] == out_before[k]);
                }
            }
            i = i + 1;
        }
    }
    proof {
        assert(s0.take(i) =~= s0);
    }
    out
}

/// The items of two streams in turn, from the first.
fn interleave_streams(a: Vec<Result<MetaVal, Error>>, b: Vec<Result<MetaVal, Error>>) -> (r: Vec<
    Result<MetaVal, Error>,
>)
    requires
        stream_wf(a@),
        stream_wf(b@),
    ensures
        stream_view(r@) == interleaved_items(stream_view(a@), stream_view(b@)),
        stream_wf(r@),
{
    let ghost a0 = stream_view(a@);
    let ghost b0 = stream_view(b@);
    let mut rest_a = a;
    let mut rest_b = b;
    let mut out: Vec<Result<MetaVal, Error>> = Vec::new();
    let ghost mut i: int = 0;
    proof {
        assert(a0.skip(0) =~= a0);
        assert(b0.skip(0) =~= b0);
        assert(stream_view(out@) + interleaved_items(a0, b0) =~= interleaved_items(a0, b0));
    }
    while rest_a.len() > 0
        invariant
            a0 == stream_view(a@),
            b0 == stream_view(b@),
            0 <= i <= a0.len(),
            i <= b0.len(),
            a0.len() == i + rest_a@.len(),
            b0.len() == i + rest_b@.len(),
            stream_view(rest_a@) == a0.skip(i),
            stream_view(rest_b@) == b0.skip(i),
            stream_wf(rest_a@),
            stream_wf(rest_b@),
            stream_wf(out@),
            stream_view(out@) + interleaved_items(a0.skip(i), b0.skip(i)) == interleaved_items(a0, b0),
        decreases rest_a.len(),
    {
        let ghost ba = rest_a@;
        let ghost bb = rest_b@;
        let ghost out_before = out@;
        let x = rest_a.remove(0);
        proof {
            lemma_stream_take_first(ba, rest_a@, a0, i);
        }
        out.push(x);
        if rest_b.len() == 0 {
            proof {
                assert(b0.skip(i).len() == 0);
                assert(stream_view(out@) =~= stream_view(out_before) + interleaved_items(a0.skip(i), b0.skip(i)));
                assert forall|k: int| 0 <= k < out@.len() implies (#[trigger] out@[k] matches Ok(w) ==> val_wf(w@)) by {
                    if k < out_before.len() {
                        assert(out@[k] == out_before[k]);
                    }
                }
            }
            return out;
        }
        let y = rest_b.remove(0);
        proof {
            lemma_stream_take_first(bb, rest_b@, b0, i);
        }
        out.push(y);
        proof {
            assert(stream_view(out@) + interleaved_items(a0.skip(i + 1), b0.skip(i + 1)) =~= stream_view(
                out_before,
            ) + interleaved_items(a0.skip(i), b0.skip(i)));
            assert forall|k: int| 0 <= k < out@.len() implies (#[trigger] out@[k] matches Ok(w) ==> val_wf(w@)) by {
                if k < out_before.len() {
                    assert(out@[k] == out_before[k]);
                }
            }
            i = i + 1;
        }
    }
    proof {
        assert(a0.skip(i).len() == 0);
        assert(stream_view(out@) + interleaved_items(a0.skip(i), b0.skip(i)) =~= stream_view(out@));
    }
    out
}

/// Drops the values of a stream before the first for which a predicate
/// fails, keeping the errors met there.
fn skip_while_stream(s: Vec<Result<MetaVal, Error>>, p: UnaryPredicate) -> (r: Vec<Result<MetaVal, Error>>)
    requires
        stream_wf(s@),
    ensures
        stream_view(r@) == skipped_while_items(stream_view(s@), p),
        stream_wf(r@),
{
    let ghost s0 = stream_view(s@);
    let mut rest = s;
    let mut out: Vec<Result<MetaVal, Error>> = Vec::new();
    let ghost mut i: int = 0;
    proof {
        assert(s0.skip(0) =~= s0);
        assert(stream_view(out@) + skipped_while_items(s0, p) =~= skipped_while_items(s0, p));
    }
    while rest.len() > 0
        invariant
            s0 == stream_view(s@),
            0 <= i <= s0.len(),
            s0.len() == i + rest@.len(),
            stream_view(rest@) == s0.skip(i),
            stream_wf(rest@),
            stream_wf(out@),
            stream_view(out@) + skipped_while_items(s0.skip(i), p) == skipped_while_items(s0, p),
        decreases rest.len(),
    {
        let ghost before = rest@;
        let ghost out_before = out@;
        let x = rest.remove(0);
        proof {
            lemma_stream_take_first(before, rest@, s0, i);
        }
        match x {
            Err(e) => {
                out.push(Err(e));
                proof {
                    assert(stream_view(out@) =~= stream_view(out_before) + seq![Err::<ValView, Error>(e)]);
                }
            },
            Ok(v) => {
                match p.process(&v) {
                    Err(e) => {
                        out.push(Err(e));
                        proof {
                            assert(stream_view(out@) =~= stream_view(out_before) + seq![Err::<ValView, Error>(e)]);
                        }
                    },
                    Ok(b) => {
                        if !b {
                            let ghost tail = rest@;
                            out.push(Ok(v));
                            out.append(&mut rest);
                            proof {
                                assert(stream_view(out@) =~= stream_view(out_before) + s0.skip(i));
                                assert forall|k: int| 0 <= k < out@.len() implies (#[trigger] out@[k] matches Ok(w) ==> val_wf(w@)) by {
                                    if k < out_before.len() {
                                        assert(out@[k] == out_before[k]);
                                    } else if k > out_before.len() {
                                        assert(out@[k] == tail[k - out_before.len() - 1]);
                                    }
                                }
                            }
                            return out;
                        }
                    },
                }
            },
        }
        proof {
            assert forall|k: int| 0 <= k < out@.len() implies (#[trigger] out@[k] matches Ok(w) ==> val_wf(w@)) by {
                if k < out_before.len() {
                    assert(out@[k] == out_before[k]);
                }
            }
            i = i + 1;
        }
    }
    proof {
        assert(s0.skip(i).len() == 0);
        assert(stream_view(out@) + skipped_while_items(s0.skip(i), p) =~= stream_view(out@));
    }
    out
}

/// Keeps the values of a stream before the first for which a predicate
/// fails, with the errors met on the way.
fn take_while_stream(s: Vec<Result<MetaVal, Error>>, p: UnaryPredicate) -> (r: Vec<Result<MetaVal, Error>>)
    requires
        stream_wf(s@),
    ensures
        stream_view(r@) == taken_while_items(stream_view(s@), p),
        stream_wf(r@),
{
    let ghost s0 = stream_view(s@);
    let mut rest = s;
    let mut out: Vec<Result<MetaVal, Error>> = Vec::new();
    let ghost mut i: int = 0;
    proof {
        assert(s0.skip(0) =~= s0);
        assert(stream_view(out@) + taken_while_items(s0, p) =~= taken_while_items(s0, p));
    }
    while rest.len() > 0
        invariant
            s0 == stream_view(s@),
            0 <= i <= s0.len(),
            s0.len() == i + rest@.len(),
            stream_view(rest@) == s0.skip(i),
            stream_wf(rest@),
            stream_wf(out@),
            stream_view(out@) + taken_while_items(s0.skip(i), p) == taken_while_items(s0, p),
        decreases rest.len(),
    {
        let ghost before = rest@;
        let ghost out_before = out@;
        let x = rest.remove(0);
        proof {
            lemma_stream_take_first(before, rest@, s0, i);
        }
        let y = match x {
            Err(e) => Err(e),
            Ok(v) => match p.process(&v) {
                Err(e) => Err(e),
                Ok(b) => {
                    if !b {
                        proof {
                            assert(stream_view(out@) + Seq::<Result<ValView, Error>>::empty() =~= stream_view(out@));
                        }
                        return out;
                    }
                    Ok(v)
                },
            },
        };
        out.push(y);
        proof {
            assert(stream_view(out@) =~= stream_view(out_before) + seq![result_view(y)]);
            assert forall|k: int| 0 <= k < out@.len() implies (#[trigger] out@[k] matches Ok(w) ==> val_wf(w@)) by {
                if k < out_before.len() {
                    assert(out@[k] == out_before[k]);
                }
            }
            i = i + 1;
        }
    }
    proof {
        assert(s0.skip(i).len() == 0);
        assert(stream_view(out@) + taken_while_items(s0.skip(i), p) =~= stream_view(out@));
    }
    out
}

/// The index law of interspersing a stream, at one position.
proof fn lemma_interspersed_item_at(s: Seq<Result<ValView, Error>>, sep: ValView, k: int)
    requires
        0 <= k < s.len(),
    ensures
        interspersed_items(s, sep).len() == 2 * s.len(),
        interspersed_items(s, sep)[2 * k] == s[k],
        interspersed_items(s, sep)[2 * k + 1] == Ok::<ValView, Error>(sep),
    decreases s.len(),
{
    let d = s.drop_last();
    let r = interspersed_items(s, sep);
    let rd = interspersed_items(d, sep);
    lemma_interspersed_len(d, sep);
    assert(r == rd + seq![s.last(), Ok::<ValView, Error>(sep)]);
    if k < d.len() {
        lemma_interspersed_item_at(d, sep, k);
        assert(r[2 * k] == rd[2 * k]);
        assert(r[2 * k + 1] == rd[2 * k + 1]);
        assert(d[k] == s[k]);
    } else {
        assert(2 * k == rd.len());
    }
}

/// Interspersing doubles the number of items.
proof fn lemma_interspersed_len(s: Seq<Result<ValView, Error>>, sep: ValView)
    ensures
        interspersed_items(s, sep).len() == 2 * s.len(),
    decreases s.len(),
{
    if s.len() > 0 {
        lemma_interspersed_len(s.drop_last(), sep);
    }
}

/// The index law of interspersing a stream.
proof fn lemma_interspersed_items_at(s: Seq<Result<ValView, Error>>, sep: ValView)
    ensures
        interspersed_items(s, sep).len() == 2 * s.len(),
        forall|k: int|
            0 <= k < s.len() ==> interspersed_items(s, sep)[2 * k] == #[trigger] s[k] && interspersed_items(
                s,
                sep,
            )[2 * k + 1] == Ok::<ValView, Error>(sep),
{
    lemma_interspersed_len(s, sep);
    assert forall|k: int| 0 <= k < s.len() implies interspersed_items(s, sep)[2 * k] == #[trigger] s[k]
        && interspersed_items(s, sep)[2 * k + 1] == Ok::<ValView, Error>(sep) by {
        lemma_interspersed_item_at(s, sep, k);
    }
}

/// The index law of interleaving two streams.
proof fn lemma_interleaved_items_at(a: Seq<Result<ValView, Error>>, b: Seq<Result<ValView, Error>>)
    ensures
        interleaved_items(a, b).len() == if a.len() > b.len() {
            2 * b.len() + 1
        } else {
            2 * a.len()
        },
        forall|k: int|
            0 <= k < a.len() && k < b.len() ==> interleaved_items(a, b)[2 * k] == #[trigger] a[k]
                && interleaved_items(a, b)[2 * k + 1] == b[k],
        a.len() > b.len() ==> interleaved_items(a, b)[2 * (b.len() as int)] == a[b.len() as int],
    decreases a.len(),
{
    if a.len() > 0 && b.len() > 0 {
        let a1 = a.drop_first();
        let b1 = b.drop_first();
        lemma_interleaved_items_at(a1, b1);
        let r = interleaved_items(a, b);
        let r1 = interleaved_items(a1, b1);
        assert(r == seq![a[0], b[0]] + r1);
        assert forall|k: int| 0 <= k < a.len() && k < b.len() implies r[2 * k] == #[trigger] a[k] && r[2 * k
            + 1] == b[k] by {
            if k > 0 {
                assert(r[2 * k] == r1[2 * (k - 1)]);
                assert(r[2 * k + 1] == r1[2 * (k - 1) + 1]);
                assert(a1[k - 1] == a[k] && b1[k - 1] == b[k]);
            }
        }
        if a.len() > b.len() {
            assert(r[2 * (b.len() as int)] == r1[2 * (b1.len() as int)]);
            assert(a1[b1.len() as int] == a[b.len() as int]);
        }
    }
}

/// An interspersing producer yields each item of its source followed by
/// the separator: twice as many items, the source's items in order at the
/// even positions, the separator at the odd ones.
pub proof fn lemma_intersperse_yields(p: ValueProducer, sep: MetaVal)
    ensures
        ({
            let s = produced(p);
            let r = produced(ValueProducer::Intersperse(Intersperse(Box::new(p), sep)));
            &&& r.len() == 2 * s.len()
            &&& forall|k: int|
                0 <= k < s.len() ==> r[2 * k] == #[trigger] s[k] && r[2 * k + 1] == Ok::<ValView, Error>(sep@)
        }),
{
    lemma_interspersed_items_at(produced(p), sep@);
}

/// An interleaving producer yields the items of its two sources in turn,
/// starting with the first source, until the source whose turn it is has
/// none left: the first's items at the even positions, the second's at
/// the odd ones.
pub proof fn lemma_interleave_yields(a: ValueProducer, b: ValueProducer)
    ensures
        ({
            let x = produced(a);
            let y = produced(b);
            let r = produced(ValueProducer::Interleave(Interleave(Box::new(a), Box::new(b))));
            &&& r.len() == if x.len() > y.len() {
                2 * y.len() + 1
            } else {
                2 * x.len()
            }
            &&& forall|k: int| 0 <= k < x.len() && k < y.len() ==> r[2 * k] == #[trigger] x[k] && r[2 * k + 1] == y[k]
            &&& x.len() > y.len() ==> r[2 * (y.len() as int)] == x[y.len() as int]
        }),
{
    lemma_interleaved_items_at(produced(a), produced(b));
}

/// A flattening producer splices in the elements of each sequence value
/// it reads and passes every other item on; on a stream without errors it
/// yields what flattening the values gives.
pub proof fn lemma_flatten_yields(p: ValueProducer)
    ensures
        produced(ValueProducer::Flatten(Flatten(Box::new(p)))) == flattened_items(produced(p)),
        forall|xs: Seq<ValView>| #[trigger] flattened_items(ok_stream(xs)) == ok_stream(flattened(xs)),
{
    assert forall|xs: Seq<ValView>| #[trigger] flattened_items(ok_stream(xs)) == ok_stream(flattened(xs)) by {
        lemma_flattened_items_ok(xs);
    }
}

/// Flattening a stream without errors agrees with flattening its values.
proof fn lemma_flattened_items_ok(xs: Seq<ValView>)
    ensures
        flattened_items(ok_stream(xs)) == ok_stream(flattened(xs)),
    decreases xs.len(),
{
    if xs.len() > 0 {
        let d = xs.drop_last();
        lemma_flattened_items_ok(d);
        assert(ok_stream(xs).drop_last() =~= ok_stream(d));
        assert(ok_stream(xs).last() == Ok::<ValView, Error>(xs.last()));
        match xs.last() {
            ValView::Sequence(ys) => {
                assert(ok_stream(flattened(d) + ys) =~= ok_stream(flattened(d)) + ok_stream(ys));
            },
            other => {
                assert(ok_stream(flattened(d) + seq![other]) =~= ok_stream(flattened(d)) + seq![
                    Ok::<ValView, Error>(other),
                ]);
            },
        }
    } else {
        assert(ok_stream(xs) =~= Seq::<Result<ValView, Error>>::empty());
        assert(ok_stream(flattened(xs)) =~= Seq::<Result<ValView, Error>>::empty());
    }
}

impl ValueProducer {
    /// The next item; the producer is left with the items after it. `None`
    /// once no item is left, and the producer then stays empty.
    pub fn next(&mut self) -> (r: Option<Result<MetaVal, Error>>)
        requires
            producer_wf(*old(self)),
        ensures
            producer_wf(*final(self)),
            produced(*old(self)).len() == 0 ==> r is None && produced(*final(self)).len() == 0,
            produced(*old(self)).len() > 0 ==> (r matches Some(x) && result_view(x) == produced(*old(self))[0]
                && produced(*final(self)) == produced(*old(self)).drop_first()),
            r matches Some(Ok(v)) ==> val_wf(v@),
    {
        let mut taken = ValueProducer::Raw(Raw(Vec::new()));
        core::mem::swap(self, &mut taken);
        let mut items = taken.into_items();
        if items.len() == 0 {
            *self = ValueProducer::Raw(Raw(items));
            None
        } else {
            let ghost before = items@;
            let x = items.remove(0);
            proof {
                assert(stream_view(items@) =~= stream_view(before).drop_first());
                assert(stream_view(before)[0] == result_view(x));
                assert(before[0] == x);
            }
            *self = ValueProducer::Raw(Raw(items));
            Some(x)
        }
    }

    /// A producer of the values of a sequence.
    pub fn fixed(v: Vec<MetaVal>) -> (r: Self)
        ensures
            r == ValueProducer::Fixed(Fixed(v)),
    {
        ValueProducer::Fixed(Fixed::new(v))
    }

    /// A producer of given items.
    pub fn raw(v: Vec<Result<MetaVal, Error>>) -> (r: Self)
        ensures
            r == ValueProducer::Raw(Raw(v)),
    {
        ValueProducer::Raw(Raw::new(v))
    }

    /// The items that this producer yields, in order.
    pub fn into_items(self) -> (r: Vec<Result<MetaVal, Error>>)
        requires
            producer_wf(self),
        ensures
            stream_view(r@) == produced(self),
            stream_wf(r@),
        decreases self,
    {
        match self {
            ValueProducer::Source(s) => s.0,
            ValueProducer::Fixed(f) => ok_values(f.0),
            ValueProducer::Raw(r) => r.0,
            ValueProducer::Flatten(a) => flatten_stream((*a.0).into_items()),
            ValueProducer::Dedup(a) => dedup_stream((*a.0).into_items()),
            ValueProducer::Unique(a) => unique_stream((*a.0).into_items()),
            ValueProducer::Filter(a) => filter_stream((*a.0).into_items(), a.1),
            ValueProducer::MapEach(a) => map_stream((*a.0).into_items(), a.1),
            ValueProducer::StepBy(a) => step_stream((*a.vp).into_items(), a.n),
            ValueProducer::Chain(a) => {
                let mut first = (*a.0).into_items();
                let mut second = (*a.1).into_items();
                let ghost f = first@;
                let ghost g = second@;
                first.append(&mut second);
                proof {
                    assert(stream_view(first@) =~= stream_view(f) + stream_view(g));
                    assert forall|k: int| 0 <= k < first@.len() implies (#[trigger] first@[k] matches Ok(w) ==> val_wf(w@)) by {
                        if k < f.len() {
                            assert(first@[k] == f[k]);
                        } else {
                            assert(first@[k] == g[k - f.len()]);
                        }
                    }
                }
                first
            },
            ValueProducer::Zip(a) => zip_streams((*a.0).into_items(), (*a.1).into_items()),
            ValueProducer::Skip(a) => skip_stream((*a.vp).into_items(), a.n),
            ValueProducer::Take(a) => take_stream((*a.vp).into_items(), a.n),
            ValueProducer::SkipWhile(a) => skip_while_stream((*a.0).into_items(), a.1),
            ValueProducer::TakeWhile(a) => take_while_stream((*a.0).into_items(), a.1),
            ValueProducer::Intersperse(a) => intersperse_stream((*a.0).into_items(), a.1),
            ValueProducer::Interleave(a) => interleave_streams(
                (*a.0).into_items(),
                (*a.1).into_items(),
            ),
        }
    }
}

impl Source {
    /// A source of the items read from a stream of metadata values.
    pub fn new(items: Vec<Result<MetaVal, Error>>) -> (r: Self)
        ensures
            r.0 == items,
    {
        Source(items)
    }
}

impl Fixed {
    /// A source of the values of a sequence.
    pub fn new(v: Vec<MetaVal>) -> (r: Self)
        ensures
            r.0 == v,
    {
        Fixed(v)
    }
}

impl Flatten {
    /// Splices the elements of the sequences of a producer into it.
    pub fn new(vp: ValueProducer) -> (r: Self)
        ensures
            *r.0 == vp,
    {
        Flatten(Box::new(vp))
    }
}

impl Dedup {
    /// Drops each value of a producer that equals the value before.
    pub fn new(vp: ValueProducer) -> (r: Self)
        ensures
            *r.0 == vp,
    {
        Dedup(Box::new(vp))
    }
}

impl Unique {
    /// Drops each value of a producer that equals a value before.
    pub fn new(vp: ValueProducer) -> (r: Self)
        ensures
            *r.0 == vp,
    {
        Unique(Box::new(vp))
    }
}

impl StepBy {
    /// Keeps every `n`-th value of a producer; `ZeroStepSize` for a step
    /// of zero.
    pub fn new(vp: ValueProducer, n: usize) -> (r: Result<Self, Error>)
        ensures
            n == 0 ==> r == Err::<Self, Error>(Error::ZeroStepSize),
            n > 0 ==> r == Ok::<Self, Error>(StepBy { vp: Box::new(vp), n }),
    {
        if n == 0 {
            Err(Error::ZeroStepSize)
        } else {
            Ok(StepBy { vp: Box::new(vp), n })
        }
    }
}

impl Chain {
    /// The items of one producer, then those of another.
    pub fn new(vp_a: ValueProducer, vp_b: ValueProducer) -> (r: Self)
        ensures
            r == Chain(Box::new(vp_a), Box::new(vp_b)),
    {
        Chain(Box::new(vp_a), Box::new(vp_b))
    }
}

impl Zip {
    /// Pairs of the items of two producers.
    pub fn new(vp_a: ValueProducer, vp_b: ValueProducer) -> (r: Self)
        ensures
            r == Zip(Box::new(vp_a), Box::new(vp_b)),
    {
        Zip(Box::new(vp_a), Box::new(vp_b))
    }
}

impl Skip {
    /// Drops the first `n` items of a producer, but for their errors.
    pub fn new(vp: ValueProducer, n: usize) -> (r: Self)
        ensures
            r == (Skip { vp: Box::new(vp), n }),
    {
        Skip { vp: Box::new(vp), n }
    }
}

impl Take {
    /// Keeps the first `n` items of a producer.
    pub fn new(vp: ValueProducer, n: usize) -> (r: Self)
        ensures
            r == (Take { vp: Box::new(vp), n }),
    {
        Take { vp: Box::new(vp), n }
    }
}

impl Intersperse {
    /// Follows each item of a producer with a copy of a value.
    pub fn new(vp: ValueProducer, mv: MetaVal) -> (r: Self)
        ensures
            r == Intersperse(Box::new(vp), mv),
    {
        Intersperse(Box::new(vp), mv)
    }
}

impl Interleave {
    /// The items of two producers in turn.
    pub fn new(vp_a: ValueProducer, vp_b: ValueProducer) -> (r: Self)
        ensures
            r == Interleave(Box::new(vp_a), Box::new(vp_b)),
    {
        Interleave(Box::new(vp_a), Box::new(vp_b))
    }
}

impl Filter {
    /// Keeps the values of a producer for which a predicate holds.
    pub fn new(vp: ValueProducer, pred: UnaryPredicate) -> (r: Self)
        ensures
            *r.0 == vp,
            r.1 == pred,
    {
        Filter(Box::new(vp), pred)
    }
}

impl MapEach {
    /// Converts each value of a producer.
    pub fn new(vp: ValueProducer, conv: UnaryConverter) -> (r: Self)
        ensures
            *r.0 == vp,
            r.1 == conv,
    {
        MapEach(Box::new(vp), conv)
    }
}

impl SkipWhile {
    /// Drops the values of a producer while a predicate holds.
    pub fn new(vp: ValueProducer, pred: UnaryPredicate) -> (r: Self)
        ensures
            *r.0 == vp,
            r.1 == pred,
    {
        SkipWhile(Box::new(vp), pred)
    }
}

impl TakeWhile {
    /// Keeps the values of a producer while a predicate holds.
    pub fn new(vp: ValueProducer, pred: UnaryPredicate) -> (r: Self)
        ensures
            *r.0 == vp,
            r.1 == pred,
    {
        TakeWhile(Box::new(vp), pred)
    }
}

impl Raw {
    /// A source of given items.
    pub fn new(v: Vec<Result<MetaVal, Error>>) -> (r: Self)
        ensures
            r.0 == v,
    {
        Raw(v)
    }
}

} // verus!
