//! The functions behind the binary operators, on producers and on
//! sequences of values.
//!
//! Those on sequences that take a predicate or a converter call it on the
//! values in order, and stop where the function's result is settled. The
//! predicate is the caller's code: what each call answered is named in the
//! contracts, as the outcomes of the calls that were made.

use vstd::prelude::*;

use crate::functions::Error;
use crate::functions::op::operator::{UnaryConverter, UnaryPredicate};
use crate::functions::util::all_any_items;
use crate::functions::util::iterable_like::{IterableLike, found_item, found_position};
use crate::functions::util::nth_item;
use crate::functions::util::value_producer::{
    Chain,
    Filter,
    Interleave,
    Intersperse,
    MapEach,
    Skip,
    SkipWhile,
    StepBy,
    Take,
    TakeWhile,
    ValueProducer,
    Zip,
    produced,
    producer_wf,
};
use crate::functions::util::value_seq::{lemma_vals_view_push, result_view, stream_view};
use crate::functions::operator::unary::iter_consumer::map_ok;
use crate::metadata::types::{MetaVal, ValView, val_wf, vals_view, lemma_vals_view};

verus! {

/// Whether `outs` are answers of the predicate `f` to the first values of
/// `xs`, in order, one per call.
pub open spec fn pred_calls<F: Fn(&MetaVal) -> Result<bool, Error>>(
    f: F,
    xs: Seq<MetaVal>,
    outs: Seq<Result<bool, Error>>,
) -> bool {
    &&& outs.len() <= xs.len()
    &&& forall|i: int| 0 <= i < outs.len() ==> call_ensures(f, (&xs[i],), #[trigger] outs[i])
}

/// Whether `outs` are the results of the converter `f` on the first values
/// of `xs`, in order, one per call.
pub open spec fn conv_calls<F: Fn(MetaVal) -> Result<MetaVal, Error>>(
    f: F,
    xs: Seq<MetaVal>,
    outs: Seq<Result<MetaVal, Error>>,
) -> bool {
    &&& outs.len() <= xs.len()
    &&& forall|i: int| 0 <= i < outs.len() ==> call_ensures(f, (xs[i],), #[trigger] outs[i])
}

/// Whether a scan of `n` values, which goes on while the answer is `go`,
/// made exactly the calls whose answers are `outs`: it stops after the first
/// answer that is not `go`, or at the end.
pub open spec fn scanned(outs: Seq<Result<bool, Error>>, n: int, go: Result<bool, Error>) -> bool {
    &&& forall|i: int| 0 <= i < outs.len() - 1 ==> #[trigger] outs[i] == go
    &&& (outs.len() == n || (outs.len() > 0 && outs.last() != go))
}

/// The answer that stopped a scan, if one did.
pub open spec fn stop_answer(outs: Seq<Result<bool, Error>>, go: Result<bool, Error>) -> Option<
    Result<bool, Error>,
> {
    if outs.len() > 0 && outs.last() != go {
        Some(outs.last())
    } else {
        None
    }
}

/// Whether a scan of `n` values, which goes on while there is no error,
/// made exactly the calls whose answers are `outs`.
pub open spec fn scanned_ok<T>(outs: Seq<Result<T, Error>>, n: int) -> bool {
    &&& forall|i: int| 0 <= i < outs.len() - 1 ==> #[trigger] outs[i] is Ok
    &&& (outs.len() == n || (outs.len() > 0 && outs.last() is Err))
}

/// The values of `xs` whose answer in `outs` is `true`, in order.
pub open spec fn kept(xs: Seq<MetaVal>, outs: Seq<Result<bool, Error>>) -> Seq<MetaVal>
    decreases outs.len(),
{
    if outs.len() == 0 {
        Seq::empty()
    } else if outs.last() == Ok::<bool, Error>(true) {
        kept(xs, outs.drop_last()).push(xs[outs.len() - 1])
    } else {
        kept(xs, outs.drop_last())
    }
}

/// Every `n`-th value of a sequence, from the first on.
pub open spec fn stepped(xs: Seq<MetaVal>, n: int) -> Seq<MetaVal>
    recommends
        n > 0,
    decreases xs.len(),
{
    if xs.len() == 0 || n <= 0 {
        Seq::empty()
    } else if n >= xs.len() {
        seq![xs[0]]
    } else {
        seq![xs[0]] + stepped(xs.skip(n), n)
    }
}

/// The values that taking the first `n` keeps, followed by those that
/// skipping the first `n` keeps, are the whole sequence.
pub proof fn lemma_take_then_skip(s: Seq<MetaVal>, n: int)
    requires
        n >= 0,
    ensures
        (if n >= s.len() {
            s
        } else {
            s.take(n)
        }) + (if n >= s.len() {
            Seq::<MetaVal>::empty()
        } else {
            s.skip(n)
        }) == s,
{
    if n >= s.len() {
        assert(s + Seq::<MetaVal>::empty() =~= s);
    } else {
        assert(s.take(n) + s.skip(n) =~= s);
    }
}

/// Two sequences of values paired up, as far as the shorter goes.
pub open spec fn zipped(a: Seq<ValView>, b: Seq<ValView>) -> Seq<ValView> {
    Seq::new(
        if a.len() < b.len() {
            a.len()
        } else {
            b.len()
        },
        |i: int| ValView::Sequence(seq![a[i], b[i]]),
    )
}

/// Each value of a sequence followed by a separator.
pub open spec fn interspersed(xs: Seq<ValView>, sep: ValView) -> Seq<ValView>
    decreases xs.len(),
{
    if xs.len() == 0 {
        Seq::empty()
    } else {
        seq![xs[0], sep] + interspersed(xs.drop_first(), sep)
    }
}

/// The values of two sequences taken in turn, from the first, until the
/// sequence whose turn it is has none left.
pub open spec fn interleaved(a: Seq<ValView>, b: Seq<ValView>) -> Seq<ValView>
    decreases a.len(),
{
    if a.len() == 0 {
        Seq::empty()
    } else if b.len() == 0 {
        seq![a[0]]
    } else {
        seq![a[0], b[0]] + interleaved(a.drop_first(), b.drop_first())
    }
}

/// Interspersing a sequence doubles its length.
proof fn lemma_interspersed_len(xs: Seq<ValView>, sep: ValView)
    ensures
        interspersed(xs, sep).len() == 2 * xs.len(),
    decreases xs.len(),
{
    if xs.len() > 0 {
        lemma_interspersed_len(xs.drop_first(), sep);
    }
}

/// Interspersing a sequence, at one position.
proof fn lemma_interspersed_at(xs: Seq<ValView>, sep: ValView, k: int)
    requires
        0 <= k < xs.len(),
    ensures
        interspersed(xs, sep)[2 * k] == xs[k],
        interspersed(xs, sep)[2 * k + 1] == sep,
    decreases xs.len(),
{
    let r = interspersed(xs, sep);
    let r1 = interspersed(xs.drop_first(), sep);
    lemma_interspersed_len(xs.drop_first(), sep);
    assert(r == seq![xs[0], sep] + r1);
    if k > 0 {
        lemma_interspersed_at(xs.drop_first(), sep, k - 1);
        assert(r[2 * k] == r1[2 * (k - 1)]);
        assert(r[2 * k + 1] == r1[2 * (k - 1) + 1]);
    }
}

/// Interspersing follows each value with the separator: twice as many
/// values, the sequence's own in order at the even positions, the
/// separator at the odd ones.
pub proof fn lemma_interspersed_law(xs: Seq<ValView>, sep: ValView)
    ensures
        interspersed(xs, sep).len() == 2 * xs.len(),
        forall|k: int|
            0 <= k < xs.len() ==> interspersed(xs, sep)[2 * k] == #[trigger] xs[k] && interspersed(xs, sep)[2 * k
                + 1] == sep,
{
    lemma_interspersed_len(xs, sep);
    assert forall|k: int| 0 <= k < xs.len() implies interspersed(xs, sep)[2 * k] == #[trigger] xs[k]
        && interspersed(xs, sep)[2 * k + 1] == sep by {
        lemma_interspersed_at(xs, sep, k);
    }
}

/// Interleaving two sequences takes their values in turn, starting with
/// the first, until the one whose turn it is has none left: the first's
/// values at the even positions, the second's at the odd ones.
pub proof fn lemma_interleaved_law(a: Seq<ValView>, b: Seq<ValView>)
    ensures
        interleaved(a, b).len() == if a.len() > b.len() {
            2 * b.len() + 1
        } else {
            2 * a.len()
        },
        forall|k: int|
            0 <= k < a.len() && k < b.len() ==> interleaved(a, b)[2 * k] == #[trigger] a[k] && interleaved(a, b)[2
                * k + 1] == b[k],
        a.len() > b.len() ==> interleaved(a, b)[2 * (b.len() as int)] == a[b.len() as int],
    decreases a.len(),
{
    if a.len() > 0 && b.len() > 0 {
        let a1 = a.drop_first();
        let b1 = b.drop_first();
        lemma_interleaved_law(a1, b1);
        let r = interleaved(a, b);
        let r1 = interleaved(a1, b1);
        assert(r == seq![a[0], b[0]] + r1);
        assert forall|k: int| 0 <= k < a.len() && k < b.len() implies r[2 * k] == #[trigger] a[k] && r[2 * k
            + 1] == b[k] by {
            if k > 0 {
                assert(r[2 * k] == r1[2 * (k - 1)]);
                assert(r[2 * k + 1] == r1[2 * (k - 1) + 1]);
                assert(a1[k - 1] == a[k] && b1[k - 1] == b[k]);
            }
        }
        if a.len() > b.len() {
            assert(r[2 * (b.len() as int)] == r1[2 * (b1.len() as int)]);
            assert(a1[b1.len() as int] == a[b.len() as int]);
        }
    }
}

/// What `all` (`target` false) or `any` (`target` true) answers when its
/// scan, which goes on while the predicate answers `!target`, stopped at
/// `stop`.
pub open spec fn all_any_answer(stop: Option<Result<bool, Error>>, target: bool) -> Result<bool, Error> {
    match stop {
        None => Ok(!target),
        Some(Err(e)) => Err(e),
        Some(Ok(_)) => Ok(target),
    }
}

/// Scans values while the predicate answers `go`; gives the position and
/// the value where an answer other than `go` stopped it, or `None` at the
/// end, with the answers of the calls made.
fn scan<F: Fn(&MetaVal) -> Result<bool, Error>>(seq: Vec<MetaVal>, u_pred: F, go: bool) -> (res: (
    Result<Option<(usize, MetaVal)>, Error>,
    Ghost<Seq<Result<bool, Error>>>,
))
    requires
        forall|v: &MetaVal| u_pred.requires((v,)),
    ensures
        pred_calls(u_pred, seq@, res.1@),
        scanned(res.1@, seq@.len() as int, Ok(go)),
        res.0 == (match stop_answer(res.1@, Ok(go)) {
            None => Ok(None),
            Some(Err(e)) => Err(e),
            Some(Ok(_)) => Ok(Some(((res.1@.len() - 1) as usize, seq@[res.1@.len() - 1]))),
        }),
{
    let ghost s0 = seq@;
    let mut rest = seq;
    let mut i: usize = 0;
    let ghost mut outs: Seq<Result<bool, Error>> = Seq::empty();
    let n = rest.len();
    proof {
        assert(s0.skip(0) =~= s0);
    }
    while rest.len() > 0
        invariant
            s0 == seq@,
            n == s0.len(),
            i + rest@.len() == n,
            rest@ == s0.skip(i as int),
            outs.len() == i,
            pred_calls(u_pred, s0, outs),
            forall|k: int| 0 <= k < outs.len() ==> #[trigger] outs[k] == Ok::<bool, Error>(go),
            forall|v: &MetaVal| u_pred.requires((v,)),
        decreases rest.len(),
    {
        let x = rest.remove(0);
        proof {
            assert(s0[i as int] == x);
            assert(rest@ =~= s0.skip(i + 1));
        }
        let answer = u_pred(&x);
        proof {
            outs = outs.push(answer);
            assert(pred_calls(u_pred, s0, outs)) by {
                assert forall|k: int| 0 <= k < outs.len() implies call_ensures(u_pred, (&s0[k],), #[trigger] outs[k]) by {
                    if k < i {
                        assert(outs[k] == outs.drop_last()[k]);
                    }
                }
            }
        }
        match answer {
            Err(e) => {
                return (Err(e), Ghost(outs));
            },
            Ok(b) => {
                if b != go {
                    return (Ok(Some((i, x))), Ghost(outs));
                }
            },
        }
        i = i + 1;
    }
    (Ok(None), Ghost(outs))
}

/// Whether a vector result holds the expected values, or the expected error.
pub open spec fn vec_result_is(r: Result<Vec<MetaVal>, Error>, expected: Result<Seq<MetaVal>, Error>) -> bool {
    match (r, expected) {
        (Ok(v), Ok(s)) => v@ == s,
        (Err(e), Err(f)) => e == f,
        _ => false,
    }
}

/// What `filter` gives after the calls with answers `outs`: the error that
/// stopped it, or the values answered `true`.
pub open spec fn filter_answer(xs: Seq<MetaVal>, outs: Seq<Result<bool, Error>>) -> Result<
    Seq<MetaVal>,
    Error,
> {
    if outs.len() > 0 && outs.last() is Err {
        Err(outs.last()->Err_0)
    } else {
        Ok(kept(xs, outs))
    }
}

/// What `map` gives after the calls with results `outs`: the error that
/// stopped it, or the converted values.
pub open spec fn map_answer(outs: Seq<Result<MetaVal, Error>>) -> Result<Seq<MetaVal>, Error> {
    if outs.len() > 0 && outs.last() is Err {
        Err(outs.last()->Err_0)
    } else {
        Ok(Seq::new(outs.len(), |i: int| outs[i]->Ok_0))
    }
}

/// What `skip_while` gives after its scan stopped at `stop`: the values
/// from the first one answered `false` on.
pub open spec fn skip_while_answer(xs: Seq<MetaVal>, outs: Seq<Result<bool, Error>>) -> Result<
    Seq<MetaVal>,
    Error,
> {
    match stop_answer(outs, Ok(true)) {
        None => Ok(Seq::empty()),
        Some(Err(e)) => Err(e),
        Some(Ok(_)) => Ok(xs.skip(outs.len() - 1)),
    }
}

/// What `take_while` gives after its scan stopped at `stop`: the values
/// before the first one answered `false`.
pub open spec fn take_while_answer(xs: Seq<MetaVal>, outs: Seq<Result<bool, Error>>) -> Result<
    Seq<MetaVal>,
    Error,
> {
    match stop_answer(outs, Ok(true)) {
        None => Ok(xs),
        Some(Err(e)) => Err(e),
        Some(Ok(_)) => Ok(xs.take(outs.len() - 1)),
    }
}

/// The values of a stream before its first error, and that error, if any.
pub open spec fn values_before_error(s: Seq<Result<ValView, Error>>) -> (Seq<ValView>, Option<Error>)
    decreases s.len(),
{
    if s.len() == 0 {
        (Seq::empty(), None)
    } else {
        match s[0] {
            Err(e) => (Seq::empty(), Some(e)),
            Ok(v) => {
                let rest = values_before_error(s.drop_first());
                (seq![v] + rest.0, rest.1)
            },
        }
    }
}

/// What a scan of a stream answers when the scan of its values before the
/// first error stopped at `stop`: that answer, else the error that ended the
/// values, else `at_end`.
pub open spec fn stream_scan_answer<T>(
    stop: Option<Result<bool, Error>>,
    found: Result<T, Error>,
    error: Option<Error>,
    at_end: Result<T, Error>,
) -> Result<T, Error> {
    match stop {
        Some(Err(e)) => Err(e),
        Some(Ok(_)) => found,
        None => match error {
            Some(e) => Err(e),
            None => at_end,
        },
    }
}

/// Splits items into the values before the first error, and that error.
fn split_at_error(items: Vec<Result<MetaVal, Error>>) -> (r: (Vec<MetaVal>, Option<Error>))
    ensures
        vals_view(r.0@) == values_before_error(stream_view(items@)).0,
        r.1 == values_before_error(stream_view(items@)).1,
{
    let ghost s0 = stream_view(items@);
    let mut rest = items;
    let mut out: Vec<MetaVal> = Vec::new();
    let ghost mut i: int = 0;
    proof {
        assert(s0.skip(0) =~= s0);
        assert(vals_view(out@) =~= Seq::<ValView>::empty());
        assert(vals_view(out@) + values_before_error(s0).0 =~= values_before_error(s0).0);
    }
    while rest.len() > 0
        invariant
            s0 == stream_view(items@),
            0 <= i <= s0.len(),
            stream_view(rest@) == s0.skip(i),
            values_before_error(s0).0 == vals_view(out@) + values_before_error(s0.skip(i)).0,
            values_before_error(s0).1 == values_before_error(s0.skip(i)).1,
        decreases rest.len(),
    {
        let ghost before = rest@;
        let ghost out_before = out@;
        let x = rest.remove(0);
        proof {
            assert(stream_view(rest@) =~= s0.skip(i + 1)) by {
                assert(stream_view(rest@) =~= stream_view(before).drop_first());
            }
            assert(s0.skip(i).drop_first() =~= s0.skip(i + 1));
            assert(s0.skip(i)[0] == stream_view(before)[0]);
        }
        match x {
            Err(e) => {
                proof {
                    assert(before[0] == x);
                    assert(s0.skip(i)[0] == Err::<ValView, Error>(e));
                    assert(vals_view(out@) + Seq::<ValView>::empty() =~= vals_view(out@));
                }
                return (out, Some(e));
            },
            Ok(v) => {
                out.push(v);
                proof {
                    lemma_vals_view_push(out_before, v);
                    assert(vals_view(out_before) + (seq![v@] + values_before_error(s0.skip(i + 1)).0)
                        =~= vals_view(out@) + values_before_error(s0.skip(i + 1)).0);
                    i = i + 1;
                }
            },
        }
    }
    proof {
        assert(s0.skip(i).len() == 0);
        assert(vals_view(out@) + Seq::<ValView>::empty() =~= vals_view(out@));
    }
    (out, None)
}

/// What `find_s` gives after a scan that goes on while the predicate
/// answers `false`: the first value answered `true`, the first error the
/// predicate gives before it, or `ItemNotFound`.
pub open spec fn find_outcome<F: Fn(&MetaVal) -> Result<bool, Error>>(
    f: F,
    xs: Seq<MetaVal>,
    r: Result<MetaVal, Error>,
) -> bool {
    exists|outs: Seq<Result<bool, Error>>|
        #[trigger] pred_calls(f, xs, outs) && scanned(outs, xs.len() as int, Ok(false)) && r == (match stop_answer(
            outs,
            Ok(false),
        ) {
            None => Err(Error::ItemNotFound),
            Some(Err(e)) => Err(e),
            Some(Ok(_)) => Ok(xs[outs.len() - 1]),
        })
}

/// What `position_s` gives after a scan that goes on while the predicate
/// answers `false`: the position of the first value answered `true`, the
/// first error the predicate gives before it, or `ItemNotFound`.
pub open spec fn position_outcome<F: Fn(&MetaVal) -> Result<bool, Error>>(
    f: F,
    xs: Seq<MetaVal>,
    r: Result<usize, Error>,
) -> bool {
    exists|outs: Seq<Result<bool, Error>>|
        #[trigger] pred_calls(f, xs, outs) && scanned(outs, xs.len() as int, Ok(false)) && r == (match stop_answer(
            outs,
            Ok(false),
        ) {
            None => Err(Error::ItemNotFound),
            Some(Err(e)) => Err(e),
            Some(Ok(_)) => Ok((outs.len() - 1) as usize),
        })
}

/// Whether the predicate gives one answer for each value of `xs`.
pub open spec fn pred_deterministic<F: Fn(&MetaVal) -> Result<bool, Error>>(f: F, xs: Seq<MetaVal>) -> bool {
    forall|k: int, a: Result<bool, Error>, b: Result<bool, Error>|
        0 <= k < xs.len() && #[trigger] call_ensures(f, (&xs[k],), a) && #[trigger] call_ensures(f, (&xs[k],), b)
            ==> a == b
}

/// Two scans of the same values by a predicate that gives one answer per
/// value, both going on while it answers `go`, made the same calls.
proof fn lemma_scans_agree<F: Fn(&MetaVal) -> Result<bool, Error>>(
    f: F,
    xs: Seq<MetaVal>,
    go: Result<bool, Error>,
    a: Seq<Result<bool, Error>>,
    b: Seq<Result<bool, Error>>,
)
    requires
        pred_deterministic(f, xs),
        pred_calls(f, xs, a),
        pred_calls(f, xs, b),
        scanned(a, xs.len() as int, go),
        scanned(b, xs.len() as int, go),
    ensures
        a == b,
{
    assert forall|k: int| 0 <= k < a.len() && k < b.len() implies a[k] == b[k] by {
        assert(call_ensures(f, (&xs[k],), a[k]));
        assert(call_ensures(f, (&xs[k],), b[k]));
    }
    if a.len() < b.len() {
        if a.len() == xs.len() {
            assert(false);
        } else {
            assert(a[a.len() - 1] == b[a.len() - 1]);
            assert(false);
        }
    }
    if b.len() < a.len() {
        if b.len() == xs.len() {
            assert(false);
        } else {
            assert(a[b.len() - 1] == b[b.len() - 1]);
            assert(false);
        }
    }
    assert(a =~= b);
}

/// Finding and the position agree: where the position of the first value
/// that a predicate accepts is `i`, every value before it was answered
/// `false`, the value at `i` was answered `true`, and finding gives that
/// value; where one fails, the other fails with the same error. This holds
/// of a predicate that gives one answer for each value, on the values of a
/// vector.
pub proof fn lemma_find_at_position<F: Fn(&MetaVal) -> Result<bool, Error>>(
    f: F,
    xs: Seq<MetaVal>,
    found: Result<MetaVal, Error>,
    pos: Result<usize, Error>,
)
    requires
        xs.len() <= usize::MAX,
        pred_deterministic(f, xs),
        find_outcome(f, xs, found),
        position_outcome(f, xs, pos),
    ensures
        pos matches Ok(i) ==> {
            &&& i < xs.len()
            &&& call_ensures(f, (&xs[i as int],), Ok(true))
            &&& forall|j: int| 0 <= j < i ==> call_ensures(f, (&xs[j],), Ok(false))
            &&& found == Ok::<MetaVal, Error>(xs[i as int])
        },
        pos matches Err(e) ==> found == Err::<MetaVal, Error>(e),
{
    let a = choose|outs: Seq<Result<bool, Error>>|
        #[trigger] pred_calls(f, xs, outs) && scanned(outs, xs.len() as int, Ok(false)) && found == (match stop_answer(
            outs,
            Ok(false),
        ) {
            None => Err(Error::ItemNotFound),
            Some(Err(e)) => Err(e),
            Some(Ok(_)) => Ok(xs[outs.len() - 1]),
        });
    let b = choose|outs: Seq<Result<bool, Error>>|
        #[trigger] pred_calls(f, xs, outs) && scanned(outs, xs.len() as int, Ok(false)) && pos == (match stop_answer(
            outs,
            Ok(false),
        ) {
            None => Err(Error::ItemNotFound),
            Some(Err(e)) => Err(e),
            Some(Ok(_)) => Ok((outs.len() - 1) as usize),
        });
    lemma_scans_agree(f, xs, Ok(false), a, b);
    if pos is Ok {
        let i = (b.len() - 1) as int;
        assert(stop_answer(b, Ok(false)) is Some);
        assert(b.last() == b[i]);
        assert(b[i] is Ok);
        assert(b[i] == Ok::<bool, Error>(b[i]->Ok_0));
        assert(b[i]->Ok_0);
        assert(b[i] == Ok::<bool, Error>(true));
        assert(pos == Ok::<usize, Error>(i as usize));
        assert(call_ensures(f, (&xs[i],), b[i]));
        assert forall|j: int| 0 <= j < i implies call_ensures(f, (&xs[j],), Ok(false)) by {
            assert(call_ensures(f, (&xs[j],), b[j]));
        }
    }
}

/// Which of `all` and `any` a scan serves.
#[derive(Clone, Copy)]
enum AllAny {
    All,
    Any,
}

impl AllAny {
    /// The answer that settles the scan.
    fn target(self) -> (r: bool)
        ensures
            r == (self == AllAny::Any),
    {
        match self {
            Self::All => false,
            Self::Any => true,
        }
    }
}

/// Namespace for the functions behind the binary operators.
pub struct Impl;

impl Impl {
    /// The value at position `n`; `OutOfBounds` past the end.
    pub fn nth_s(seq: Vec<MetaVal>, n: usize) -> (r: Result<MetaVal, Error>)
        ensures
            n < seq@.len() ==> r == Ok::<MetaVal, Error>(seq@[n as int]),
            n >= seq@.len() ==> r == Err::<MetaVal, Error>(Error::OutOfBounds),
    {
        if n < seq.len() {
            let mut seq = seq;
            Ok(seq.remove(n))
        } else {
            Err(Error::OutOfBounds)
        }
    }

    fn all_any<F: Fn(&MetaVal) -> Result<bool, Error>>(seq: Vec<MetaVal>, u_pred: F, flag: AllAny) -> (r:
        Result<bool, Error>)
        requires
            forall|v: &MetaVal| u_pred.requires((v,)),
        ensures
            exists|outs: Seq<Result<bool, Error>>|
                #[trigger] pred_calls(u_pred, seq@, outs) && scanned(
                    outs,
                    seq@.len() as int,
                    Ok(flag != AllAny::Any),
                ) && r == all_any_answer(
                    stop_answer(outs, Ok(flag != AllAny::Any)),
                    flag == AllAny::Any,
                ),
    {
        let target = flag.target();
        let (res, Ghost(outs)) = scan(seq, u_pred, !target);
        let r = match res {
            Err(e) => Err(e),
            Ok(None) => Ok(!target),
            Ok(Some(_)) => Ok(target),
        };
        proof {
            assert(pred_calls(u_pred, seq@, outs));
        }
        r
    }

    /// Whether the predicate answers `true` for every value; the first error
    /// it gives, or the first `false`, ends the scan.
    pub fn all_s<F: Fn(&MetaVal) -> Result<bool, Error>>(seq: Vec<MetaVal>, u_pred: F) -> (r: Result<
        bool,
        Error,
    >)
        requires
            forall|v: &MetaVal| u_pred.requires((v,)),
        ensures
            exists|outs: Seq<Result<bool, Error>>|
                #[trigger] pred_calls(u_pred, seq@, outs) && scanned(outs, seq@.len() as int, Ok(true))
                    && r == all_any_answer(stop_answer(outs, Ok(true)), false),
    {
        Self::all_any(seq, u_pred, AllAny::All)
    }

    /// Whether the predicate answers `true` for some value; the first error
    /// it gives, or the first `true`, ends the scan.
    pub fn any_s<F: Fn(&MetaVal) -> Result<bool, Error>>(seq: Vec<MetaVal>, u_pred: F) -> (r: Result<
        bool,
        Error,
    >)
        requires
            forall|v: &MetaVal| u_pred.requires((v,)),
        ensures
            exists|outs: Seq<Result<bool, Error>>|
                #[trigger] pred_calls(u_pred, seq@, outs) && scanned(outs, seq@.len() as int, Ok(false))
                    && r == all_any_answer(stop_answer(outs, Ok(false)), true),
    {
        Self::all_any(seq, u_pred, AllAny::Any)
    }

    /// The first value for which the predicate answers `true`; the first
    /// error it gives before that, or `ItemNotFound`.
    pub fn find_s<F: Fn(&MetaVal) -> Result<bool, Error>>(seq: Vec<MetaVal>, u_pred: F) -> (r: Result<
        MetaVal,
        Error,
    >)
        requires
            forall|v: &MetaVal| u_pred.requires((v,)),
        ensures
            find_outcome(u_pred, seq@, r),
    {
        let (res, Ghost(outs)) = scan(seq, u_pred, false);
        let r = match res {
            Err(e) => Err(e),
            Ok(None) => Err(Error::ItemNotFound),
            Ok(Some((_, v))) => Ok(v),
        };
        proof {
            assert(pred_calls(u_pred, seq@, outs));
        }
        r
    }

    /// The position of the first value for which the predicate answers
    /// `true`; the first error it gives before that, or `ItemNotFound`.
    pub fn position_s<F: Fn(&MetaVal) -> Result<bool, Error>>(seq: Vec<MetaVal>, u_pred: F) -> (r:
        Result<usize, Error>)
        requires
            forall|v: &MetaVal| u_pred.requires((v,)),
        ensures
            position_outcome(u_pred, seq@, r),
    {
        let (res, Ghost(outs)) = scan(seq, u_pred, false);
        let r = match res {
            Err(e) => Err(e),
            Ok(None) => Err(Error::ItemNotFound),
            Ok(Some((i, _))) => Ok(i),
        };
        proof {
            assert(pred_calls(u_pred, seq@, outs));
        }
        r
    }

    /// The values for which the predicate answers `true`, in order; the
    /// first error it gives ends the scan.
    pub fn filter_s<F: Fn(&MetaVal) -> Result<bool, Error>>(seq: Vec<MetaVal>, u_pred: F) -> (r: Result<
        Vec<MetaVal>,
        Error,
    >)
        requires
            forall|v: &MetaVal| u_pred.requires((v,)),
        ensures
            exists|outs: Seq<Result<bool, Error>>|
                #[trigger] pred_calls(u_pred, seq@, outs) && scanned_ok(outs, seq@.len() as int)
                    && vec_result_is(r, filter_answer(seq@, outs)),
    {
        let ghost s0 = seq@;
        let mut rest = seq;
        let mut out: Vec<MetaVal> = Vec::new();
        let mut i: usize = 0;
        let ghost mut outs: Seq<Result<bool, Error>> = Seq::empty();
        let n = rest.len();
        proof {
            assert(s0.skip(0) =~= s0);
        }
        while rest.len() > 0
            invariant
                s0 == seq@,
                n == s0.len(),
                i + rest@.len() == n,
                rest@ == s0.skip(i as int),
                outs.len() == i,
                pred_calls(u_pred, s0, outs),
                forall|k: int| 0 <= k < outs.len() ==> #[trigger] outs[k] is Ok,
                out@ == kept(s0, outs),
                forall|v: &MetaVal| u_pred.requires((v,)),
            decreases rest.len(),
        {
            let x = rest.remove(0);
            proof {
                assert(s0[i as int] == x);
                assert(rest@ =~= s0.skip(i + 1));
            }
            let answer = u_pred(&x);
            let ghost outs_before = outs;
            proof {
                outs = outs.push(answer);
                assert(outs.drop_last() =~= outs_before);
                assert(pred_calls(u_pred, s0, outs)) by {
                    assert forall|k: int| 0 <= k < outs.len() implies call_ensures(u_pred, (&s0[k],), #[trigger] outs[k]) by {
                        if k < i {
                            assert(outs[k] == outs_before[k]);
                        }
                    }
                }
            }
            match answer {
                Err(e) => {
                    proof {
                        assert(pred_calls(u_pred, seq@, outs));
                    }
                    return Err(e);
                },
                Ok(b) => {
                    if b {
                        out.push(x);
                    }
                },
            }
            i = i + 1;
        }
        proof {
            assert(pred_calls(u_pred, seq@, outs));
        }
        Ok(out)
    }

    /// The converted values, in order; the first error of the converter ends
    /// the scan.
    pub fn map_s<F: Fn(MetaVal) -> Result<MetaVal, Error>>(seq: Vec<MetaVal>, u_conv: F) -> (r: Result<
        Vec<MetaVal>,
        Error,
    >)
        requires
            forall|v: MetaVal| u_conv.requires((v,)),
        ensures
            exists|outs: Seq<Result<MetaVal, Error>>|
                #[trigger] conv_calls(u_conv, seq@, outs) && scanned_ok(outs, seq@.len() as int)
                    && vec_result_is(r, map_answer(outs)),
    {
        let ghost s0 = seq@;
        let mut rest = seq;
        let mut out: Vec<MetaVal> = Vec::new();
        let mut i: usize = 0;
        let ghost mut outs: Seq<Result<MetaVal, Error>> = Seq::empty();
        let n = rest.len();
        proof {
            assert(s0.skip(0) =~= s0);
        }
        while rest.len() > 0
            invariant
                s0 == seq@,
                n == s0.len(),
                i + rest@.len() == n,
                rest@ == s0.skip(i as int),
                outs.len() == i,
                conv_calls(u_conv, s0, outs),
                forall|k: int| 0 <= k < outs.len() ==> #[trigger] outs[k] is Ok,
                out@ == Seq::new(outs.len(), |k: int| outs[k]->Ok_0),
                forall|v: MetaVal| u_conv.requires((v,)),
            decreases rest.len(),
        {
            let x = rest.remove(0);
            proof {
                assert(s0[i as int] == x);
                assert(rest@ =~= s0.skip(i + 1));
            }
            let converted = u_conv(x);
            let ghost outs_before = outs;
            proof {
                outs = outs.push(converted);
                assert(conv_calls(u_conv, s0, outs)) by {
                    assert forall|k: int| 0 <= k < outs.len() implies call_ensures(u_conv, (s0[k],), #[trigger] outs[k]) by {
                        if k < i {
                            assert(outs[k] == outs_before[k]);
                        }
                    }
                }
            }
            match converted {
                Err(e) => {
                    proof {
                        assert(conv_calls(u_conv, seq@, outs));
                    }
                    return Err(e);
                },
                Ok(v) => {
                    out.push(v);
                    proof {
                        assert(out@ =~= Seq::new(outs.len(), |k: int| outs[k]->Ok_0));
                    }
                },
            }
            i = i + 1;
        }
        proof {
            assert(conv_calls(u_conv, seq@, outs));
        }
        Ok(out)
    }

    /// The values from the first one for which the predicate answers
    /// `false` on; the first error it gives before that ends the scan.
    pub fn skip_while_s<F: Fn(&MetaVal) -> Result<bool, Error>>(seq: Vec<MetaVal>, u_pred: F) -> (r:
        Result<Vec<MetaVal>, Error>)
        requires
            forall|v: &MetaVal| u_pred.requires((v,)),
        ensures
            exists|outs: Seq<Result<bool, Error>>|
                #[trigger] pred_calls(u_pred, seq@, outs) && scanned(outs, seq@.len() as int, Ok(true))
                    && vec_result_is(r, skip_while_answer(seq@, outs)),
    {
        let (rest, stop, Ghost(outs)) = Self::scan_prefix(seq, u_pred);
        proof {
            assert(pred_calls(u_pred, seq@, outs));
        }
        match stop {
            Err(e) => Err(e),
            Ok(None) => Ok(Vec::new()),
            Ok(Some(x)) => {
                let mut out = vec![x];
                let mut rest = rest;
                out.append(&mut rest);
                proof {
                    assert(out@ =~= seq@.skip(outs.len() - 1));
                }
                Ok(out)
            },
        }
    }

    /// The values before the first one for which the predicate answers
    /// `false`; the first error it gives before that ends the scan.
    pub fn take_while_s<F: Fn(&MetaVal) -> Result<bool, Error>>(seq: Vec<MetaVal>, u_pred: F) -> (r:
        Result<Vec<MetaVal>, Error>)
        requires
            forall|v: &MetaVal| u_pred.requires((v,)),
        ensures
            exists|outs: Seq<Result<bool, Error>>|
                #[trigger] pred_calls(u_pred, seq@, outs) && scanned(outs, seq@.len() as int, Ok(true))
                    && vec_result_is(r, take_while_answer(seq@, outs)),
    {
        let ghost s0 = seq@;
        let mut v = seq;
        let mut i: usize = 0;
        let ghost mut outs: Seq<Result<bool, Error>> = Seq::empty();
        while i < v.len()
            invariant
                s0 == seq@,
                v@ == s0,
                i <= v.len(),
                outs.len() == i,
                pred_calls(u_pred, s0, outs),
                forall|k: int| 0 <= k < outs.len() ==> #[trigger] outs[k] == Ok::<bool, Error>(true),
                forall|v: &MetaVal| u_pred.requires((v,)),
            decreases v.len() - i,
        {
            let answer = u_pred(&v[i]);
            let ghost outs_before = outs;
            proof {
                outs = outs.push(answer);
                assert forall|k: int| 0 <= k < outs.len() implies call_ensures(u_pred, (&s0[k],), #[trigger] outs[k]) by {
                    if k < i {
                        assert(outs[k] == outs_before[k]);
                    }
                }
            }
            proof {
                assert(pred_calls(u_pred, s0, outs));
                assert forall|k: int| 0 <= k < outs.len() - 1 implies #[trigger] outs[k] == Ok::<
                    bool,
                    Error,
                >(true) by {
                    assert(outs[k] == outs_before[k]);
                }
                assert(s0.take(i as int) =~= s0.subrange(0, i as int));
            }
            match answer {
                Err(e) => {
                    return Err(e);
                },
                Ok(b) => {
                    if !b {
                        v.truncate(i);
                        return Ok(v);
                    }
                },
            }
            i = i + 1;
        }
        proof {
            assert(pred_calls(u_pred, s0, outs));
        }
        Ok(v)
    }

    /// Scans values while the predicate answers `true`: gives the values
    /// after the one where it stopped, and that value, or the error that
    /// stopped it, or `None` at the end.
    fn scan_prefix<F: Fn(&MetaVal) -> Result<bool, Error>>(seq: Vec<MetaVal>, u_pred: F) -> (res: (
        Vec<MetaVal>,
        Result<Option<MetaVal>, Error>,
        Ghost<Seq<Result<bool, Error>>>,
    ))
        requires
            forall|v: &MetaVal| u_pred.requires((v,)),
        ensures
            pred_calls(u_pred, seq@, res.2@),
            scanned(res.2@, seq@.len() as int, Ok(true)),
            res.1 == (match stop_answer(res.2@, Ok(true)) {
                None => Ok(None),
                Some(Err(e)) => Err(e),
                Some(Ok(_)) => Ok(Some(seq@[res.2@.len() - 1])),
            }),
            res.2@.len() > 0 ==> res.0@ == seq@.skip(res.2@.len() as int),
    {
        let ghost s0 = seq@;
        let mut rest = seq;
        let mut i: usize = 0;
        let ghost mut outs: Seq<Result<bool, Error>> = Seq::empty();
        let n = rest.len();
        proof {
            assert(s0.skip(0) =~= s0);
        }
        while rest.len() > 0
            invariant
                s0 == seq@,
                n == s0.len(),
                i + rest@.len() == n,
                rest@ == s0.skip(i as int),
                outs.len() == i,
                pred_calls(u_pred, s0, outs),
                forall|k: int| 0 <= k < outs.len() ==> #[trigger] outs[k] == Ok::<bool, Error>(true),
                forall|v: &MetaVal| u_pred.requires((v,)),
            decreases rest.len(),
        {
            let x = rest.remove(0);
            proof {
                assert(s0[i as int] == x);
                assert(rest@ =~= s0.skip(i + 1));
            }
            let answer = u_pred(&x);
            let ghost outs_before = outs;
            proof {
                outs = outs.push(answer);
                assert forall|k: int| 0 <= k < outs.len() implies call_ensures(u_pred, (&s0[k],), #[trigger] outs[k]) by {
                    if k < i {
                        assert(outs[k] == outs_before[k]);
                    }
                }
            }
            match answer {
                Err(e) => {
                    return (rest, Err(e), Ghost(outs));
                },
                Ok(b) => {
                    if !b {
                        return (rest, Ok(Some(x)), Ghost(outs));
                    }
                },
            }
            i = i + 1;
        }
        (rest, Ok(None), Ghost(outs))
    }

    /// Every `step`-th value, from the first on; `ZeroStepSize` for a step of
    /// zero.
    pub fn step_by_s(seq: Vec<MetaVal>, step: usize) -> (r: Result<Vec<MetaVal>, Error>)
        ensures
            step == 0 ==> r == Err::<Vec<MetaVal>, Error>(Error::ZeroStepSize),
            step > 0 ==> (r matches Ok(v) && v@ == stepped(seq@, step as int)),
    {
        if step == 0 {
            return Err(Error::ZeroStepSize);
        }
        let ghost s0 = seq@;
        let mut rest = seq;
        let mut out: Vec<MetaVal> = Vec::new();
        proof {
            assert(out@ + stepped(rest@, step as int) =~= stepped(s0, step as int));
        }
        while rest.len() > 0
            invariant
                step > 0,
                out@ + stepped(rest@, step as int) == stepped(s0, step as int),
            decreases rest.len(),
        {
            let ghost before = rest@;
            let x = rest.remove(0);
            out.push(x);
            if rest.len() >= step - 1 {
                let tail = rest.split_off(step - 1);
                rest = tail;
                proof {
                    if step < before.len() {
                        assert(rest@ =~= before.skip(step as int));
                    } else {
                        assert(rest@ =~= Seq::<MetaVal>::empty());
                        assert(stepped(rest@, step as int) =~= Seq::<MetaVal>::empty());
                    }
                }
            } else {
                rest = Vec::new();
                proof {
                    assert(stepped(rest@, step as int) =~= Seq::<MetaVal>::empty());
                }
            }
            proof {
                assert(before[0] == x);
                assert(out@ + stepped(rest@, step as int) =~= out@.drop_last() + stepped(
                    before,
                    step as int,
                ));
            }
        }
        proof {
            assert(out@ + stepped(rest@, step as int) =~= out@);
        }
        Ok(out)
    }

    /// The values of the first sequence, then those of the second.
    pub fn chain_s(seq_a: Vec<MetaVal>, seq_b: Vec<MetaVal>) -> (r: Vec<MetaVal>)
        ensures
            r@ == seq_a@ + seq_b@,
    {
        let mut seq_a = seq_a;
        let mut seq_b = seq_b;
        seq_a.append(&mut seq_b);
        seq_a
    }

    /// The values of two sequences paired up, as far as the shorter goes.
    pub fn zip_s(seq_a: Vec<MetaVal>, seq_b: Vec<MetaVal>) -> (r: Vec<MetaVal>)
        ensures
            vals_view(r@) == zipped(vals_view(seq_a@), vals_view(seq_b@)),
    {
        let ghost a0 = vals_view(seq_a@);
        let ghost b0 = vals_view(seq_b@);
        proof {
            lemma_vals_view(seq_a@);
            lemma_vals_view(seq_b@);
        }
        let mut rest_a = seq_a;
        let mut rest_b = seq_b;
        let mut out: Vec<MetaVal> = Vec::new();
        let ghost mut i: int = 0;
        proof {
            assert(a0.skip(0) =~= a0);
            assert(b0.skip(0) =~= b0);
            lemma_vals_view(out@);
        }
        while rest_a.len() > 0 && rest_b.len() > 0
            invariant
                a0 == vals_view(seq_a@),
                b0 == vals_view(seq_b@),
                0 <= i <= a0.len(),
                i <= b0.len(),
                a0.len() == i + rest_a@.len(),
                b0.len() == i + rest_b@.len(),
                vals_view(rest_a@) == a0.skip(i),
                vals_view(rest_b@) == b0.skip(i),
                vals_view(out@) == zipped(a0.take(i), b0.take(i)),
            decreases rest_a.len(),
        {
            let ghost ba = rest_a@;
            let ghost bb = rest_b@;
            let ghost out_before = out@;
            let x = rest_a.remove(0);
            let y = rest_b.remove(0);
            proof {
                crate::functions::util::value_seq::lemma_take_first(ba, rest_a@, a0, i);
                crate::functions::util::value_seq::lemma_take_first(bb, rest_b@, b0, i);
            }
            let pair = MetaVal::Sequence(vec![x, y]);
            out.push(pair);
            proof {
                lemma_vals_view_push(out_before, pair);
                lemma_vals_view(seq![x, y]);
                assert(vals_view(seq![x, y]) =~= seq![x@, y@]);
                assert(vals_view(out@) =~= zipped(a0.take(i + 1), b0.take(i + 1)));
                i = i + 1;
            }
        }
        proof {
            assert(zipped(a0.take(i), b0.take(i)) =~= zipped(a0, b0));
        }
        out
    }

    /// The values after the first `n`.
    pub fn skip_s(seq: Vec<MetaVal>, n: usize) -> (r: Vec<MetaVal>)
        ensures
            n >= seq@.len() ==> r@ == Seq::<MetaVal>::empty(),
            n < seq@.len() ==> r@ == seq@.skip(n as int),
    {
        if n >= seq.len() {
            Vec::new()
        } else {
            let mut seq = seq;
            seq.split_off(n)
        }
    }

    /// The first `n` values, or all of them.
    pub fn take_s(seq: Vec<MetaVal>, n: usize) -> (r: Vec<MetaVal>)
        ensures
            n >= seq@.len() ==> r@ == seq@,
            n < seq@.len() ==> r@ == seq@.take(n as int),
    {
        let mut v = seq;
        v.truncate(n);
        v
    }

    /// Each value followed by a copy of the separator.
    pub fn intersperse_s(seq: Vec<MetaVal>, mv: MetaVal) -> (r: Vec<MetaVal>)
        ensures
            vals_view(r@) == interspersed(vals_view(seq@), mv@),
    {
        let ghost xs = vals_view(seq@);
        proof {
            lemma_vals_view(seq@);
        }
        let mut rest = seq;
        let mut out: Vec<MetaVal> = Vec::new();
        let ghost mut i: int = 0;
        proof {
            assert(xs.skip(0) =~= xs);
            assert(vals_view(out@) + interspersed(xs, mv@) =~= interspersed(xs, mv@));
        }
        while rest.len() > 0
            invariant
                0 <= i <= xs.len(),
                xs.len() == i + rest@.len(),
                vals_view(rest@) == xs.skip(i),
                vals_view(out@) + interspersed(xs.skip(i), mv@) == interspersed(xs, mv@),
            decreases rest.len(),
        {
            let ghost before = rest@;
            let ghost out_before = out@;
            let x = rest.remove(0);
            proof {
                crate::functions::util::value_seq::lemma_take_first(before, rest@, xs, i);
                assert(xs.skip(i).drop_first() =~= xs.skip(i + 1));
                assert(xs.skip(i)[0] == xs[i]);
            }
            out.push(x);
            let sep = mv.deep_copy();
            out.push(sep);
            proof {
                lemma_vals_view_push(out_before, x);
                lemma_vals_view_push(out_before.push(x), sep);
                assert(vals_view(out@) + interspersed(xs.skip(i + 1), mv@) =~= vals_view(out_before)
                    + interspersed(xs.skip(i), mv@));
                i = i + 1;
            }
        }
        proof {
            assert(xs.skip(i).len() == 0);
            assert(vals_view(out@) + interspersed(xs.skip(i), mv@) =~= vals_view(out@));
        }
        out
    }

    /// The values of the two sequences in turn, from the first, until the
    /// sequence whose turn it is has none left.
    pub fn interleave_s(seq_a: Vec<MetaVal>, seq_b: Vec<MetaVal>) -> (r: Vec<MetaVal>)
        ensures
            vals_view(r@) == interleaved(vals_view(seq_a@), vals_view(seq_b@)),
    {
        let ghost a0 = vals_view(seq_a@);
        let ghost b0 = vals_view(seq_b@);
        proof {
            lemma_vals_view(seq_a@);
            lemma_vals_view(seq_b@);
        }
        let mut rest_a = seq_a;
        let mut rest_b = seq_b;
        let mut out: Vec<MetaVal> = Vec::new();
        let ghost mut i: int = 0;
        proof {
            assert(a0.skip(0) =~= a0);
            assert(b0.skip(0) =~= b0);
            assert(vals_view(out@) + interleaved(a0, b0) =~= interleaved(a0, b0));
        }
        while rest_a.len() > 0
            invariant
                a0 == vals_view(seq_a@),
                b0 == vals_view(seq_b@),
                0 <= i <= a0.len(),
                i <= b0.len(),
                a0.len() == i + rest_a@.len(),
                b0.len() == i + rest_b@.len(),
                vals_view(rest_a@) == a0.skip(i),
                vals_view(rest_b@) == b0.skip(i),
                vals_view(out@) + interleaved(a0.skip(i), b0.skip(i)) == interleaved(a0, b0),
            decreases rest_a.len(),
        {
            let ghost ba = rest_a@;
            let ghost bb = rest_b@;
            let ghost out_before = out@;
            let x = rest_a.remove(0);
            proof {
                crate::functions::util::value_seq::lemma_take_first(ba, rest_a@, a0, i);
                assert(a0.skip(i).drop_first() =~= a0.skip(i + 1));
                assert(a0.skip(i)[0] == a0[i]);
            }
            out.push(x);
            proof {
                lemma_vals_view_push(out_before, x);
            }
            if rest_b.len() == 0 {
                proof {
                    assert(b0.skip(i).len() == 0);
                    assert(vals_view(out@) =~= vals_view(out_before) + interleaved(a0.skip(i), b0.skip(i)));
                }
                return out;
            }
            let y = rest_b.remove(0);
            proof {
                crate::functions::util::value_seq::lemma_take_first(bb, rest_b@, b0, i);
                assert(b0.skip(i).drop_first() =~= b0.skip(i + 1));
                assert(b0.skip(i)[0] == b0[i]);
            }
            let ghost out_mid = out@;
            out.push(y);
            proof {
                lemma_vals_view_push(out_mid, y);
                assert(vals_view(out@) + interleaved(a0.skip(i + 1), b0.skip(i + 1)) =~= vals_view(
                    out_before,
                ) + interleaved(a0.skip(i), b0.skip(i)));
                i = i + 1;
            }
        }
        proof {
            assert(a0.skip(i).len() == 0);
            assert(vals_view(out@) + interleaved(a0.skip(i), b0.skip(i)) =~= vals_view(out@));
        }
        out
    }
}

/// The functions behind the binary operators, on producers.
impl Impl {
    /// The value at position `n`; `OutOfBounds` past the end.
    pub fn nth(vp: ValueProducer, n: usize) -> (r: Result<MetaVal, Error>)
        requires
            producer_wf(vp),
        ensures
            result_view(r) == nth_item(produced(vp), n as int),
            r matches Ok(v) ==> val_wf(v@),
    {
        IterableLike::Producer(vp).nth(n)
    }

    /// Scans the values of a producer while the predicate answers `go`,
    /// as `all` and `any` do; an error among the items, or from the
    /// predicate, ends the scan.
    fn all_any_items<F: Fn(&MetaVal) -> Result<bool, Error>>(vp: ValueProducer, u_pred: F, flag: AllAny) -> (r:
        Result<bool, Error>)
        requires
            producer_wf(vp),
            forall|v: &MetaVal| u_pred.requires((v,)),
        ensures
            exists|xs: Seq<MetaVal>, outs: Seq<Result<bool, Error>>|
                #[trigger] pred_calls(u_pred, xs, outs) && vals_view(xs) == values_before_error(produced(vp)).0
                    && scanned(outs, xs.len() as int, Ok(flag != AllAny::Any)) && r == stream_scan_answer(
                    stop_answer(outs, Ok(flag != AllAny::Any)),
                    Ok(flag == AllAny::Any),
                    values_before_error(produced(vp)).1,
                    Ok(flag != AllAny::Any),
                ),
    {
        let target = flag.target();
        let (vals, error) = split_at_error(vp.into_items());
        let ghost xs = vals@;
        let (res, Ghost(outs)) = scan(vals, u_pred, !target);
        let r = match res {
            Err(e) => Err(e),
            Ok(Some(_)) => Ok(target),
            Ok(None) => match error {
                Some(e) => Err(e),
                None => Ok(!target),
            },
        };
        proof {
            assert(pred_calls(u_pred, xs, outs));
        }
        r
    }

    /// Whether the predicate answers `true` for every value; the first error
    /// among the items or from the predicate, or the first `false`, ends the
    /// scan.
    pub fn all<F: Fn(&MetaVal) -> Result<bool, Error>>(vp: ValueProducer, u_pred: F) -> (r: Result<
        bool,
        Error,
    >)
        requires
            producer_wf(vp),
            forall|v: &MetaVal| u_pred.requires((v,)),
        ensures
            exists|xs: Seq<MetaVal>, outs: Seq<Result<bool, Error>>|
                #[trigger] pred_calls(u_pred, xs, outs) && vals_view(xs) == values_before_error(produced(vp)).0
                    && scanned(outs, xs.len() as int, Ok(true)) && r == stream_scan_answer(
                    stop_answer(outs, Ok(true)),
                    Ok(false),
                    values_before_error(produced(vp)).1,
                    Ok(true),
                ),
    {
        Self::all_any_items(vp, u_pred, AllAny::All)
    }

    /// Whether the predicate answers `true` for some value; the first error
    /// among the items or from the predicate, or the first `true`, ends the
    /// scan.
    pub fn any<F: Fn(&MetaVal) -> Result<bool, Error>>(vp: ValueProducer, u_pred: F) -> (r: Result<
        bool,
        Error,
    >)
        requires
            producer_wf(vp),
            forall|v: &MetaVal| u_pred.requires((v,)),
        ensures
            exists|xs: Seq<MetaVal>, outs: Seq<Result<bool, Error>>|
                #[trigger] pred_calls(u_pred, xs, outs) && vals_view(xs) == values_before_error(produced(vp)).0
                    && scanned(outs, xs.len() as int, Ok(false)) && r == stream_scan_answer(
                    stop_answer(outs, Ok(false)),
                    Ok(true),
                    values_before_error(produced(vp)).1,
                    Ok(false),
                ),
    {
        Self::all_any_items(vp, u_pred, AllAny::Any)
    }

    /// The first value for which the predicate answers `true`; the first
    /// error among the items or from the predicate before that, or
    /// `ItemNotFound`.
    pub fn find<F: Fn(&MetaVal) -> Result<bool, Error>>(vp: ValueProducer, u_pred: F) -> (r: Result<
        MetaVal,
        Error,
    >)
        requires
            producer_wf(vp),
            forall|v: &MetaVal| u_pred.requires((v,)),
        ensures
            exists|xs: Seq<MetaVal>, outs: Seq<Result<bool, Error>>|
                #[trigger] pred_calls(u_pred, xs, outs) && vals_view(xs) == values_before_error(produced(vp)).0
                    && scanned(outs, xs.len() as int, Ok(false)) && r == stream_scan_answer(
                    stop_answer(outs, Ok(false)),
                    Ok(xs[outs.len() - 1]),
                    values_before_error(produced(vp)).1,
                    Err(Error::ItemNotFound),
                ),
    {
        let (vals, error) = split_at_error(vp.into_items());
        let ghost xs = vals@;
        let (res, Ghost(outs)) = scan(vals, u_pred, false);
        let r = match res {
            Err(e) => Err(e),
            Ok(Some((_, v))) => Ok(v),
            Ok(None) => match error {
                Some(e) => Err(e),
                None => Err(Error::ItemNotFound),
            },
        };
        proof {
            assert(pred_calls(u_pred, xs, outs));
        }
        r
    }

    /// The position of the first value for which the predicate answers
    /// `true`; the first error among the items or from the predicate before
    /// that, or `ItemNotFound`.
    pub fn position<F: Fn(&MetaVal) -> Result<bool, Error>>(vp: ValueProducer, u_pred: F) -> (r: Result<
        usize,
        Error,
    >)
        requires
            producer_wf(vp),
            forall|v: &MetaVal| u_pred.requires((v,)),
        ensures
            exists|xs: Seq<MetaVal>, outs: Seq<Result<bool, Error>>|
                #[trigger] pred_calls(u_pred, xs, outs) && vals_view(xs) == values_before_error(produced(vp)).0
                    && scanned(outs, xs.len() as int, Ok(false)) && r == stream_scan_answer(
                    stop_answer(outs, Ok(false)),
                    Ok((outs.len() - 1) as usize),
                    values_before_error(produced(vp)).1,
                    Err(Error::ItemNotFound),
                ),
    {
        let (vals, error) = split_at_error(vp.into_items());
        let ghost xs = vals@;
        let (res, Ghost(outs)) = scan(vals, u_pred, false);
        let r = match res {
            Err(e) => Err(e),
            Ok(Some((i, _))) => Ok(i),
            Ok(None) => match error {
                Some(e) => Err(e),
                None => Err(Error::ItemNotFound),
            },
        };
        proof {
            assert(pred_calls(u_pred, xs, outs));
        }
        r
    }

    /// The values for which a predicate holds, as they are read.
    pub fn filter(vp: ValueProducer, u_pred: UnaryPredicate) -> (r: Filter)
        ensures
            r == Filter(Box::new(vp), u_pred),
    {
        Filter::new(vp, u_pred)
    }

    /// Each value converted, as it is read.
    pub fn map(vp: ValueProducer, u_conv: UnaryConverter) -> (r: MapEach)
        ensures
            r == MapEach(Box::new(vp), u_conv),
    {
        MapEach::new(vp, u_conv)
    }

    /// Every `step`-th value, from the first on; `ZeroStepSize` for a step
    /// of zero.
    pub fn step_by(vp: ValueProducer, step: usize) -> (r: Result<StepBy, Error>)
        ensures
            step == 0 ==> r == Err::<StepBy, Error>(Error::ZeroStepSize),
            step > 0 ==> r == Ok::<StepBy, Error>(StepBy { vp: Box::new(vp), n: step }),
    {
        StepBy::new(vp, step)
    }

    /// The items of one producer, then those of another.
    pub fn chain(vp_a: ValueProducer, vp_b: ValueProducer) -> (r: Chain)
        ensures
            r == Chain(Box::new(vp_a), Box::new(vp_b)),
    {
        Chain::new(vp_a, vp_b)
    }

    /// Pairs of the items of two producers.
    pub fn zip(vp_a: ValueProducer, vp_b: ValueProducer) -> (r: Zip)
        ensures
            r == Zip(Box::new(vp_a), Box::new(vp_b)),
    {
        Zip::new(vp_a, vp_b)
    }

    /// Without the first `n` items.
    pub fn skip(vp: ValueProducer, n: usize) -> (r: Skip)
        ensures
            r == (Skip { vp: Box::new(vp), n }),
    {
        Skip::new(vp, n)
    }

    /// The first `n` items.
    pub fn take(vp: ValueProducer, n: usize) -> (r: Take)
        ensures
            r == (Take { vp: Box::new(vp), n }),
    {
        Take::new(vp, n)
    }

    /// The items from the first value for which a predicate fails on.
    pub fn skip_while(vp: ValueProducer, u_pred: UnaryPredicate) -> (r: SkipWhile)
        ensures
            r == SkipWhile(Box::new(vp), u_pred),
    {
        SkipWhile::new(vp, u_pred)
    }

    /// The items before the first value for which a predicate fails.
    pub fn take_while(vp: ValueProducer, u_pred: UnaryPredicate) -> (r: TakeWhile)
        ensures
            r == TakeWhile(Box::new(vp), u_pred),
    {
        TakeWhile::new(vp, u_pred)
    }

    /// Each item followed by a copy of a value.
    pub fn intersperse(vp: ValueProducer, mv: MetaVal) -> (r: Intersperse)
        ensures
            r == Intersperse(Box::new(vp), mv),
    {
        Intersperse::new(vp, mv)
    }

    /// The items of two producers in turn.
    pub fn interleave(vp_a: ValueProducer, vp_b: ValueProducer) -> (r: Interleave)
        ensures
            r == Interleave(Box::new(vp_a), Box::new(vp_b)),
    {
        Interleave::new(vp_a, vp_b)
    }
}

} // verus!
