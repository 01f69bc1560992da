//! Sequences and streams of values: what collecting, reversing, sorting,
//! flattening and removing duplicates give, as spec functions, with the
//! executable forms that the operators share.

use vstd::prelude::*;

use itertools::Itertools;

use crate::functions::Error;
use crate::metadata::types::{MetaVal, ValView, vals_view, lemma_vals_view, val_order, val_wf};
use crate::metadata::types::{lemma_val_order_antisymmetric, lemma_vals_view_concat, lemma_vals_wf};

verus! {

/// The view of a stream of values, each of which may be an error.
pub open spec fn stream_view(s: Seq<Result<MetaVal, Error>>) -> Seq<Result<ValView, Error>> {
    Seq::new(
        s.len(),
        |i: int|
            match s[i] {
                Ok(v) => Ok(v@),
                Err(e) => Err(e),
            },
    )
}

/// Every value of a stream is well formed.
pub open spec fn stream_wf(s: Seq<Result<MetaVal, Error>>) -> bool {
    forall|i: int| 0 <= i < s.len() ==> (#[trigger] s[i] matches Ok(v) ==> val_wf(v@))
}

/// The view of a value or an error.
pub open spec fn result_view(r: Result<MetaVal, Error>) -> Result<ValView, Error> {
    match r {
        Ok(v) => Ok(v@),
        Err(e) => Err(e),
    }
}

/// Taking the first of the remaining items of a stream.
pub proof fn lemma_stream_take_first(
    before: Seq<Result<MetaVal, Error>>,
    after: Seq<Result<MetaVal, Error>>,
    s: Seq<Result<ValView, Error>>,
    i: int,
)
    requires
        0 <= i < s.len(),
        stream_view(before) == s.skip(i),
        after == before.remove(0),
        stream_wf(before),
    ensures
        stream_view(after) == s.skip(i + 1),
        result_view(before[0]) == s[i],
        s.skip(i).drop_first() == s.skip(i + 1),
        s.skip(i)[0] == s[i],
        stream_wf(after),
        before[0] matches Ok(v) ==> val_wf(v@),
{
    assert(s.skip(i)[0] == s[i]);
    assert(stream_view(before).len() == before.len());
    assert(stream_view(before)[0] == result_view(before[0]));
    assert(s.skip(i).drop_first() =~= s.skip(i + 1));
    assert forall|k: int| 0 <= k < after.len() implies stream_view(after)[k] == s.skip(i + 1)[k] by {
        assert(after[k] == before[k + 1]);
        assert(stream_view(before)[k + 1] == s.skip(i)[k + 1]);
    }
    assert(stream_view(after) =~= s.skip(i + 1));
    assert forall|k: int| 0 <= k < after.len() implies (#[trigger] after[k] matches Ok(v) ==> val_wf(
        v@,
    )) by {
        assert(after[k] == before[k + 1]);
    }
    assert(before[0] == before[0]);
}

/// A stream that yields the given values, without errors.
pub open spec fn ok_stream(vs: Seq<ValView>) -> Seq<Result<ValView, Error>> {
    Seq::new(vs.len(), |i: int| Ok(vs[i]))
}

/// The values of a stream in order, or its first error.
pub open spec fn collected(s: Seq<Result<ValView, Error>>) -> Result<Seq<ValView>, Error>
    decreases s.len(),
{
    if s.len() == 0 {
        Ok(Seq::empty())
    } else {
        match s[0] {
            Err(e) => Err(e),
            Ok(v) => match collected(s.drop_first()) {
                Ok(vs) => Ok(seq![v] + vs),
                Err(e) => Err(e),
            },
        }
    }
}

/// The views of a sequence of values, extended by one.
pub proof fn lemma_vals_view_push(a: Seq<MetaVal>, x: MetaVal)
    ensures
        vals_view(a.push(x)) == vals_view(a).push(x@),
{
    lemma_vals_view(a);
    lemma_vals_view(a.push(x));
    assert(vals_view(a.push(x)) =~= vals_view(a).push(x@));
}

/// A stream without errors collects to its values.
pub proof fn lemma_collected_ok(vs: Seq<ValView>)
    ensures
        collected(ok_stream(vs)) == Ok::<Seq<ValView>, Error>(vs),
    decreases vs.len(),
{
    if vs.len() > 0 {
        assert(ok_stream(vs).drop_first() =~= ok_stream(vs.drop_first()));
        lemma_collected_ok(vs.drop_first());
        assert(ok_stream(vs)[0] == Ok::<ValView, Error>(vs[0]));
        assert(seq![vs[0]] + vs.drop_first() =~= vs);
    } else {
        assert(vs =~= Seq::<ValView>::empty());
    }
}

/// Collects the values of a stream in order; the first error stops it.
pub fn collect_stream(s: Vec<Result<MetaVal, Error>>) -> (r: Result<Vec<MetaVal>, Error>)
    ensures
        match (r, collected(stream_view(s@))) {
            (Ok(vs), Ok(ws)) => vals_view(vs@) == ws,
            (Err(e), Err(f)) => e == f,
            _ => false,
        },
        r matches Ok(vs) ==> (stream_wf(s@) ==> forall|k: int|
            0 <= k < vs@.len() ==> val_wf(#[trigger] vs@[k]@)),
{
    let ghost s0 = stream_view(s@);
    let mut rest = s;
    let mut out: Vec<MetaVal> = Vec::new();
    let ghost mut i: int = 0;
    proof {
        assert(s0.skip(0) =~= s0);
        assert(vals_view(out@) =~= Seq::<ValView>::empty());
    }
    while rest.len() > 0
        invariant
            s0 == stream_view(s@),
            0 <= i <= s0.len(),
            stream_view(rest@) == s0.skip(i),
            stream_wf(s@) ==> stream_wf(rest@),
            stream_wf(s@) ==> forall|k: int| 0 <= k < out@.len() ==> val_wf(#[trigger] out@[k]@),
            collected(s0) == (match collected(s0.skip(i)) {
                Ok(ws) => Ok(vals_view(out@) + ws),
                Err(e) => Err(e),
            }),
        decreases rest.len(),
    {
        let ghost before = rest@;
        let ghost out_before = out@;
        let x = rest.remove(0);
        proof {
            assert(stream_view(rest@) =~= s0.skip(i + 1)) by {
                assert(stream_view(rest@) =~= stream_view(before).drop_first());
            }
            if stream_wf(s@) {
                assert(before[0] == x);
                assert forall|k: int| 0 <= k < rest@.len() implies (#[trigger] rest@[k] matches Ok(v) ==> val_wf(v@)) by {
                    assert(rest@[k] == before[k + 1]);
                }
            }
            assert(s0.skip(i).drop_first() =~= s0.skip(i + 1));
            assert(s0.skip(i)[0] == stream_view(before)[0]);
        }
        match x {
            Err(e) => {
                proof {
                    assert(s0.skip(i)[0] == Err::<ValView, Error>(e));
                    assert(collected(s0.skip(i)) == Err::<Seq<ValView>, Error>(e));
                }
                return Err(e);
            },
            Ok(v) => {
                out.push(v);
                proof {
                    lemma_vals_view_push(out_before, v);
                    i = i + 1;
                    match collected(s0.skip(i)) {
                        Ok(ws) => {
                            assert(vals_view(out_before) + (seq![v@] + ws) =~= vals_view(out@)
                                + ws);
                        },
                        Err(e) => {},
                    }
                }
            },
        }
    }
    proof {
        assert(s0.skip(i).len() == 0);
        assert(vals_view(out@) + Seq::<ValView>::empty() =~= vals_view(out@));
    }
    Ok(out)
}

/// The values of a vector in reverse order.
pub fn reverse_values(v: Vec<MetaVal>) -> (r: Vec<MetaVal>)
    ensures
        vals_view(r@) == vals_view(v@).reverse(),
{
    let ghost v0 = v@;
    let mut rest = v;
    let mut out: Vec<MetaVal> = Vec::new();
    while rest.len() > 0
        invariant
            rest@.len() <= v0.len(),
            rest@ == v0.take(rest@.len() as int),
            out@ == v0.skip(rest@.len() as int).reverse(),
        decreases rest.len(),
    {
        let ghost before = rest@;
        let x = rest.pop().unwrap();
        proof {
            assert(rest@ =~= v0.take(rest@.len() as int));
            assert(v0.skip(rest@.len() as int).reverse() =~= v0.skip(before.len() as int).reverse().push(x));
        }
        out.push(x);
    }
    proof {
        assert(v0.skip(0) =~= v0);
        lemma_vals_view(out@);
        lemma_vals_view(v0);
        assert(vals_view(out@) =~= vals_view(v0).reverse());
    }
    out
}

/// A value inserted into a sequence before the first element that it does
/// not exceed.
pub open spec fn inserted(x: ValView, ys: Seq<ValView>) -> Seq<ValView>
    decreases ys.len(),
{
    if ys.len() == 0 || val_order(x, ys[0]) <= 0 {
        seq![x] + ys
    } else {
        seq![ys[0]] + inserted(x, ys.drop_first())
    }
}

/// The values of a sequence in increasing value order.
pub open spec fn sorted_vals(xs: Seq<ValView>) -> Seq<ValView>
    decreases xs.len(),
{
    if xs.len() == 0 {
        Seq::empty()
    } else {
        inserted(xs[0], sorted_vals(xs.drop_first()))
    }
}

/// Reversing a sequence of values twice gives it back.
pub proof fn lemma_reverse_twice(xs: Seq<ValView>)
    ensures
        xs.reverse().reverse() == xs,
{
    assert(xs.reverse().reverse() =~= xs);
}

/// Flattening changes nothing in a sequence that holds no sequence value.
pub proof fn lemma_flattened_flat(xs: Seq<ValView>)
    requires
        forall|i: int| 0 <= i < xs.len() ==> !(#[trigger] xs[i] is Sequence),
    ensures
        flattened(xs) == xs,
    decreases xs.len(),
{
    if xs.len() > 0 {
        let d = xs.drop_last();
        assert forall|i: int| 0 <= i < d.len() implies !(#[trigger] d[i] is Sequence) by {
            assert(d[i] == xs[i]);
        }
        lemma_flattened_flat(d);
        assert(!(xs[xs.len() - 1] is Sequence));
        assert(flat_piece(xs.last()) == seq![xs.last()]);
        assert(d + seq![xs.last()] =~= xs);
    }
}

/// Removing repeats of the value before leaves no two equal values next to
/// each other, and keeps the last value.
pub proof fn lemma_deduped_no_repeats(xs: Seq<ValView>)
    ensures
        forall|i: int| 0 <= i < deduped(xs).len() - 1 ==> #[trigger] deduped(xs)[i] != deduped(xs)[i + 1],
        xs.len() > 0 ==> deduped(xs).len() > 0 && deduped(xs).last() == xs.last(),
    decreases xs.len(),
{
    if xs.len() > 0 {
        let d = xs.drop_last();
        lemma_deduped_no_repeats(d);
        if xs.len() > 1 && xs[xs.len() - 2] == xs.last() {
            assert(d.last() == xs[xs.len() - 2]);
        } else {
            let r = deduped(d).push(xs.last());
            if d.len() > 0 {
                assert(d.last() == xs[xs.len() - 2]);
            }
            assert forall|i: int| 0 <= i < r.len() - 1 implies #[trigger] r[i] != r[i + 1] by {
                if i < r.len() - 2 {
                    assert(r[i] == deduped(d)[i]);
                    assert(r[i + 1] == deduped(d)[i + 1]);
                } else {
                    assert(r[i] == deduped(d).last());
                }
            }
        }
    }
}

/// Whether `idx` gives, in increasing order, positions in `b` that hold the
/// values of `a` one by one.
pub open spec fn subsequence_positions(a: Seq<ValView>, b: Seq<ValView>, idx: Seq<int>) -> bool {
    &&& idx.len() == a.len()
    &&& forall|k: int| 0 <= k < idx.len() ==> 0 <= #[trigger] idx[k] < b.len() && a[k] == b[idx[k]]
    &&& forall|k: int, l: int| 0 <= k < l < idx.len() ==> idx[k] < idx[l]
}

/// Whether `a` is `b` with some of its values left out.
pub open spec fn is_subsequence(a: Seq<ValView>, b: Seq<ValView>) -> bool {
    exists|idx: Seq<int>| #[trigger] subsequence_positions(a, b, idx)
}

/// The positions in a sequence of the values that removing repeats keeps.
proof fn deduped_positions(xs: Seq<ValView>) -> (idx: Seq<int>)
    ensures
        subsequence_positions(deduped(xs), xs, idx),
    decreases xs.len(),
{
    if xs.len() == 0 {
        Seq::empty()
    } else {
        let d = xs.drop_last();
        let i0 = deduped_positions(d);
        if xs.len() > 1 && xs[xs.len() - 2] == xs.last() {
            assert forall|k: int| 0 <= k < i0.len() implies 0 <= #[trigger] i0[k] < xs.len() && deduped(xs)[k]
                == xs[i0[k]] by {
                assert(d[i0[k]] == xs[i0[k]]);
            }
            i0
        } else {
            let idx = i0.push(xs.len() - 1);
            let r = deduped(xs);
            assert(r == deduped(d).push(xs.last()));
            assert forall|k: int| 0 <= k < idx.len() implies 0 <= #[trigger] idx[k] < xs.len() && r[k] == xs[idx[k]] by {
                if k < i0.len() {
                    assert(idx[k] == i0[k]);
                    assert(d[i0[k]] == xs[i0[k]]);
                }
            }
            assert forall|k: int, l: int| 0 <= k < l < idx.len() implies idx[k] < idx[l] by {
                if l < i0.len() {
                    assert(idx[k] == i0[k] && idx[l] == i0[l]);
                } else {
                    assert(idx[k] == i0[k]);
                }
            }
            idx
        }
    }
}

/// A sequence with no two equal values next to each other has no repeats
/// to remove.
proof fn lemma_deduped_unchanged(ys: Seq<ValView>)
    requires
        forall|i: int| 0 <= i < ys.len() - 1 ==> #[trigger] ys[i] != ys[i + 1],
    ensures
        deduped(ys) == ys,
    decreases ys.len(),
{
    if ys.len() > 0 {
        let d = ys.drop_last();
        assert forall|i: int| 0 <= i < d.len() - 1 implies #[trigger] d[i] != d[i + 1] by {
            assert(d[i] == ys[i] && d[i + 1] == ys[i + 1]);
        }
        lemma_deduped_unchanged(d);
        if ys.len() > 1 {
            assert(ys[ys.len() - 2] != ys[ys.len() - 1]);
        }
        assert(d.push(ys.last()) =~= ys);
    }
}

/// Removing repeats of the value before only leaves values out, and doing
/// it again changes nothing.
pub proof fn lemma_deduped_subsequence_idempotent(xs: Seq<ValView>)
    ensures
        is_subsequence(deduped(xs), xs),
        deduped(deduped(xs)) == deduped(xs),
{
    let idx = deduped_positions(xs);
    assert(subsequence_positions(deduped(xs), xs, idx));
    lemma_deduped_no_repeats(xs);
    lemma_deduped_unchanged(deduped(xs));
}

/// Removing repeats of any value before leaves distinct values, and the
/// same values as before.
pub proof fn lemma_uniqued_distinct(xs: Seq<ValView>)
    ensures
        forall|i: int, j: int| 0 <= i < j < uniqued(xs).len() ==> uniqued(xs)[i] != uniqued(xs)[j],
        forall|v: ValView| #[trigger] uniqued(xs).contains(v) <==> xs.contains(v),
    decreases xs.len(),
{
    if xs.len() > 0 {
        let d = xs.drop_last();
        lemma_uniqued_distinct(d);
        assert forall|v: ValView| xs.contains(v) <==> (d.contains(v) || v == xs.last()) by {
            if xs.contains(v) {
                let k = choose|k: int| 0 <= k < xs.len() && xs[k] == v;
                if k < xs.len() - 1 {
                    assert(d[k] == v);
                }
            }
            if d.contains(v) {
                let k = choose|k: int| 0 <= k < d.len() && d[k] == v;
                assert(xs[k] == v);
            }
            if v == xs.last() {
                assert(xs[xs.len() - 1] == v);
            }
        }
        if d.contains(xs.last()) {
        } else {
            let u = uniqued(d);
            let r = u.push(xs.last());
            assert forall|v: ValView| r.contains(v) <==> (u.contains(v) || v == xs.last()) by {
                if r.contains(v) {
                    let k = choose|k: int| 0 <= k < r.len() && r[k] == v;
                    if k < u.len() {
                        assert(u[k] == v);
                    }
                }
                if u.contains(v) {
                    let k = choose|k: int| 0 <= k < u.len() && u[k] == v;
                    assert(r[k] == v);
                }
                if v == xs.last() {
                    assert(r[r.len() - 1] == v);
                }
            }
            assert forall|i: int, j: int| 0 <= i < j < r.len() implies r[i] != r[j] by {
                if j < u.len() {
                    assert(r[i] == u[i]);
                    assert(r[j] == u[j]);
                } else {
                    assert(r[i] == u[i]);
                    assert(u.contains(u[i]));
                }
            }
        }
    }
}

/// Whether each value of a sequence is at most the next one.
pub open spec fn is_sorted(xs: Seq<ValView>) -> bool {
    forall|i: int| 0 <= i < xs.len() - 1 ==> val_order(#[trigger] xs[i], xs[i + 1]) <= 0
}

proof fn lemma_inserted_split(x: ValView, ys: Seq<ValView>, j: int)
    requires
        0 <= j < ys.len(),
        inserted(x, ys) == ys.take(j) + inserted(x, ys.skip(j)),
        val_order(x, ys[j]) > 0,
    ensures
        inserted(x, ys) == ys.take(j + 1) + inserted(x, ys.skip(j + 1)),
{
    assert(ys.skip(j).drop_first() =~= ys.skip(j + 1));
    assert(ys.skip(j)[0] == ys[j]);
    assert(ys.take(j) + (seq![ys[j]] + inserted(x, ys.skip(j + 1))) =~= ys.take(j + 1) + inserted(
        x,
        ys.skip(j + 1),
    ));
}

/// Inserts a value into a vector in increasing value order.
fn insert_value(acc: &mut Vec<MetaVal>, x: MetaVal)
    requires
        val_wf(x@),
        forall|k: int| 0 <= k < old(acc)@.len() ==> val_wf(#[trigger] old(acc)@[k]@),
    ensures
        vals_view(final(acc)@) == inserted(x@, vals_view(old(acc)@)),
        forall|k: int| 0 <= k < final(acc)@.len() ==> val_wf(#[trigger] final(acc)@[k]@),
{
    let ghost a = vals_view(acc@);
    proof {
        lemma_vals_view(acc@);
        assert(a.skip(0) =~= a);
        assert(a.take(0) + inserted(x@, a.skip(0)) =~= inserted(x@, a));
    }
    let mut j: usize = 0;
    while j < acc.len() && x.order(&acc[j]) > 0
        invariant
            j <= acc.len(),
            a == vals_view(acc@),
            a.len() == acc@.len(),
            forall|k: int| 0 <= k < acc@.len() ==> vals_view(acc@)[k] == acc@[k]@,
            forall|k: int| 0 <= k < acc@.len() ==> val_wf(#[trigger] acc@[k]@),
            val_wf(x@),
            inserted(x@, a) == a.take(j as int) + inserted(x@, a.skip(j as int)),
        decreases acc.len() - j,
    {
        proof {
            lemma_inserted_split(x@, a, j as int);
        }
        j = j + 1;
    }
    proof {
        assert(a.skip(j as int).len() == 0 || a.skip(j as int)[0] == a[j as int]);
        assert(inserted(x@, a.skip(j as int)) == seq![x@] + a.skip(j as int));
    }
    let ghost before = acc@;
    acc.insert(j, x);
    proof {
        lemma_vals_view(acc@);
        assert(vals_view(acc@) =~= a.take(j as int) + (seq![x@] + a.skip(j as int)));
        assert forall|k: int| 0 <= k < acc@.len() implies val_wf(#[trigger] acc@[k]@) by {
            if k < j {
                assert(acc@[k] == before[k]);
            } else if k > j {
                assert(acc@[k] == before[k - 1]);
            }
        }
    }
}

/// The values of a vector in increasing value order.
pub fn sort_values(v: Vec<MetaVal>) -> (r: Vec<MetaVal>)
    requires
        forall|k: int| 0 <= k < v@.len() ==> val_wf(#[trigger] v@[k]@),
    ensures
        vals_view(r@) == sorted_vals(vals_view(v@)),
{
    let ghost xs = vals_view(v@);
    proof {
        lemma_vals_view(v@);
    }
    let mut rest = v;
    let mut acc: Vec<MetaVal> = Vec::new();
    proof {
        assert(xs.skip(xs.len() as int) =~= Seq::<ValView>::empty());
        assert(vals_view(acc@) =~= Seq::<ValView>::empty());
    }
    while rest.len() > 0
        invariant
            rest@.len() <= xs.len(),
            vals_view(rest@) == xs.take(rest@.len() as int),
            forall|k: int| 0 <= k < rest@.len() ==> val_wf(#[trigger] rest@[k]@),
            forall|k: int| 0 <= k < acc@.len() ==> val_wf(#[trigger] acc@[k]@),
            vals_view(acc@) == sorted_vals(xs.skip(rest@.len() as int)),
        decreases rest.len(),
    {
        let ghost before = rest@;
        let x = rest.pop().unwrap();
        proof {
            let n = rest@.len() as int;
            lemma_vals_view(before);
            lemma_vals_view(rest@);
            assert(before == rest@.push(x));
            assert(vals_view(rest@) =~= xs.take(n));
            assert(xs.skip(n).drop_first() =~= xs.skip(n + 1));
            assert(before[n] == x);
            assert(vals_view(before)[n] == x@);
            assert(xs.take(n + 1)[n] == xs[n]);
            assert(xs.skip(n)[0] == x@);
            assert(val_wf(before[n]@));
        }
        insert_value(&mut acc, x);
    }
    proof {
        assert(xs.skip(0) =~= xs);
    }
    acc
}

proof fn lemma_inserted_sorted(x: ValView, ys: Seq<ValView>)
    requires
        is_sorted(ys),
    ensures
        is_sorted(inserted(x, ys)),
        inserted(x, ys).len() == ys.len() + 1,
        inserted(x, ys)[0] == x || (ys.len() > 0 && inserted(x, ys)[0] == ys[0]),
    decreases ys.len(),
{
    if ys.len() == 0 || val_order(x, ys[0]) <= 0 {
        let r = seq![x] + ys;
        assert forall|i: int| 0 <= i < r.len() - 1 implies val_order(#[trigger] r[i], r[i + 1])
            <= 0 by {
            if i > 0 {
                assert(r[i] == ys[i - 1]);
                assert(r[i + 1] == ys[i]);
            }
        }
    } else {
        let rest = ys.drop_first();
        assert forall|i: int| 0 <= i < rest.len() - 1 implies val_order(#[trigger] rest[i], rest[i + 1])
            <= 0 by {
            assert(rest[i] == ys[i + 1]);
            assert(rest[i + 1] == ys[i + 2]);
        }
        lemma_inserted_sorted(x, rest);
        lemma_val_order_antisymmetric(x, ys[0]);
        let t = inserted(x, rest);
        let r = seq![ys[0]] + t;
        assert forall|i: int| 0 <= i < r.len() - 1 implies val_order(#[trigger] r[i], r[i + 1])
            <= 0 by {
            if i > 0 {
                assert(r[i] == t[i - 1]);
                assert(r[i + 1] == t[i]);
            } else if rest.len() > 0 && t[0] == rest[0] {
                assert(rest[0] == ys[1]);
            }
        }
    }
}

proof fn lemma_inserted_multiset(x: ValView, ys: Seq<ValView>)
    ensures
        inserted(x, ys).to_multiset() == ys.to_multiset().insert(x),
    decreases ys.len(),
{
    broadcast use vstd::seq_lib::group_to_multiset_ensures;

    if ys.len() == 0 || val_order(x, ys[0]) <= 0 {
        assert(seq![x] + ys =~= ys.insert(0, x));
    } else {
        let rest = ys.drop_first();
        lemma_inserted_multiset(x, rest);
        vstd::seq_lib::lemma_multiset_commutative(seq![ys[0]], inserted(x, rest));
        vstd::seq_lib::lemma_multiset_commutative(seq![ys[0]], rest);
        assert(seq![ys[0]] + rest =~= ys);
        assert(seq![ys[0]].to_multiset() =~= Seq::<ValView>::empty().push(ys[0]).to_multiset()) by {
            assert(seq![ys[0]] =~= Seq::<ValView>::empty().push(ys[0]));
        }
        assert(inserted(x, ys).to_multiset() =~= ys.to_multiset().insert(x));
    }
}

/// Sorting puts each value at most the next one, and keeps the values with
/// their multiplicities.
pub proof fn lemma_sorted_vals(xs: Seq<ValView>)
    ensures
        is_sorted(sorted_vals(xs)),
        sorted_vals(xs).to_multiset() == xs.to_multiset(),
    decreases xs.len(),
{
    broadcast use vstd::seq_lib::group_to_multiset_ensures;

    if xs.len() > 0 {
        lemma_sorted_vals(xs.drop_first());
        lemma_inserted_sorted(xs[0], sorted_vals(xs.drop_first()));
        lemma_inserted_multiset(xs[0], sorted_vals(xs.drop_first()));
        assert(xs.drop_first().insert(0, xs[0]) =~= xs);
    } else {
        assert(sorted_vals(xs).to_multiset() =~= xs.to_multiset()) by {
            assert(xs =~= Seq::<ValView>::empty());
        }
    }
}

/// Taking the first of the remaining values of a sequence.
pub proof fn lemma_take_first(before: Seq<MetaVal>, after: Seq<MetaVal>, xs: Seq<ValView>, i: int)
    requires
        0 <= i < xs.len(),
        vals_view(before) == xs.skip(i),
        after == before.remove(0),
    ensures
        vals_view(after) == xs.skip(i + 1),
        before[0]@ == xs[i],
        before.len() > 0,
{
    lemma_vals_view(before);
    lemma_vals_view(after);
    assert(xs.skip(i).len() == xs.len() - i);
    assert(xs.skip(i)[0] == xs[i]);
    assert forall|k: int| 0 <= k < after.len() implies vals_view(after)[k] == xs.skip(i + 1)[k] by {
        assert(after[k] == before[k + 1]);
        assert(vals_view(before)[k + 1] == xs.skip(i)[k + 1]);
    }
    assert(vals_view(after) =~= xs.skip(i + 1));
}

/// What flattening makes of one value: the elements of a sequence, or the
/// value itself.
pub open spec fn flat_piece(v: ValView) -> Seq<ValView> {
    match v {
        ValView::Sequence(ys) => ys,
        _ => seq![v],
    }
}

/// A sequence with each of its sequence values replaced by their elements.
pub open spec fn flattened(xs: Seq<ValView>) -> Seq<ValView>
    decreases xs.len(),
{
    if xs.len() == 0 {
        Seq::empty()
    } else {
        flattened(xs.drop_last()) + flat_piece(xs.last())
    }
}

/// Flattening splices in the elements of every sequence value, the empty
/// one included, and keeps every other value as it is, in order: it
/// leaves an empty sequence empty, gives the elements of a lone sequence
/// value and a lone other value itself, and works piecewise over
/// concatenation.
pub proof fn lemma_flattened_splices(xs: Seq<ValView>, ys: Seq<ValView>, v: ValView)
    ensures
        flattened(Seq::<ValView>::empty()) == Seq::<ValView>::empty(),
        flattened(seq![ValView::Sequence(ys)]) == ys,
        !(v is Sequence) ==> flattened(seq![v]) == seq![v],
        flattened(xs + ys) == flattened(xs) + flattened(ys),
    decreases ys.len(),
{
    let one = seq![ValView::Sequence(ys)];
    assert(one.drop_last() =~= Seq::<ValView>::empty());
    assert(flattened(one) == flattened(Seq::<ValView>::empty()) + ys);
    assert(Seq::<ValView>::empty() + ys =~= ys);
    assert(seq![v].drop_last() =~= Seq::<ValView>::empty());
    assert(Seq::<ValView>::empty() + seq![v] =~= seq![v]);
    if ys.len() == 0 {
        assert(xs + ys =~= xs);
        assert(flattened(xs) + Seq::<ValView>::empty() =~= flattened(xs));
    } else {
        lemma_flattened_splices(xs, ys.drop_last(), v);
        assert((xs + ys).drop_last() =~= xs + ys.drop_last());
        assert((xs + ys).last() == ys.last());
        assert(flattened(xs) + flattened(ys.drop_last()) + flat_piece(ys.last()) =~= flattened(xs) + (
        flattened(ys.drop_last()) + flat_piece(ys.last())));
    }
}

/// A sequence without the values that equal the value before them.
pub open spec fn deduped(xs: Seq<ValView>) -> Seq<ValView>
    decreases xs.len(),
{
    if xs.len() == 0 {
        Seq::empty()
    } else if xs.len() > 1 && xs[xs.len() - 2] == xs.last() {
        deduped(xs.drop_last())
    } else {
        deduped(xs.drop_last()).push(xs.last())
    }
}

/// A sequence without the values that equal any value before them.
pub open spec fn uniqued(xs: Seq<ValView>) -> Seq<ValView>
    decreases xs.len(),
{
    if xs.len() == 0 {
        Seq::empty()
    } else if xs.drop_last().contains(xs.last()) {
        uniqued(xs.drop_last())
    } else {
        uniqued(xs.drop_last()).push(xs.last())
    }
}

/// The positions of the values of a sequence that equal no value before
/// them, in increasing order.
pub open spec fn first_occurrences(xs: Seq<ValView>) -> Seq<int>
    decreases xs.len(),
{
    if xs.len() == 0 {
        Seq::empty()
    } else if xs.drop_last().contains(xs.last()) {
        first_occurrences(xs.drop_last())
    } else {
        first_occurrences(xs.drop_last()).push(xs.len() - 1)
    }
}

proof fn lemma_take_next(xs: Seq<ValView>, i: int)
    requires
        0 <= i < xs.len(),
    ensures
        xs.take(i + 1).drop_last() == xs.take(i),
        xs.take(i + 1).last() == xs[i],
        xs.take(i + 1).len() == i + 1,
{
    assert(xs.take(i + 1).drop_last() =~= xs.take(i));
}

/// Replaces each sequence value of a vector by its elements.
pub fn flatten_values(v: Vec<MetaVal>) -> (r: Vec<MetaVal>)
    ensures
        vals_view(r@) == flattened(vals_view(v@)),
{
    let ghost xs = vals_view(v@);
    let mut rest = v;
    let mut out: Vec<MetaVal> = Vec::new();
    let ghost mut i: int = 0;
    proof {
        lemma_vals_view(v@);
        assert(xs.skip(0) =~= xs);
        assert(xs.take(0) =~= Seq::<ValView>::empty());
        assert(vals_view(out@) =~= Seq::<ValView>::empty());
    }
    while rest.len() > 0
        invariant
            xs.len() == i + rest@.len(),
            0 <= i <= xs.len(),
            vals_view(rest@) == xs.skip(i),
            vals_view(out@) == flattened(xs.take(i)),
        decreases rest.len(),
    {
        let ghost before = rest@;
        let ghost out_before = out@;
        let x = rest.remove(0);
        proof {
            lemma_take_first(before, rest@, xs, i);
            lemma_take_next(xs, i);
        }
        match x {
            MetaVal::Sequence(mut inner) => {
                let ghost iv = inner@;
                out.append(&mut inner);
                proof {
                    lemma_vals_view_concat(out_before, iv);
                }
            },
            other => {
                out.push(other);
                proof {
                    lemma_vals_view_push(out_before, other);
                }
            },
        }
        proof {
            i = i + 1;
        }
    }
    proof {
        assert(xs.take(i) =~= xs);
    }
    out
}

/// Removes from a vector each value that equals the value before it.
pub fn dedup_values(v: Vec<MetaVal>) -> (r: Vec<MetaVal>)
    ensures
        vals_view(r@) == deduped(vals_view(v@)),
{
    let ghost xs = vals_view(v@);
    let mut rest = v;
    let mut out: Vec<MetaVal> = Vec::new();
    let ghost mut i: int = 0;
    proof {
        lemma_vals_view(v@);
        assert(xs.skip(0) =~= xs);
        assert(xs.take(0) =~= Seq::<ValView>::empty());
        assert(vals_view(out@) =~= Seq::<ValView>::empty());
    }
    while rest.len() > 0
        invariant
            xs.len() == i + rest@.len(),
            0 <= i <= xs.len(),
            vals_view(rest@) == xs.skip(i),
            vals_view(out@) == deduped(xs.take(i)),
            i > 0 ==> out@.len() > 0 && out@.last()@ == xs[i - 1],
        decreases rest.len(),
    {
        let ghost before = rest@;
        let ghost out_before = out@;
        let x = rest.remove(0);
        proof {
            lemma_take_first(before, rest@, xs, i);
            lemma_take_next(xs, i);
            lemma_vals_view(out_before);
        }
        let n = out.len();
        let duplicate = n > 0 && x.equal(&out[n - 1]);
        if !duplicate {
            out.push(x);
            proof {
                lemma_vals_view_push(out_before, x);
            }
        }
        proof {
            if i > 0 {
                assert(xs.take(i + 1)[i - 1] == xs[i - 1]);
            }
            i = i + 1;
        }
    }
    proof {
        assert(xs.take(i) =~= xs);
    }
    out
}

/// The positions of the first occurrences of the distinct values of a
/// vector, from the `unique_by` adaptor of `itertools` keyed by the value
/// itself. Its documentation promises that it yields, in their order, the
/// items whose key was not produced before; two values are the same key
/// when their derived `==` holds, which compares them field by field, as
/// their views do.
#[verifier::external_body]
fn first_occurrence_positions(v: &Vec<MetaVal>) -> (r: Vec<usize>)
    ensures
        r@.len() == first_occurrences(vals_view(v@)).len(),
        forall|k: int| 0 <= k < r@.len() ==> r@[k] as int == first_occurrences(vals_view(v@))[k],
{
    v.iter().enumerate().unique_by(|p| p.1).map(|p| p.0).collect()
}

proof fn lemma_first_occurrences_prefix(xs: Seq<ValView>, i: int)
    requires
        0 <= i <= xs.len(),
    ensures
        first_occurrences(xs.take(i)).len() <= first_occurrences(xs).len(),
        first_occurrences(xs).take(first_occurrences(xs.take(i)).len() as int) == first_occurrences(
            xs.take(i),
        ),
        forall|k: int|
            first_occurrences(xs.take(i)).len() <= k < first_occurrences(xs).len() ==> i
                <= #[trigger] first_occurrences(xs)[k] < xs.len(),
    decreases xs.len() - i,
{
    if i == xs.len() {
        assert(xs.take(i) =~= xs);
        assert(first_occurrences(xs).take(first_occurrences(xs).len() as int) =~= first_occurrences(
            xs,
        ));
    } else {
        let d = xs.drop_last();
        assert(d.take(i) =~= xs.take(i));
        lemma_first_occurrences_prefix(d, i);
        lemma_first_occurrences_bounded(d);
        let fd = first_occurrences(d);
        let f = first_occurrences(xs);
        let fi = first_occurrences(xs.take(i));
        if !d.contains(xs.last()) {
            assert(f == fd.push(xs.len() - 1));
            assert(f.take(fi.len() as int) =~= fd.take(fi.len() as int));
        }
    }
}

proof fn lemma_first_occurrences_bounded(xs: Seq<ValView>)
    ensures
        forall|k: int| 0 <= k < first_occurrences(xs).len() ==> 0 <= #[trigger] first_occurrences(xs)[k] < xs.len(),
    decreases xs.len(),
{
    if xs.len() > 0 {
        let d = xs.drop_last();
        lemma_first_occurrences_bounded(d);
        let f = first_occurrences(xs);
        let fd = first_occurrences(d);
        assert forall|k: int| 0 <= k < f.len() implies 0 <= #[trigger] f[k] < xs.len() by {
            if k < fd.len() {
                assert(f[k] == fd[k]);
            }
        }
    }
}

/// Keeps of each value of a vector its first occurrence, in order.
pub fn unique_values(v: Vec<MetaVal>) -> (r: Vec<MetaVal>)
    ensures
        vals_view(r@) == uniqued(vals_view(v@)),
{
    let ghost xs = vals_view(v@);
    let positions = first_occurrence_positions(&v);
    let ghost f = first_occurrences(xs);
    let n = v.len();
    let mut rest = v;
    let mut out: Vec<MetaVal> = Vec::new();
    let mut i: usize = 0;
    let mut k: usize = 0;
    proof {
        lemma_vals_view(v@);
        assert(xs.skip(0) =~= xs);
        assert(xs.take(0) =~= Seq::<ValView>::empty());
        assert(vals_view(out@) =~= Seq::<ValView>::empty());
    }
    while rest.len() > 0
        invariant
            xs.len() == i + rest@.len(),
            xs.len() == n,
            0 <= i <= xs.len(),
            f == first_occurrences(xs),
            positions@.len() == f.len(),
            forall|m: int| 0 <= m < positions@.len() ==> positions@[m] as int == f[m],
            vals_view(rest@) == xs.skip(i as int),
            vals_view(out@) == uniqued(xs.take(i as int)),
            k == first_occurrences(xs.take(i as int)).len(),
        decreases rest.len(),
    {
        let ghost before = rest@;
        let ghost out_before = out@;
        let x = rest.remove(0);
        proof {
            lemma_take_first(before, rest@, xs, i as int);
            lemma_take_next(xs, i as int);
            lemma_first_occurrences_prefix(xs, i as int);
            lemma_first_occurrences_prefix(xs, i + 1);
            let fi = first_occurrences(xs.take(i as int));
            let fj = first_occurrences(xs.take(i + 1));
            if !xs.take(i as int).contains(xs[i as int]) {
                assert(fj == fi.push(i as int));
                assert(f.take(fj.len() as int)[k as int] == f[k as int]);
            } else {
                assert(fj == fi);
                if k < f.len() {
                    assert(i + 1 <= f[k as int]);
                }
            }
        }
        if k < positions.len() && positions[k] == i {
            out.push(x);
            proof {
                lemma_vals_view_push(out_before, x);
            }
            k = k + 1;
        }
        i = i + 1;
    }
    proof {
        assert(xs.take(i as int) =~= xs);
    }
    out
}

/// The values of a vector as a stream without errors.
pub fn ok_values(v: Vec<MetaVal>) -> (r: Vec<Result<MetaVal, Error>>)
    ensures
        stream_view(r@) == ok_stream(vals_view(v@)),
        (forall|k: int| 0 <= k < v@.len() ==> val_wf(#[trigger] v@[k]@)) ==> stream_wf(r@),
{
    let ghost xs = vals_view(v@);
    let ghost v0 = v@;
    let mut rest = v;
    let mut out: Vec<Result<MetaVal, Error>> = Vec::new();
    let ghost mut i: int = 0;
    proof {
        lemma_vals_view(v@);
        assert(xs.skip(0) =~= xs);
        assert(v0.skip(0) =~= v0);
    }
    while rest.len() > 0
        invariant
            xs.len() == v0.len(),
            xs.len() == i + rest@.len(),
            0 <= i <= xs.len(),
            rest@ == v0.skip(i),
            vals_view(rest@) == xs.skip(i),
            stream_view(out@) == ok_stream(xs.take(i)),
            forall|k: int| 0 <= k < out@.len() ==> (#[trigger] out@[k] matches Ok(w) && w == v0[k]),
            out@.len() == i,
        decreases rest.len(),
    {
        let ghost before = rest@;
        let ghost out_before = out@;
        let x = rest.remove(0);
        proof {
            lemma_take_first(before, rest@, xs, i);
            assert(rest@ =~= v0.skip(i + 1));
            assert(before[0] == v0[i]);
        }
        out.push(Ok(x));
        proof {
            assert forall|k: int| 0 <= k < i + 1 implies stream_view(out@)[k] == ok_stream(
                xs.take(i + 1),
            )[k] by {
                if k < i {
                    assert(out@[k] == out_before[k]);
                    assert(stream_view(out_before)[k] == ok_stream(xs.take(i))[k]);
                }
            }
            assert(stream_view(out@) =~= ok_stream(xs.take(i + 1)));
            i = i + 1;
        }
    }
    proof {
        assert(xs.take(i) =~= xs);
    }
    out
}

/// Whether every value of a sequence is well formed.
pub open spec fn all_wf(xs: Seq<ValView>) -> bool {
    forall|i: int| 0 <= i < xs.len() ==> val_wf(#[trigger] xs[i])
}

/// The values of a vector are all well formed exactly when their views
/// are.
pub proof fn lemma_all_wf_values(v: Seq<MetaVal>)
    ensures
        all_wf(vals_view(v)) <==> forall|k: int| 0 <= k < v.len() ==> val_wf(#[trigger] v[k]@),
{
    lemma_vals_view(v);
    if all_wf(vals_view(v)) {
        assert forall|k: int| 0 <= k < v.len() implies val_wf(#[trigger] v[k]@) by {
            assert(vals_view(v)[k] == v[k]@);
        }
    }
    if forall|k: int| 0 <= k < v.len() ==> val_wf(#[trigger] v[k]@) {
        assert forall|k: int| 0 <= k < vals_view(v).len() implies val_wf(#[trigger] vals_view(v)[k]) by {
            assert(vals_view(v)[k] == v[k]@);
        }
    }
}

/// A sequence value of well-formed values is well formed.
pub proof fn lemma_sequence_wf(v: Seq<MetaVal>)
    requires
        forall|k: int| 0 <= k < v.len() ==> val_wf(#[trigger] v[k]@),
    ensures
        val_wf(ValView::Sequence(vals_view(v))),
{
    lemma_all_wf_values(v);
    crate::metadata::types::lemma_vals_wf(vals_view(v));
}

/// Reversing, flattening and removing repeats of well-formed values give
/// well-formed values.
pub proof fn lemma_values_keep_wf(v: Seq<MetaVal>, r: Seq<MetaVal>)
    requires
        forall|k: int| 0 <= k < v.len() ==> val_wf(#[trigger] v[k]@),
        vals_view(r) == vals_view(v).reverse() || vals_view(r) == flattened(vals_view(v)) || vals_view(r)
            == deduped(vals_view(v)) || vals_view(r) == uniqued(vals_view(v)),
    ensures
        forall|k: int| 0 <= k < r.len() ==> val_wf(#[trigger] r[k]@),
{
    lemma_all_wf_values(v);
    lemma_ops_keep_wf(vals_view(v));
    lemma_all_wf_values(r);
}

/// Reversing, sorting, flattening and removing repeats keep every value
/// well formed.
pub proof fn lemma_ops_keep_wf(xs: Seq<ValView>)
    requires
        all_wf(xs),
    ensures
        all_wf(xs.reverse()),
        all_wf(sorted_vals(xs)),
        all_wf(flattened(xs)),
        all_wf(deduped(xs)),
        all_wf(uniqued(xs)),
{
    assert forall|i: int| 0 <= i < xs.reverse().len() implies val_wf(#[trigger] xs.reverse()[i]) by {
        assert(xs.reverse()[i] == xs[xs.len() - 1 - i]);
    }
    lemma_sorted_vals(xs);
    let s = sorted_vals(xs);
    assert forall|i: int| 0 <= i < s.len() implies val_wf(#[trigger] s[i]) by {
        broadcast use vstd::seq_lib::group_to_multiset_ensures;

        assert(s.contains(s[i]));
        assert(s.to_multiset().count(s[i]) > 0);
        assert(xs.contains(s[i]));
    }
    lemma_flattened_wf(xs);
    lemma_deduped_wf(xs);
    lemma_uniqued_wf(xs);
}

proof fn lemma_flattened_wf(xs: Seq<ValView>)
    requires
        all_wf(xs),
    ensures
        all_wf(flattened(xs)),
    decreases xs.len(),
{
    if xs.len() > 0 {
        let d = xs.drop_last();
        assert(all_wf(d)) by {
            assert forall|i: int| 0 <= i < d.len() implies val_wf(#[trigger] d[i]) by {
                assert(d[i] == xs[i]);
            }
        }
        lemma_flattened_wf(d);
        let last = xs.last();
        assert(val_wf(xs[xs.len() - 1]));
        let piece = flat_piece(last);
        assert(all_wf(piece)) by {
            match last {
                ValView::Sequence(ys) => {
                    lemma_vals_wf(ys);
                },
                _ => {},
            }
        }
        let f = flattened(d);
        assert forall|i: int| 0 <= i < (f + piece).len() implies val_wf(#[trigger] (f + piece)[i]) by {
            if i < f.len() {
                assert((f + piece)[i] == f[i]);
            } else {
                assert((f + piece)[i] == piece[i - f.len()]);
            }
        }
    }
}

proof fn lemma_deduped_wf(xs: Seq<ValView>)
    requires
        all_wf(xs),
    ensures
        all_wf(deduped(xs)),
    decreases xs.len(),
{
    if xs.len() > 0 {
        let d = xs.drop_last();
        assert(all_wf(d)) by {
            assert forall|i: int| 0 <= i < d.len() implies val_wf(#[trigger] d[i]) by {
                assert(d[i] == xs[i]);
            }
        }
        lemma_deduped_wf(d);
        assert(val_wf(xs[xs.len() - 1]));
        let r = deduped(d).push(xs.last());
        assert forall|i: int| 0 <= i < r.len() implies val_wf(#[trigger] r[i]) by {
            if i < deduped(d).len() {
                assert(r[i] == deduped(d)[i]);
            }
        }
    }
}

proof fn lemma_uniqued_wf(xs: Seq<ValView>)
    requires
        all_wf(xs),
    ensures
        all_wf(uniqued(xs)),
    decreases xs.len(),
{
    if xs.len() > 0 {
        let d = xs.drop_last();
        assert(all_wf(d)) by {
            assert forall|i: int| 0 <= i < d.len() implies val_wf(#[trigger] d[i]) by {
                assert(d[i] == xs[i]);
            }
        }
        lemma_uniqued_wf(d);
        assert(val_wf(xs[xs.len() - 1]));
        let r = uniqued(d).push(xs.last());
        assert forall|i: int| 0 <= i < r.len() implies val_wf(#[trigger] r[i]) by {
            if i < uniqued(d).len() {
                assert(r[i] == uniqued(d)[i]);
            }
        }
    }
}

} // verus!
