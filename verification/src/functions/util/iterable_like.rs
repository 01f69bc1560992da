//! Iterables of values: a sequence, held at once, or a producer, whose
//! items are computed when they are read.

use vstd::prelude::*;

use crate::config::sorter::{inserted_by, lemma_inserted_by_split, sorted_by};
use crate::decimal::scaled_value;
use crate::functions::Error;
use crate::functions::operand::{Operand, operand_wf};
use crate::functions::op::operator::{UnaryConverter, UnaryPredicate, as_predicate};
use crate::functions::operator::binary::imp::{Impl as SequenceImpl, zipped};
use crate::functions::operator::unary::iter_consumer::{all_equal_from, map_ok, total_from};
use crate::functions::operator::unary::predicate::predicate_result;
use crate::functions::util::Impl as StreamImpl;
use crate::functions::util::{all_any_items, extreme_number, nth_item, vals_result_is};
use crate::functions::util::number_like::NumberLike;
use crate::functions::util::stream_adaptor::{
    StreamAdaptor,
    filter_stream,
    filtered_items,
    map_stream,
    mapped_items,
    stepped_items,
    step_stream,
};
use crate::functions::util::value_producer::{
    Chain,
    Dedup,
    Filter,
    Fixed,
    Flatten,
    MapEach,
    Skip,
    SkipWhile,
    StepBy,
    Take,
    TakeWhile,
    Unique,
    ValueProducer,
    Zip,
    produced,
    producer_wf,
    skipped_while_items,
    taken_while_items,
};
use crate::functions::util::value_seq::{
    lemma_sequence_wf,
    lemma_values_keep_wf,
    collect_stream,
    collected,
    deduped,
    dedup_values,
    flatten_values,
    flattened,
    lemma_collected_ok,
    lemma_stream_take_first,
    ok_stream,
    ok_values,
    result_view,
    stream_view,
    stream_wf,
    uniqued,
    unique_values,
};
use crate::metadata::types::{MetaVal, ValView, lemma_vals_view, lemma_vals_wf, sign_of_difference, val_order, val_wf, vals_view};

verus! {

/// One of the kinds of iterables of values.
pub enum IterableLike {
    Sequence(Vec<MetaVal>),
    Producer(ValueProducer),
}

/// The items that an iterable yields.
pub open spec fn iterable_items(il: IterableLike) -> Seq<Result<ValView, Error>> {
    match il {
        IterableLike::Sequence(s) => ok_stream(vals_view(s@)),
        IterableLike::Producer(p) => produced(p),
    }
}

/// Whether the values an iterable holds or reads are well formed.
pub open spec fn iterable_wf(il: IterableLike) -> bool {
    match il {
        IterableLike::Sequence(s) => forall|k: int| 0 <= k < s@.len() ==> val_wf(#[trigger] s@[k]@),
        IterableLike::Producer(p) => producer_wf(p),
    }
}

/// The error for an iterable that has no item: it names the kind.
pub open spec fn empty_error(il: IterableLike) -> Error {
    match il {
        IterableLike::Sequence(_) => Error::EmptySequence,
        IterableLike::Producer(_) => Error::EmptyProducer,
    }
}

/// The producer that reads an iterable: a sequence is read in order.
pub open spec fn as_producer(il: IterableLike) -> ValueProducer {
    match il {
        IterableLike::Sequence(s) => ValueProducer::Fixed(Fixed(s)),
        IterableLike::Producer(p) => p,
    }
}

/// Whether a result holds a sequence with the expected views, or the
/// expected error.
pub open spec fn sequence_result_is(r: Result<IterableLike, Error>, expected: Result<Seq<ValView>, Error>) -> bool {
    match (r, expected) {
        (Ok(IterableLike::Sequence(v)), Ok(s)) => vals_view(v@) == s,
        (Err(e), Err(f)) => e == f,
        _ => false,
    }
}

/// The first value of a stream for which a predicate holds; an error met
/// before it, of the stream or of the predicate, stops the search.
pub open spec fn found_item(s: Seq<Result<ValView, Error>>, p: UnaryPredicate) -> Result<ValView, Error>
    decreases s.len(),
{
    if s.len() == 0 {
        Err(Error::ItemNotFound)
    } else {
        match s[0] {
            Err(e) => Err(e),
            Ok(v) => match predicate_result(as_predicate(p), v) {
                Err(e) => Err(e),
                Ok(true) => Ok(v),
                Ok(false) => found_item(s.drop_first(), p),
            },
        }
    }
}

/// The position, counted from `start`, of the first value of a stream for
/// which a predicate holds, with the same stops as `found_item`.
pub open spec fn found_position(s: Seq<Result<ValView, Error>>, p: UnaryPredicate, start: int) -> Result<
    int,
    Error,
>
    decreases s.len(),
{
    if s.len() == 0 {
        Err(Error::ItemNotFound)
    } else {
        match s[0] {
            Err(e) => Err(e),
            Ok(v) => match predicate_result(as_predicate(p), v) {
                Err(e) => Err(e),
                Ok(true) => Ok(start),
                Ok(false) => found_position(s.drop_first(), p, start + 1),
            },
        }
    }
}

/// What `first` gives: the first item, or the empty error.
pub open spec fn first_outcome(il: IterableLike) -> Result<ValView, Error> {
    if iterable_items(il).len() == 0 {
        Err(empty_error(il))
    } else {
        iterable_items(il)[0]
    }
}

/// What `last` gives: the last value, the first error, or the empty
/// error.
pub open spec fn last_outcome(il: IterableLike) -> Result<ValView, Error> {
    match collected(iterable_items(il)) {
        Err(e) => Err(e),
        Ok(vs) => if vs.len() == 0 {
            Err(empty_error(il))
        } else {
            Ok(vs.last())
        },
    }
}

/// What `min_in` (`is_max` false) or `max_in` (`is_max` true) gives.
pub open spec fn extreme_outcome(il: IterableLike, is_max: bool) -> Result<NumberLike, Error> {
    if iterable_items(il).len() == 0 {
        Err(empty_error(il))
    } else {
        extreme_number(iterable_items(il), is_max)
    }
}

/// What `all_equal` gives.
pub open spec fn all_equal_outcome(il: IterableLike) -> Result<bool, Error> {
    if iterable_items(il).len() == 0 {
        Ok(true)
    } else {
        match iterable_items(il)[0] {
            Err(e) => Err(e),
            Ok(first) => all_equal_from(first, iterable_items(il).drop_first()),
        }
    }
}

/// What `collect` gives: the values, or the first error.
pub open spec fn collected_outcome(il: IterableLike) -> Result<Seq<ValView>, Error> {
    collected(iterable_items(il))
}

/// What `rev` gives: the values in reverse order, or the first error.
pub open spec fn reversed_outcome(il: IterableLike) -> Result<Seq<ValView>, Error> {
    map_ok(collected(iterable_items(il)), |vs: Seq<ValView>| vs.reverse())
}

/// What `sort` gives: the values sorted stably by `smart_order`, or the
/// first error.
pub open spec fn sorted_outcome(il: IterableLike) -> Result<Seq<ValView>, Error> {
    map_ok(collected(iterable_items(il)), |vs: Seq<ValView>| sorted_by(by_smart_order(), vs))
}

/// The iterable that an operand denotes: a sequence value or a producer;
/// `NotIterable` for any other operand.
pub open spec fn operand_iterable(o: Operand) -> Result<IterableLike, Error> {
    match o {
        Operand::Value(MetaVal::Sequence(s)) => Ok(IterableLike::Sequence(s)),
        Operand::Producer(p) => Ok(IterableLike::Producer(p)),
        _ => Err(Error::NotIterable),
    }
}

/// The operand that holds an iterable: a sequence as a sequence value.
pub open spec fn iterable_operand(il: IterableLike) -> Operand {
    match il {
        IterableLike::Sequence(s) => Operand::Value(MetaVal::Sequence(s)),
        IterableLike::Producer(p) => Operand::Producer(p),
    }
}

/// The producer that reads a well-formed iterable is well formed.
pub proof fn lemma_as_producer_wf(il: IterableLike)
    requires
        iterable_wf(il),
    ensures
        producer_wf(as_producer(il)),
{
}

/// Pairing up well-formed values gives well-formed values.
pub proof fn lemma_zipped_wf(a: Seq<MetaVal>, b: Seq<MetaVal>, v: Seq<MetaVal>)
    requires
        forall|k: int| 0 <= k < a.len() ==> val_wf(#[trigger] a[k]@),
        forall|k: int| 0 <= k < b.len() ==> val_wf(#[trigger] b[k]@),
        vals_view(v) == zipped(vals_view(a), vals_view(b)),
    ensures
        forall|k: int| 0 <= k < v.len() ==> val_wf(#[trigger] v[k]@),
{
    lemma_vals_view(a);
    lemma_vals_view(b);
    lemma_vals_view(v);
    assert forall|k: int| 0 <= k < v.len() implies val_wf(#[trigger] v[k]@) by {
        let pair = seq![vals_view(a)[k], vals_view(b)[k]];
        assert(v[k]@ == vals_view(v)[k]);
        assert(vals_view(v)[k] == ValView::Sequence(pair));
        assert(k < a.len() && k < b.len());
        assert(vals_view(a)[k] == a[k]@ && vals_view(b)[k] == b[k]@);
        assert(pair[0] == a[k]@ && pair[1] == b[k]@);
        crate::metadata::types::lemma_vals_wf(pair);
    }
}

/// The iterable of a well-formed operand is well formed.
pub proof fn lemma_operand_iterable_wf(o: Operand)
    requires
        operand_wf(o),
    ensures
        operand_iterable(o) matches Ok(il) ==> iterable_wf(il),
{
    if let Operand::Value(MetaVal::Sequence(s)) = o {
        lemma_vals_view(s@);
        lemma_vals_wf(vals_view(s@));
        assert forall|k: int| 0 <= k < s@.len() implies val_wf(#[trigger] s@[k]@) by {
            assert(vals_view(s@)[k] == s@[k]@);
        }
    }
}

/// The value at a position of a stream without errors.
pub proof fn lemma_nth_item_ok(xs: Seq<ValView>, n: int)
    requires
        n >= 0,
    ensures
        nth_item(ok_stream(xs), n) == if n < xs.len() {
            Ok::<ValView, Error>(xs[n])
        } else {
            Err::<ValView, Error>(Error::OutOfBounds)
        },
    decreases xs.len(),
{
    if xs.len() > 0 {
        assert(ok_stream(xs).drop_first() =~= ok_stream(xs.drop_first()));
        if n > 0 {
            lemma_nth_item_ok(xs.drop_first(), n - 1);
        }
    }
}

/// The order used to sort values: an integer and a decimal compare by
/// their numeric values, any other two values by the order of values.
pub open spec fn smart_order(a: ValView, b: ValView) -> int {
    match (a, b) {
        (ValView::Int(i), ValView::Dec(d)) => sign_of_difference(scaled_value(i, 0), d.scaled()),
        (ValView::Dec(d), ValView::Int(i)) => sign_of_difference(d.scaled(), scaled_value(i, 0)),
        _ => val_order(a, b),
    }
}

/// Sorting by `smart_order` puts strings in lexicographic order of their
/// characters, as the value order does: where two strings first differ,
/// the smaller character comes first, and a proper prefix comes before
/// the longer string.
pub proof fn lemma_smart_order_strings(x: Seq<char>, y: Seq<char>)
    ensures
        smart_order(ValView::Str(x), ValView::Str(y)) == val_order(ValView::Str(x), ValView::Str(y)),
        forall|i: int|
            0 <= i < x.len() && i < y.len() && x.take(i) == y.take(i) && (#[trigger] x[i] as int) < (
            y[i] as int) ==> smart_order(ValView::Str(x), ValView::Str(y)) == -1,
        x.len() < y.len() && y.take(x.len() as int) == x ==> smart_order(ValView::Str(x), ValView::Str(y))
            == -1,
{
    crate::metadata::types::lemma_string_values_lexicographic(x, y);
}

/// `smart_order` as a function value.
pub open spec fn by_smart_order() -> spec_fn(ValView, ValView) -> int {
    |a: ValView, b: ValView| smart_order(a, b)
}

/// Compares two values by `smart_order`.
fn smart_order_of(a: &MetaVal, b: &MetaVal) -> (r: i8)
    requires
        val_wf(a@),
        val_wf(b@),
    ensures
        r == smart_order(a@, b@),
{
    match (a, b) {
        (MetaVal::Int(i), MetaVal::Dec(d)) => NumberLike::Integer(*i).numeric_order(&NumberLike::Decimal(*d)),
        (MetaVal::Dec(d), MetaVal::Int(i)) => NumberLike::Decimal(*d).numeric_order(&NumberLike::Integer(*i)),
        _ => a.order(b),
    }
}

/// Inserts a value into a vector after the values that it does not precede
/// by `smart_order`.
fn insert_smart(acc: &mut Vec<MetaVal>, x: MetaVal)
    requires
        val_wf(x@),
        forall|k: int| 0 <= k < old(acc)@.len() ==> val_wf(#[trigger] old(acc)@[k]@),
    ensures
        vals_view(final(acc)@) == inserted_by(by_smart_order(), x@, vals_view(old(acc)@)),
        forall|k: int| 0 <= k < final(acc)@.len() ==> val_wf(#[trigger] final(acc)@[k]@),
{
    let ghost a = vals_view(acc@);
    let ghost ord = by_smart_order();
    proof {
        lemma_vals_view(acc@);
        assert(a.skip(0) =~= a);
        assert(a.take(0) + inserted_by(ord, x@, a.skip(0)) =~= inserted_by(ord, x@, a));
    }
    let mut j: usize = 0;
    while j < acc.len() && smart_order_of(&x, &acc[j]) > 0
        invariant
            j <= acc.len(),
            ord == by_smart_order(),
            a == vals_view(acc@),
            a.len() == acc@.len(),
            forall|k: int| 0 <= k < acc@.len() ==> vals_view(acc@)[k] == acc@[k]@,
            forall|k: int| 0 <= k < acc@.len() ==> val_wf(#[trigger] acc@[k]@),
            val_wf(x@),
            inserted_by(ord, x@, a) == a.take(j as int) + inserted_by(ord, x@, a.skip(j as int)),
        decreases acc.len() - j,
    {
        proof {
            lemma_inserted_by_split(ord, x@, a, j as int);
        }
        j = j + 1;
    }
    proof {
        assert(a.skip(j as int).len() == 0 || a.skip(j as int)[0] == a[j as int]);
        assert(inserted_by(ord, x@, a.skip(j as int)) == seq![x@] + a.skip(j as int));
    }
    let ghost before = acc@;
    acc.insert(j, x);
    proof {
        lemma_vals_view(acc@);
        assert(vals_view(acc@) =~= a.take(j as int) + (seq![x@] + a.skip(j as int)));
        assert forall|k: int| 0 <= k < acc@.len() implies val_wf(#[trigger] acc@[k]@) by {
            if k < j {
                assert(acc@[k] == before[k]);
            } else if k > j {
                assert(acc@[k] == before[k - 1]);
            }
        }
    }
}

/// The values of a vector sorted stably by `smart_order`.
fn smart_sort_values(v: Vec<MetaVal>) -> (r: Vec<MetaVal>)
    requires
        forall|k: int| 0 <= k < v@.len() ==> val_wf(#[trigger] v@[k]@),
    ensures
        vals_view(r@) == sorted_by(by_smart_order(), vals_view(v@)),
        forall|k: int| 0 <= k < r@.len() ==> val_wf(#[trigger] r@[k]@),
{
    let ghost xs = vals_view(v@);
    let ghost ord = by_smart_order();
    proof {
        lemma_vals_view(v@);
    }
    let mut rest = v;
    let mut acc: Vec<MetaVal> = Vec::new();
    proof {
        assert(xs.skip(xs.len() as int) =~= Seq::<ValView>::empty());
        assert(vals_view(acc@) =~= Seq::<ValView>::empty());
    }
    while rest.len() > 0
        invariant
            rest@.len() <= xs.len(),
            ord == by_smart_order(),
            vals_view(rest@) == xs.take(rest@.len() as int),
            forall|k: int| 0 <= k < rest@.len() ==> val_wf(#[trigger] rest@[k]@),
            forall|k: int| 0 <= k < acc@.len() ==> val_wf(#[trigger] acc@[k]@),
            vals_view(acc@) == sorted_by(ord, xs.skip(rest@.len() as int)),
        decreases rest.len(),
    {
        let ghost before = rest@;
        let x = rest.pop().unwrap();
        proof {
            let n = rest@.len() as int;
            lemma_vals_view(before);
            lemma_vals_view(rest@);
            assert(before == rest@.push(x));
            assert(vals_view(rest@) =~= xs.take(n));
            assert(xs.skip(n).drop_first() =~= xs.skip(n + 1));
            assert(before[n] == x);
            assert(vals_view(before)[n] == x@);
            assert(xs.take(n + 1)[n] == xs[n]);
            assert(xs.skip(n)[0] == x@);
            assert(val_wf(before[n]@));
        }
        insert_smart(&mut acc, x);
    }
    proof {
        assert(xs.skip(0) =~= xs);
    }
    acc
}

impl IterableLike {
    /// The iterable of the values of a sequence.
    pub fn from_values(v: Vec<MetaVal>) -> (r: Self)
        ensures
            r == IterableLike::Sequence(v),
    {
        IterableLike::Sequence(v)
    }

    /// The iterable of the items of a producer.
    pub fn from_producer(p: ValueProducer) -> (r: Self)
        ensures
            r == IterableLike::Producer(p),
    {
        IterableLike::Producer(p)
    }

    /// The elements of a sequence value; `NotIterable` for any other value.
    pub fn try_from_val(mv: MetaVal) -> (r: Result<Self, Error>)
        ensures
            r == operand_iterable(Operand::Value(mv)),
    {
        match mv {
            MetaVal::Sequence(s) => Ok(IterableLike::Sequence(s)),
            _ => Err(Error::NotIterable),
        }
    }

    /// The iterable that an operand denotes.
    pub fn try_from_operand(o: Operand) -> (r: Result<Self, Error>)
        ensures
            r == operand_iterable(o),
    {
        match o {
            Operand::Value(mv) => Self::try_from_val(mv),
            Operand::Producer(p) => Ok(IterableLike::Producer(p)),
            _ => Err(Error::NotIterable),
        }
    }

    /// The operand that holds this iterable.
    pub fn into_operand(self) -> (r: Operand)
        ensures
            r == iterable_operand(self),
            iterable_wf(self) ==> operand_wf(r),
    {
        match self {
            IterableLike::Sequence(s) => {
                proof {
                    if iterable_wf(IterableLike::Sequence(s)) {
                        lemma_sequence_wf(s@);
                    }
                }
                Operand::Value(MetaVal::Sequence(s))
            },
            IterableLike::Producer(p) => Operand::Producer(p),
        }
    }

    /// Whether the items are held by a producer, which computes them from
    /// its sources when it is read.
    pub fn is_lazy(&self) -> (r: bool)
        ensures
            r == (*self is Producer),
    {
        match self {
            IterableLike::Sequence(..) => false,
            IterableLike::Producer(..) => true,
        }
    }

    /// Whether the values are held at once.
    pub fn is_eager(&self) -> (r: bool)
        ensures
            r == (*self is Sequence),
    {
        !self.is_lazy()
    }

    /// The items, in order, as they are read.
    pub fn into_items(self) -> (r: Vec<Result<MetaVal, Error>>)
        requires
            iterable_wf(self),
        ensures
            stream_view(r@) == iterable_items(self),
            stream_wf(r@),
    {
        match self {
            IterableLike::Sequence(s) => ok_values(s),
            IterableLike::Producer(p) => p.into_items(),
        }
    }

    /// The producer that reads this iterable.
    pub fn into_producer(self) -> (r: ValueProducer)
        ensures
            r == as_producer(self),
    {
        match self {
            IterableLike::Sequence(s) => ValueProducer::fixed(s),
            IterableLike::Producer(p) => p,
        }
    }

    /// The values, in order; the first error stops the reading.
    pub fn collect(self) -> (r: Result<Vec<MetaVal>, Error>)
        requires
            iterable_wf(self),
        ensures
            vals_result_is(r, collected_outcome(self)),
            self matches IterableLike::Sequence(s) ==> r == Ok::<Vec<MetaVal>, Error>(s),
            r matches Ok(vs) ==> forall|k: int| 0 <= k < vs@.len() ==> val_wf(#[trigger] vs@[k]@),
    {
        match self {
            IterableLike::Sequence(s) => {
                proof {
                    lemma_collected_ok(vals_view(s@));
                }
                Ok(s)
            },
            IterableLike::Producer(p) => collect_stream(p.into_items()),
        }
    }

    /// The number of values; the first error stops the count.
    pub fn count(self) -> (r: Result<usize, Error>)
        requires
            iterable_wf(self),
        ensures
            r == map_ok(collected(iterable_items(self)), |vs: Seq<ValView>| vs.len() as usize),
    {
        match self {
            IterableLike::Sequence(s) => {
                proof {
                    lemma_collected_ok(vals_view(s@));
                    lemma_vals_view(s@);
                }
                Ok(s.len())
            },
            IterableLike::Producer(p) => StreamImpl::count(StreamAdaptor::Raw(p.into_items())),
        }
    }

    /// The first item, value or error.
    pub fn first(self) -> (r: Result<MetaVal, Error>)
        requires
            iterable_wf(self),
        ensures
            result_view(r) == first_outcome(self),
            r matches Ok(v) ==> val_wf(v@),
    {
        let ghost s0 = iterable_items(self);
        let empty = if self.is_eager() { Error::EmptySequence } else { Error::EmptyProducer };
        let mut it = self.into_items();
        if it.len() == 0 {
            Err(empty)
        } else {
            let ghost before = it@;
            let x = it.remove(0);
            proof {
                assert(stream_view(before)[0] == result_view(x));
            }
            x
        }
    }

    /// The last value; the first error stops the reading.
    pub fn last(self) -> (r: Result<MetaVal, Error>)
        requires
            iterable_wf(self),
        ensures
            result_view(r) == last_outcome(self),
            r matches Ok(v) ==> val_wf(v@),
    {
        let ghost s0 = iterable_items(self);
        let ghost e0 = empty_error(self);
        let empty = if self.is_eager() { Error::EmptySequence } else { Error::EmptyProducer };
        let mut seq = collect_stream(self.into_items())?;
        let ghost before = seq@;
        proof {
            lemma_vals_view(seq@);
        }
        match seq.pop() {
            None => Err(empty),
            Some(v) => {
                proof {
                    assert(before.last() == v);
                }
                Ok(v)
            },
        }
    }

    fn min_in_max_in(self, is_max: bool) -> (r: Result<NumberLike, Error>)
        requires
            iterable_wf(self),
        ensures
            r == extreme_outcome(self, is_max),
            r matches Ok(n) ==> n.wf(),
    {
        let empty = if self.is_eager() { Error::EmptySequence } else { Error::EmptyProducer };
        let it = self.into_items();
        if it.len() == 0 {
            return Err(empty);
        }
        if is_max {
            StreamImpl::max(StreamAdaptor::Raw(it))
        } else {
            StreamImpl::min(StreamAdaptor::Raw(it))
        }
    }

    /// The smallest number, the first of equal ones; a value that is not a
    /// number gives `NotNumeric`.
    pub fn min_in(self) -> (r: Result<NumberLike, Error>)
        requires
            iterable_wf(self),
        ensures
            r == extreme_outcome(self, false),
            r matches Ok(n) ==> n.wf(),
    {
        self.min_in_max_in(false)
    }

    /// The largest number, the last of equal ones; a value that is not a
    /// number gives `NotNumeric`.
    pub fn max_in(self) -> (r: Result<NumberLike, Error>)
        requires
            iterable_wf(self),
        ensures
            r == extreme_outcome(self, true),
            r matches Ok(n) ==> n.wf(),
    {
        self.min_in_max_in(true)
    }

    /// The values in reverse order.
    pub fn rev(self) -> (r: Result<Vec<MetaVal>, Error>)
        requires
            iterable_wf(self),
        ensures
            vals_result_is(r, reversed_outcome(self)),
            r matches Ok(vs) ==> forall|k: int| 0 <= k < vs@.len() ==> val_wf(#[trigger] vs@[k]@),
    {
        StreamImpl::rev(StreamAdaptor::Raw(self.into_items()))
    }

    /// The values sorted stably by `smart_order`.
    pub fn sort(self) -> (r: Result<Vec<MetaVal>, Error>)
        requires
            iterable_wf(self),
        ensures
            vals_result_is(r, sorted_outcome(self)),
            r matches Ok(vs) ==> forall|k: int| 0 <= k < vs@.len() ==> val_wf(#[trigger] vs@[k]@),
    {
        let it = self.into_items();
        let v = collect_stream(it)?;
        Ok(smart_sort_values(v))
    }

    /// The sum of the numbers, from the integer 0.
    pub fn sum(self) -> (r: Result<NumberLike, Error>)
        requires
            iterable_wf(self),
        ensures
            r == total_from(NumberLike::Integer(0), iterable_items(self), true),
            r matches Ok(n) ==> n.wf(),
    {
        StreamImpl::sum(StreamAdaptor::Raw(self.into_items()))
    }

    /// The product of the numbers, from the integer 1.
    pub fn prod(self) -> (r: Result<NumberLike, Error>)
        requires
            iterable_wf(self),
        ensures
            r == total_from(NumberLike::Integer(1), iterable_items(self), false),
            r matches Ok(n) ==> n.wf(),
    {
        StreamImpl::prod(StreamAdaptor::Raw(self.into_items()))
    }

    /// Whether every value equals the first; an error before a differing
    /// value is returned.
    pub fn all_equal(self) -> (r: Result<bool, Error>)
        requires
            iterable_wf(self),
        ensures
            r == all_equal_outcome(self),
    {
        StreamImpl::all_equal(StreamAdaptor::Raw(self.into_items()))
    }

    /// The elements of the sequences spliced in: at once for a sequence,
    /// as read for a producer.
    pub fn flatten(self) -> (r: Result<Self, Error>)
        ensures
            iterable_wf(self) ==> (r matches Ok(x) ==> iterable_wf(x)),
            self matches IterableLike::Sequence(s) ==> (r matches Ok(IterableLike::Sequence(v)) && vals_view(v@)
                == flattened(vals_view(s@))),
            self matches IterableLike::Producer(p) ==> r == Ok::<Self, Error>(
                IterableLike::Producer(ValueProducer::Flatten(Flatten(Box::new(p)))),
            ),
    {
        Ok(
            match self {
                IterableLike::Sequence(s) => {
                let ghost s0 = s@;
                let v = flatten_values(s);
                proof {
                    if forall|k: int| 0 <= k < s0.len() ==> val_wf(#[trigger] s0[k]@) {
                        lemma_values_keep_wf(s0, v@);
                    }
                }
                IterableLike::Sequence(v)
            },
                IterableLike::Producer(p) => IterableLike::Producer(ValueProducer::Flatten(Flatten(Box::new(p)))),
            },
        )
    }

    /// Without repeats of the value before.
    pub fn dedup(self) -> (r: Result<Self, Error>)
        ensures
            iterable_wf(self) ==> (r matches Ok(x) ==> iterable_wf(x)),
            self matches IterableLike::Sequence(s) ==> (r matches Ok(IterableLike::Sequence(v)) && vals_view(v@)
                == deduped(vals_view(s@))),
            self matches IterableLike::Producer(p) ==> r == Ok::<Self, Error>(
                IterableLike::Producer(ValueProducer::Dedup(Dedup(Box::new(p)))),
            ),
    {
        Ok(
            match self {
                IterableLike::Sequence(s) => {
                let ghost s0 = s@;
                let v = dedup_values(s);
                proof {
                    if forall|k: int| 0 <= k < s0.len() ==> val_wf(#[trigger] s0[k]@) {
                        lemma_values_keep_wf(s0, v@);
                    }
                }
                IterableLike::Sequence(v)
            },
                IterableLike::Producer(p) => IterableLike::Producer(ValueProducer::Dedup(Dedup(Box::new(p)))),
            },
        )
    }

    /// Without repeats of any value before.
    pub fn unique(self) -> (r: Result<Self, Error>)
        ensures
            iterable_wf(self) ==> (r matches Ok(x) ==> iterable_wf(x)),
            self matches IterableLike::Sequence(s) ==> (r matches Ok(IterableLike::Sequence(v)) && vals_view(v@)
                == uniqued(vals_view(s@))),
            self matches IterableLike::Producer(p) ==> r == Ok::<Self, Error>(
                IterableLike::Producer(ValueProducer::Unique(Unique(Box::new(p)))),
            ),
    {
        Ok(
            match self {
                IterableLike::Sequence(s) => {
                let ghost s0 = s@;
                let v = unique_values(s);
                proof {
                    if forall|k: int| 0 <= k < s0.len() ==> val_wf(#[trigger] s0[k]@) {
                        lemma_values_keep_wf(s0, v@);
                    }
                }
                IterableLike::Sequence(v)
            },
                IterableLike::Producer(p) => IterableLike::Producer(ValueProducer::Unique(Unique(Box::new(p)))),
            },
        )
    }

    /// The value at position `n`; `OutOfBounds` past the end.
    pub fn nth(self, n: usize) -> (r: Result<MetaVal, Error>)
        requires
            iterable_wf(self),
        ensures
            result_view(r) == nth_item(iterable_items(self), n as int),
            r matches Ok(v) ==> val_wf(v@),
    {
        StreamImpl::nth(StreamAdaptor::Raw(self.into_items()), n)
    }

    /// Whether a predicate holds of every value.
    pub fn all(self, u_pred: UnaryPredicate) -> (r: Result<bool, Error>)
        requires
            iterable_wf(self),
        ensures
            r == all_any_items(iterable_items(self), u_pred, false),
    {
        StreamImpl::all(StreamAdaptor::Raw(self.into_items()), u_pred)
    }

    /// Whether a predicate holds of some value.
    pub fn any(self, u_pred: UnaryPredicate) -> (r: Result<bool, Error>)
        requires
            iterable_wf(self),
        ensures
            r == all_any_items(iterable_items(self), u_pred, true),
    {
        StreamImpl::any(StreamAdaptor::Raw(self.into_items()), u_pred)
    }

    /// The first value for which a predicate holds; `ItemNotFound` if
    /// there is none.
    pub fn find(self, u_pred: UnaryPredicate) -> (r: Result<MetaVal, Error>)
        requires
            iterable_wf(self),
        ensures
            result_view(r) == found_item(iterable_items(self), u_pred),
    {
        let ghost items0 = iterable_items(self);
        let mut rest = self.into_items();
        let ghost s0 = stream_view(rest@);
        let ghost mut k: int = 0;
        proof {
            assert(s0.skip(0) =~= s0);
        }
        while rest.len() > 0
            invariant
                s0 == items0,
                items0 == iterable_items(self),
                0 <= k <= s0.len(),
                s0.len() == k + rest@.len(),
                stream_view(rest@) == s0.skip(k),
                stream_wf(rest@),
                found_item(s0, u_pred) == found_item(s0.skip(k), u_pred),
            decreases rest.len(),
        {
            let ghost before = rest@;
            let x = rest.remove(0);
            proof {
                lemma_stream_take_first(before, rest@, s0, k);
            }
            let mv = x?;
            if u_pred.process(&mv)? {
                return Ok(mv);
            }
            proof {
                k = k + 1;
            }
        }
        Err(Error::ItemNotFound)
    }

    /// The position of the first value for which a predicate holds;
    /// `ItemNotFound` if there is none.
    pub fn position(self, u_pred: UnaryPredicate) -> (r: Result<usize, Error>)
        requires
            iterable_wf(self),
        ensures
            map_ok(r, |i: usize| i as int) == found_position(iterable_items(self), u_pred, 0),
    {
        let ghost items0 = iterable_items(self);
        let mut rest = self.into_items();
        let ghost s0 = stream_view(rest@);
        let total = rest.len();
        let mut i: usize = 0;
        proof {
            assert(s0.skip(0) =~= s0);
        }
        while rest.len() > 0
            invariant
                s0 == items0,
                items0 == iterable_items(self),
                s0.len() == total,
                0 <= i <= s0.len(),
                s0.len() == i + rest@.len(),
                stream_view(rest@) == s0.skip(i as int),
                stream_wf(rest@),
                found_position(s0, u_pred, 0) == found_position(s0.skip(i as int), u_pred, i as int),
            decreases rest.len(),
        {
            let ghost before = rest@;
            let x = rest.remove(0);
            proof {
                lemma_stream_take_first(before, rest@, s0, i as int);
            }
            let mv = x?;
            if u_pred.process(&mv)? {
                return Ok(i);
            }
            i = i + 1;
        }
        Err(Error::ItemNotFound)
    }

    /// The values for which a predicate holds: at once for a sequence, as
    /// read for a producer.
    pub fn filter(self, u_pred: UnaryPredicate) -> (r: Result<Self, Error>)
        requires
            iterable_wf(self),
        ensures
            self is Sequence ==> sequence_result_is(r, collected(filtered_items(iterable_items(self), u_pred))),
            self matches IterableLike::Producer(p) ==> r == Ok::<Self, Error>(
                IterableLike::Producer(ValueProducer::Filter(Filter(Box::new(p), u_pred))),
            ),
    {
        match self {
            IterableLike::Sequence(s) => {
                let v = collect_stream(filter_stream(ok_values(s), u_pred))?;
                Ok(IterableLike::Sequence(v))
            },
            IterableLike::Producer(p) => Ok(IterableLike::Producer(ValueProducer::Filter(Filter(Box::new(p), u_pred)))),
        }
    }

    /// Each value converted: at once for a sequence, as read for a
    /// producer.
    pub fn map(self, u_conv: UnaryConverter) -> (r: Result<Self, Error>)
        requires
            iterable_wf(self),
        ensures
            self is Sequence ==> sequence_result_is(r, collected(mapped_items(iterable_items(self), u_conv))),
            self matches IterableLike::Producer(p) ==> r == Ok::<Self, Error>(
                IterableLike::Producer(ValueProducer::MapEach(MapEach(Box::new(p), u_conv))),
            ),
    {
        match self {
            IterableLike::Sequence(s) => {
                let v = collect_stream(map_stream(ok_values(s), u_conv))?;
                Ok(IterableLike::Sequence(v))
            },
            IterableLike::Producer(p) => Ok(IterableLike::Producer(ValueProducer::MapEach(MapEach(Box::new(p), u_conv)))),
        }
    }

    /// Every `step`-th value, from the first on; `ZeroStepSize` for a step
    /// of zero.
    pub fn step_by(self, step: usize) -> (r: Result<Self, Error>)
        requires
            iterable_wf(self),
        ensures
            r matches Ok(x) ==> iterable_wf(x),
            step == 0 ==> r == Err::<Self, Error>(Error::ZeroStepSize),
            step > 0 && self is Sequence ==> sequence_result_is(
                r,
                collected(stepped_items(step as int, step as int, iterable_items(self))),
            ),
            step > 0 ==> (self matches IterableLike::Producer(p) ==> r == Ok::<Self, Error>(
                IterableLike::Producer(ValueProducer::StepBy(StepBy { vp: Box::new(p), n: step })),
            )),
    {
        if step == 0 {
            return Err(Error::ZeroStepSize);
        }
        match self {
            IterableLike::Sequence(s) => {
                let v = collect_stream(step_stream(ok_values(s), step))?;
                Ok(IterableLike::Sequence(v))
            },
            IterableLike::Producer(p) => Ok(IterableLike::Producer(ValueProducer::StepBy(StepBy { vp: Box::new(p), n: step }))),
        }
    }

    /// The items of this iterable, then those of another: a sequence when
    /// both are sequences, else a producer that reads both.
    pub fn chain(self, other: IterableLike) -> (r: Result<Self, Error>)
        ensures
            iterable_wf(self) && iterable_wf(other) ==> (r matches Ok(x) ==> iterable_wf(x)),
            self matches IterableLike::Sequence(a) ==> (other matches IterableLike::Sequence(b) ==> (r matches Ok(
                IterableLike::Sequence(v),
            ) && v@ == a@ + b@)),
            !(self is Sequence && other is Sequence) ==> r == Ok::<Self, Error>(
                IterableLike::Producer(
                    ValueProducer::Chain(Chain(Box::new(as_producer(self)), Box::new(as_producer(other)))),
                ),
            ),
    {
        match (self, other) {
            (IterableLike::Sequence(a), IterableLike::Sequence(b)) => {
                let ghost a0 = a@;
                let ghost b0 = b@;
                let v = SequenceImpl::chain_s(a, b);
                proof {
                    assert forall|k: int| 0 <= k < v@.len() implies ((forall|j: int|
                        0 <= j < a0.len() ==> val_wf(#[trigger] a0[j]@)) && (forall|j: int|
                        0 <= j < b0.len() ==> val_wf(#[trigger] b0[j]@)) ==> val_wf(#[trigger] v@[k]@)) by {
                        if k < a0.len() {
                            assert(v@[k] == a0[k]);
                        } else {
                            assert(v@[k] == b0[k - a0.len()]);
                        }
                    }
                }
                Ok(IterableLike::Sequence(v))
            },
            (a, b) => {
                let ghost wf = iterable_wf(a) && iterable_wf(b);
                let pa = a.into_producer();
                let pb = b.into_producer();
                proof {
                    if wf {
                        lemma_as_producer_wf(a);
                        lemma_as_producer_wf(b);
                    }
                }
                Ok(IterableLike::Producer(ValueProducer::Chain(Chain(Box::new(pa), Box::new(pb)))))
            },
        }
    }

    /// Pairs of the items of this iterable and another, as far as the
    /// shorter goes: a sequence when both are sequences, else a producer.
    pub fn zip(self, other: IterableLike) -> (r: Result<Self, Error>)
        ensures
            iterable_wf(self) && iterable_wf(other) ==> (r matches Ok(x) ==> iterable_wf(x)),
            self matches IterableLike::Sequence(a) ==> (other matches IterableLike::Sequence(b) ==> (r matches Ok(
                IterableLike::Sequence(v),
            ) && vals_view(v@) == zipped(vals_view(a@), vals_view(b@)))),
            !(self is Sequence && other is Sequence) ==> r == Ok::<Self, Error>(
                IterableLike::Producer(
                    ValueProducer::Zip(Zip(Box::new(as_producer(self)), Box::new(as_producer(other)))),
                ),
            ),
    {
        match (self, other) {
            (IterableLike::Sequence(a), IterableLike::Sequence(b)) => {
                let ghost a0 = a@;
                let ghost b0 = b@;
                let v = SequenceImpl::zip_s(a, b);
                proof {
                    if iterable_wf(IterableLike::Sequence(a)) && iterable_wf(IterableLike::Sequence(b)) {
                        lemma_zipped_wf(a0, b0, v@);
                    }
                }
                Ok(IterableLike::Sequence(v))
            },
            (a, b) => {
                let ghost wf = iterable_wf(a) && iterable_wf(b);
                let pa = a.into_producer();
                let pb = b.into_producer();
                proof {
                    if wf {
                        lemma_as_producer_wf(a);
                        lemma_as_producer_wf(b);
                    }
                }
                Ok(IterableLike::Producer(ValueProducer::Zip(Zip(Box::new(pa), Box::new(pb)))))
            },
        }
    }

    /// Without the first `n` items.
    pub fn skip(self, n: usize) -> (r: Result<Self, Error>)
        ensures
            iterable_wf(self) ==> (r matches Ok(x) ==> iterable_wf(x)),
            self matches IterableLike::Sequence(s) ==> (r matches Ok(IterableLike::Sequence(v)) && v@ == if n
                >= s@.len() {
                Seq::<MetaVal>::empty()
            } else {
                s@.skip(n as int)
            }),
            self matches IterableLike::Producer(p) ==> r == Ok::<Self, Error>(
                IterableLike::Producer(ValueProducer::Skip(Skip { vp: Box::new(p), n })),
            ),
    {
        Ok(
            match self {
                IterableLike::Sequence(s) => IterableLike::Sequence(SequenceImpl::skip_s(s, n)),
                IterableLike::Producer(p) => IterableLike::Producer(ValueProducer::Skip(Skip { vp: Box::new(p), n })),
            },
        )
    }

    /// The first `n` items.
    pub fn take(self, n: usize) -> (r: Result<Self, Error>)
        ensures
            iterable_wf(self) ==> (r matches Ok(x) ==> iterable_wf(x)),
            self matches IterableLike::Sequence(s) ==> (r matches Ok(IterableLike::Sequence(v)) && v@ == if n
                >= s@.len() {
                s@
            } else {
                s@.take(n as int)
            }),
            self matches IterableLike::Producer(p) ==> r == Ok::<Self, Error>(
                IterableLike::Producer(ValueProducer::Take(Take { vp: Box::new(p), n })),
            ),
    {
        Ok(
            match self {
                IterableLike::Sequence(s) => IterableLike::Sequence(SequenceImpl::take_s(s, n)),
                IterableLike::Producer(p) => IterableLike::Producer(ValueProducer::Take(Take { vp: Box::new(p), n })),
            },
        )
    }

    /// The items from the first value for which a predicate fails on: at
    /// once for a sequence, as read for a producer.
    pub fn skip_while(self, u_pred: UnaryPredicate) -> (r: Result<Self, Error>)
        requires
            iterable_wf(self),
        ensures
            self is Sequence ==> sequence_result_is(r, collected(skipped_while_items(iterable_items(self), u_pred))),
            self matches IterableLike::Producer(p) ==> r == Ok::<Self, Error>(
                IterableLike::Producer(ValueProducer::SkipWhile(SkipWhile(Box::new(p), u_pred))),
            ),
    {
        let ghost items0 = iterable_items(self);
        let collect_after = self.is_eager();
        let p = self.into_producer();
        proof {
            assert(producer_wf(p));
            assert(produced(p) == items0);
        }
        let ret_p = ValueProducer::SkipWhile(SkipWhile(Box::new(p), u_pred));
        if collect_after {
            let v = collect_stream(ret_p.into_items())?;
            Ok(IterableLike::Sequence(v))
        } else {
            Ok(IterableLike::Producer(ret_p))
        }
    }

    /// The items before the first value for which a predicate fails: at
    /// once for a sequence, as read for a producer.
    pub fn take_while(self, u_pred: UnaryPredicate) -> (r: Result<Self, Error>)
        requires
            iterable_wf(self),
        ensures
            self is Sequence ==> sequence_result_is(r, collected(taken_while_items(iterable_items(self), u_pred))),
            self matches IterableLike::Producer(p) ==> r == Ok::<Self, Error>(
                IterableLike::Producer(ValueProducer::TakeWhile(TakeWhile(Box::new(p), u_pred))),
            ),
    {
        let ghost items0 = iterable_items(self);
        let collect_after = self.is_eager();
        let p = self.into_producer();
        proof {
            assert(producer_wf(p));
            assert(produced(p) == items0);
        }
        let ret_p = ValueProducer::TakeWhile(TakeWhile(Box::new(p), u_pred));
        if collect_after {
            let v = collect_stream(ret_p.into_items())?;
            Ok(IterableLike::Sequence(v))
        } else {
            Ok(IterableLike::Producer(ret_p))
        }
    }
}

} // verus!
