//! The value and key types of metadata, with their mathematical views.

use vstd::prelude::*;

use crate::decimal::Decimal;

verus! {

/// A key in a metadata mapping: either the null key or a string.
#[derive(Clone, Debug, PartialEq, Eq, Hash)]
pub enum MetaKey {
    Nil,
    Str(String),
}

/// A metadata value. A mapping holds its entries in a vector, in strictly
/// increasing key order (see `val_wf`): each key once, and the entries in
/// the order in which an ordered map walks them, with a view that the proofs
/// read entry by entry.
#[derive(Debug, PartialEq, Eq, Hash)]
pub enum MetaVal {
    Nil,
    Str(String),
    Sequence(Vec<MetaVal>),
    Mapping(Vec<(MetaKey, MetaVal)>),
    Int(i64),
    Bul(bool),
    Dec(Decimal),
}

/// The mathematical view of a key.
pub enum KeyView {
    Nil,
    Str(Seq<char>),
}

/// The mathematical view of a value.
pub enum ValView {
    Nil,
    Str(Seq<char>),
    Sequence(Seq<ValView>),
    Mapping(Seq<(KeyView, ValView)>),
    Int(int),
    Bul(bool),
    Dec(Decimal),
}

impl View for MetaKey {
    type V = KeyView;

    open spec fn view(&self) -> KeyView {
        match self {
            MetaKey::Nil => KeyView::Nil,
            MetaKey::Str(s) => KeyView::Str(s@),
        }
    }
}

/// The view of a value.
pub open spec fn val_view(v: MetaVal) -> ValView
    decreases v, 0nat,
{
    match v {
        MetaVal::Nil => ValView::Nil,
        MetaVal::Str(s) => ValView::Str(s@),
        MetaVal::Sequence(vs) => ValView::Sequence(vals_view(vs@)),
        MetaVal::Mapping(es) => ValView::Mapping(entries_view(es@)),
        MetaVal::Int(i) => ValView::Int(i as int),
        MetaVal::Bul(b) => ValView::Bul(b),
        MetaVal::Dec(d) => ValView::Dec(d),
    }
}

/// The views of a sequence of values.
pub open spec fn vals_view(vs: Seq<MetaVal>) -> Seq<ValView>
    decreases vs, vs.len(),
{
    if vs.len() == 0 {
        Seq::empty()
    } else {
        seq![val_view(vs[0])] + vals_view(vs.drop_first())
    }
}

/// The views of a sequence of mapping entries.
pub open spec fn entries_view(es: Seq<(MetaKey, MetaVal)>) -> Seq<(KeyView, ValView)>
    decreases es, es.len(),
{
    if es.len() == 0 {
        Seq::empty()
    } else {
        seq![(es[0].0@, val_view(es[0].1))] + entries_view(es.drop_first())
    }
}

impl View for MetaVal {
    type V = ValView;

    open spec fn view(&self) -> ValView {
        val_view(*self)
    }
}

/// The views of a sequence of values are the views of its elements.
pub broadcast proof fn lemma_vals_view(vs: Seq<MetaVal>)
    ensures
        (#[trigger] vals_view(vs)).len() == vs.len(),
        forall|i: int| 0 <= i < vs.len() ==> vals_view(vs)[i] == val_view(vs[i]),
    decreases vs.len(),
{
    if vs.len() > 0 {
        lemma_vals_view(vs.drop_first());
    }
}

/// The views of mapping entries are the views of their keys and values.
pub broadcast proof fn lemma_entries_view(es: Seq<(MetaKey, MetaVal)>)
    ensures
        (#[trigger] entries_view(es)).len() == es.len(),
        forall|i: int| 0 <= i < es.len() ==> entries_view(es)[i] == (es[i].0@, val_view(es[i].1)),
    decreases es.len(),
{
    if es.len() > 0 {
        lemma_entries_view(es.drop_first());
    }
}

pub broadcast group group_view_lemmas {
    lemma_vals_view,
    lemma_entries_view,
}

/// -1, 0 or 1 as the first character sequence is lexicographically less
/// than, equal to or greater than the second.
pub open spec fn chars_order(a: Seq<char>, b: Seq<char>) -> int
    decreases a.len(),
{
    if a.len() == 0 && b.len() == 0 {
        0
    } else if a.len() == 0 {
        -1
    } else if b.len() == 0 {
        1
    } else if (a[0] as int) < (b[0] as int) {
        -1
    } else if (b[0] as int) < (a[0] as int) {
        1
    } else {
        chars_order(a.drop_first(), b.drop_first())
    }
}

/// The order of keys: the null key comes first, then strings in
/// lexicographic order.
pub open spec fn key_order(a: KeyView, b: KeyView) -> int {
    match (a, b) {
        (KeyView::Nil, KeyView::Nil) => 0,
        (KeyView::Nil, KeyView::Str(_)) => -1,
        (KeyView::Str(_), KeyView::Nil) => 1,
        (KeyView::Str(x), KeyView::Str(y)) => chars_order(x, y),
    }
}

proof fn lemma_chars_order_skip(a: Seq<char>, b: Seq<char>, i: int)
    requires
        0 <= i < a.len(),
        i < b.len(),
        a[i] == b[i],
    ensures
        chars_order(a.skip(i), b.skip(i)) == chars_order(a.skip(i + 1), b.skip(i + 1)),
{
    assert(a.skip(i).drop_first() =~= a.skip(i + 1));
    assert(b.skip(i).drop_first() =~= b.skip(i + 1));
    assert((a.skip(i)[0] as int) == (b.skip(i)[0] as int));
}

/// Swapping two character sequences negates their order; order zero means
/// equality.
pub proof fn lemma_chars_order_antisymmetric(a: Seq<char>, b: Seq<char>)
    ensures
        chars_order(a, b) == -chars_order(b, a),
        chars_order(a, b) == 0 ==> a == b,
    decreases a.len(),
{
    if a.len() > 0 && b.len() > 0 {
        lemma_chars_order_antisymmetric(a.drop_first(), b.drop_first());
        if a[0] == b[0] && chars_order(a, b) == 0 {
            assert(a =~= seq![a[0]] + a.drop_first());
            assert(b =~= seq![b[0]] + b.drop_first());
        }
        if (a[0] as int) == (b[0] as int) {
            assert(a[0] == b[0]);
        }
    } else if a.len() == 0 && b.len() == 0 {
        assert(a =~= b);
    }
}

/// Where two character sequences first differ, at `i`, the one with the
/// smaller character there comes first.
proof fn lemma_chars_first_difference(x: Seq<char>, y: Seq<char>, i: int)
    requires
        0 <= i < x.len(),
        i < y.len(),
        x.take(i) == y.take(i),
        (x[i] as int) < (y[i] as int),
    ensures
        chars_order(x, y) == -1,
    decreases i,
{
    if i > 0 {
        assert(x[0] == x.take(i)[0] && y[0] == y.take(i)[0]);
        assert(x.drop_first().take(i - 1) =~= x.take(i).drop_first());
        assert(y.drop_first().take(i - 1) =~= y.take(i).drop_first());
        lemma_chars_first_difference(x.drop_first(), y.drop_first(), i - 1);
    }
}

/// A proper prefix comes first.
proof fn lemma_chars_proper_prefix(x: Seq<char>, y: Seq<char>)
    requires
        x.len() < y.len(),
        y.take(x.len() as int) == x,
    ensures
        chars_order(x, y) == -1,
    decreases x.len(),
{
    if x.len() > 0 {
        assert(x[0] == y.take(x.len() as int)[0]);
        assert(y.drop_first().take(x.len() - 1) =~= x.drop_first());
        lemma_chars_proper_prefix(x.drop_first(), y.drop_first());
    }
}

/// Two string values are ordered lexicographically by their characters,
/// compared by code point: where they first differ, the smaller character
/// comes first; a proper prefix comes before the longer string; equal
/// strings are equivalent; and the order is antisymmetric.
pub proof fn lemma_string_values_lexicographic(x: Seq<char>, y: Seq<char>)
    ensures
        forall|i: int|
            0 <= i < x.len() && i < y.len() && x.take(i) == y.take(i) && (#[trigger] x[i] as int) < (
            y[i] as int) ==> val_order(ValView::Str(x), ValView::Str(y)) == -1,
        x.len() < y.len() && y.take(x.len() as int) == x ==> val_order(ValView::Str(x), ValView::Str(y)) == -1,
        val_order(ValView::Str(x), ValView::Str(x)) == 0,
        val_order(ValView::Str(x), ValView::Str(y)) == -val_order(ValView::Str(y), ValView::Str(x)),
{
    assert forall|i: int|
        0 <= i < x.len() && i < y.len() && x.take(i) == y.take(i) && (#[trigger] x[i] as int) < (
        y[i] as int) implies val_order(ValView::Str(x), ValView::Str(y)) == -1 by {
        lemma_chars_first_difference(x, y, i);
    }
    if x.len() < y.len() && y.take(x.len() as int) == x {
        lemma_chars_proper_prefix(x, y);
    }
    lemma_chars_order_antisymmetric(x, x);
    lemma_chars_order_antisymmetric(x, y);
}

/// The order of character sequences is -1, 0 or 1.
pub proof fn lemma_chars_order_sign(a: Seq<char>, b: Seq<char>)
    ensures
        -1 <= chars_order(a, b) <= 1,
    decreases a.len(),
{
    if a.len() > 0 && b.len() > 0 {
        lemma_chars_order_sign(a.drop_first(), b.drop_first());
    }
}

/// Lexicographic comparison of two strings: -1, 0 or 1.
pub fn str_order(a: &str, b: &str) -> (r: i8)
    ensures
        r == chars_order(a@, b@),
{
    let la = a.unicode_len();
    let lb = b.unicode_len();
    let mut i: usize = 0;
    proof {
        assert(a@.skip(0) =~= a@);
        assert(b@.skip(0) =~= b@);
    }
    while i < la && i < lb
        invariant
            la == a@.len(),
            lb == b@.len(),
            i <= la,
            i <= lb,
            chars_order(a@, b@) == chars_order(a@.skip(i as int), b@.skip(i as int)),
        decreases la - i,
    {
        let ca = a.get_char(i);
        let cb = b.get_char(i);
        if (ca as u32) < (cb as u32) {
            return -1;
        }
        if (cb as u32) < (ca as u32) {
            return 1;
        }
        proof {
            assert(ca == cb);
            lemma_chars_order_skip(a@, b@, i as int);
        }
        i = i + 1;
    }
    if i == la && i == lb {
        proof {
            assert(a@.skip(i as int).len() == 0);
        }
        0
    } else if i == la {
        -1
    } else {
        1
    }
}

impl MetaKey {
    /// A copy of this key with the same view.
    pub fn deep_copy(&self) -> (r: MetaKey)
        ensures
            r@ == self@,
    {
        match self {
            MetaKey::Nil => MetaKey::Nil,
            MetaKey::Str(s) => MetaKey::Str(s.clone()),
        }
    }

    /// The order of two keys: -1, 0 or 1.
    pub fn order(&self, other: &MetaKey) -> (r: i8)
        ensures
            r == key_order(self@, other@),
    {
        match (self, other) {
            (MetaKey::Nil, MetaKey::Nil) => 0,
            (MetaKey::Nil, MetaKey::Str(_)) => -1,
            (MetaKey::Str(_), MetaKey::Nil) => 1,
            (MetaKey::Str(x), MetaKey::Str(y)) => str_order(x.as_str(), y.as_str()),
        }
    }

    /// Whether two keys have the same view.
    pub fn equal(&self, other: &MetaKey) -> (r: bool)
        ensures
            r == (self@ == other@),
    {
        match (self, other) {
            (MetaKey::Nil, MetaKey::Nil) => true,
            (MetaKey::Str(x), MetaKey::Str(y)) => *x == *y,
            _ => false,
        }
    }
}

/// The position of a value's kind in the order of kinds.
pub open spec fn kind_rank(v: ValView) -> int {
    match v {
        ValView::Nil => 0,
        ValView::Str(_) => 1,
        ValView::Sequence(_) => 2,
        ValView::Mapping(_) => 3,
        ValView::Int(_) => 4,
        ValView::Bul(_) => 5,
        ValView::Dec(_) => 6,
    }
}

/// -1, 0 or 1 as `x` is less than, equal to or greater than `y`.
pub open spec fn sign_of_difference(x: int, y: int) -> int {
    if x < y {
        -1
    } else if x == y {
        0
    } else {
        1
    }
}

/// The total order of values: first by kind, then by content. Strings,
/// sequences and mappings compare lexicographically, decimals by their
/// numeric value.
pub open spec fn val_order(a: ValView, b: ValView) -> int
    decreases a, 0nat,
{
    match (a, b) {
        (ValView::Str(x), ValView::Str(y)) => chars_order(x, y),
        (ValView::Sequence(xs), ValView::Sequence(ys)) => vals_order(xs, ys),
        (ValView::Mapping(xs), ValView::Mapping(ys)) => entries_order(xs, ys),
        (ValView::Int(x), ValView::Int(y)) => sign_of_difference(x, y),
        (ValView::Bul(x), ValView::Bul(y)) => sign_of_difference(
            if x { 1int } else { 0int },
            if y { 1int } else { 0int },
        ),
        (ValView::Dec(x), ValView::Dec(y)) => sign_of_difference(x.scaled(), y.scaled()),
        _ => sign_of_difference(kind_rank(a), kind_rank(b)),
    }
}

/// Lexicographic order of sequences of values.
pub open spec fn vals_order(xs: Seq<ValView>, ys: Seq<ValView>) -> int
    decreases xs, xs.len(),
{
    if xs.len() == 0 && ys.len() == 0 {
        0
    } else if xs.len() == 0 {
        -1
    } else if ys.len() == 0 {
        1
    } else if val_order(xs[0], ys[0]) != 0 {
        val_order(xs[0], ys[0])
    } else {
        vals_order(xs.drop_first(), ys.drop_first())
    }
}

/// Lexicographic order of sequences of mapping entries, each compared by key
/// and then by value.
pub open spec fn entries_order(xs: Seq<(KeyView, ValView)>, ys: Seq<(KeyView, ValView)>) -> int
    decreases xs, xs.len(),
{
    if xs.len() == 0 && ys.len() == 0 {
        0
    } else if xs.len() == 0 {
        -1
    } else if ys.len() == 0 {
        1
    } else if key_order(xs[0].0, ys[0].0) != 0 {
        key_order(xs[0].0, ys[0].0)
    } else if val_order(xs[0].1, ys[0].1) != 0 {
        val_order(xs[0].1, ys[0].1)
    } else {
        entries_order(xs.drop_first(), ys.drop_first())
    }
}

pub proof fn lemma_key_order_antisymmetric(a: KeyView, b: KeyView)
    ensures
        key_order(a, b) == -key_order(b, a),
        key_order(a, b) == 0 ==> a == b,
{
    match (a, b) {
        (KeyView::Str(x), KeyView::Str(y)) => lemma_chars_order_antisymmetric(x, y),
        _ => {},
    }
}

/// Swapping the arguments of the value order negates it.
pub proof fn lemma_val_order_antisymmetric(a: ValView, b: ValView)
    ensures
        val_order(a, b) == -val_order(b, a),
    decreases a, 0nat,
{
    match (a, b) {
        (ValView::Str(x), ValView::Str(y)) => lemma_chars_order_antisymmetric(x, y),
        (ValView::Sequence(xs), ValView::Sequence(ys)) => lemma_vals_order_antisymmetric(xs, ys),
        (ValView::Mapping(xs), ValView::Mapping(ys)) => lemma_entries_order_antisymmetric(xs, ys),
        _ => {},
    }
}

pub proof fn lemma_vals_order_antisymmetric(xs: Seq<ValView>, ys: Seq<ValView>)
    ensures
        vals_order(xs, ys) == -vals_order(ys, xs),
    decreases xs, xs.len(),
{
    if xs.len() > 0 && ys.len() > 0 {
        lemma_val_order_antisymmetric(xs[0], ys[0]);
        lemma_vals_order_antisymmetric(xs.drop_first(), ys.drop_first());
    }
}

pub proof fn lemma_entries_order_antisymmetric(
    xs: Seq<(KeyView, ValView)>,
    ys: Seq<(KeyView, ValView)>,
)
    ensures
        entries_order(xs, ys) == -entries_order(ys, xs),
    decreases xs, xs.len(),
{
    if xs.len() > 0 && ys.len() > 0 {
        lemma_key_order_antisymmetric(xs[0].0, ys[0].0);
        lemma_val_order_antisymmetric(xs[0].1, ys[0].1);
        lemma_entries_order_antisymmetric(xs.drop_first(), ys.drop_first());
    }
}

impl MetaVal {
    /// A copy of this value with the same view.
    pub fn deep_copy(&self) -> (r: MetaVal)
        ensures
            r@ == self@,
        decreases self,
    {
        broadcast use group_view_lemmas;

        match self {
            MetaVal::Nil => MetaVal::Nil,
            MetaVal::Str(s) => MetaVal::Str(s.clone()),
            MetaVal::Sequence(xs) => {
                let mut out: Vec<MetaVal> = Vec::new();
                let mut i: usize = 0;
                while i < xs.len()
                    invariant
                        *self == MetaVal::Sequence(*xs),
                        i <= xs.len(),
                        out@.len() == i,
                        forall|j: int| 0 <= j < i ==> out@[j]@ == xs@[j]@,
                    decreases xs.len() - i,
                {
                    proof {
                        assert(decreases_to!(*self => self->Sequence_0));
                        assert(decreases_to!(*xs => xs@));
                        assert(decreases_to!(xs@ => xs@[i as int]));
                    }
                    let c = xs[i].deep_copy();
                    out.push(c);
                    i = i + 1;
                }
                proof {
                    assert(vals_view(out@) =~= vals_view(xs@));
                }
                MetaVal::Sequence(out)
            },
            MetaVal::Mapping(es) => {
                let mut out: Vec<(MetaKey, MetaVal)> = Vec::new();
                let mut i: usize = 0;
                while i < es.len()
                    invariant
                        *self == MetaVal::Mapping(*es),
                        i <= es.len(),
                        out@.len() == i,
                        forall|j: int|
                            0 <= j < i ==> out@[j].0@ == es@[j].0@ && out@[j].1@ == es@[j].1@,
                    decreases es.len() - i,
                {
                    proof {
                        assert(decreases_to!(*self => self->Mapping_0));
                        assert(decreases_to!(*es => es@));
                        assert(decreases_to!(es@ => es@[i as int]));
                        assert(decreases_to!(es@[i as int] => es@[i as int].1));
                    }
                    let k = es[i].0.deep_copy();
                    let v = es[i].1.deep_copy();
                    out.push((k, v));
                    i = i + 1;
                }
                proof {
                    assert forall|j: int| 0 <= j < es@.len() implies entries_view(out@)[j]
                        == entries_view(es@)[j] by {
                        assert(out@[j].0@ == es@[j].0@);
                        assert(out@[j].1@ == es@[j].1@);
                        assert(entries_view(out@)[j] == (out@[j].0@, val_view(out@[j].1)));
                        assert(entries_view(es@)[j] == (es@[j].0@, val_view(es@[j].1)));
                    }
                    assert(entries_view(out@) =~= entries_view(es@));
                }
                MetaVal::Mapping(out)
            },
            MetaVal::Int(i) => MetaVal::Int(*i),
            MetaVal::Bul(b) => MetaVal::Bul(*b),
            MetaVal::Dec(d) => MetaVal::Dec(*d),
        }
    }
}

/// Well-formedness of a value: its decimals are canonical and the entries
/// of each mapping are in strictly increasing key order.
pub open spec fn val_wf(v: ValView) -> bool
    decreases v, 0nat,
{
    match v {
        ValView::Dec(d) => d.wf(),
        ValView::Sequence(xs) => vals_wf(xs),
        ValView::Mapping(es) => entries_wf(es),
        _ => true,
    }
}

/// Well-formedness of each value of a sequence.
pub open spec fn vals_wf(xs: Seq<ValView>) -> bool
    decreases xs, xs.len(),
{
    xs.len() == 0 || (val_wf(xs[0]) && vals_wf(xs.drop_first()))
}

/// Well-formedness of mapping entries: well-formed values under strictly
/// increasing keys.
pub open spec fn entries_wf(es: Seq<(KeyView, ValView)>) -> bool
    decreases es, es.len(),
{
    es.len() == 0 || (val_wf(es[0].1) && (es.len() > 1 ==> key_order(es[0].0, es[1].0) < 0)
        && entries_wf(es.drop_first()))
}

pub proof fn lemma_vals_wf(xs: Seq<ValView>)
    ensures
        vals_wf(xs) <==> forall|i: int| 0 <= i < xs.len() ==> val_wf(#[trigger] xs[i]),
    decreases xs.len(),
{
    if xs.len() > 0 {
        lemma_vals_wf(xs.drop_first());
        if forall|i: int| 0 <= i < xs.len() ==> val_wf(#[trigger] xs[i]) {
            assert forall|i: int| 0 <= i < xs.drop_first().len() implies val_wf(
                #[trigger] xs.drop_first()[i],
            ) by {
                assert(xs.drop_first()[i] == xs[i + 1]);
            }
        }
        if vals_wf(xs) {
            assert forall|i: int| 0 <= i < xs.len() implies val_wf(#[trigger] xs[i]) by {
                if i > 0 {
                    assert(xs[i] == xs.drop_first()[i - 1]);
                }
            }
        }
    }
}

pub proof fn lemma_entries_wf_values(es: Seq<(KeyView, ValView)>)
    requires
        entries_wf(es),
    ensures
        forall|i: int| 0 <= i < es.len() ==> val_wf(#[trigger] es[i].1),
        forall|i: int| 0 <= i < es.len() - 1 ==> key_order(#[trigger] es[i].0, es[i + 1].0) < 0,
    decreases es.len(),
{
    if es.len() > 0 {
        lemma_entries_wf_values(es.drop_first());
        assert forall|i: int| 0 <= i < es.len() implies val_wf(#[trigger] es[i].1) by {
            if i > 0 {
                assert(es[i] == es.drop_first()[i - 1]);
            }
        }
        assert forall|i: int| 0 <= i < es.len() - 1 implies key_order(
            #[trigger] es[i].0,
            es[i + 1].0,
        ) < 0 by {
            if i > 0 {
                assert(es[i] == es.drop_first()[i - 1]);
                assert(es[i + 1] == es.drop_first()[i]);
            }
        }
    }
}

proof fn lemma_vals_order_step(xs: Seq<ValView>, ys: Seq<ValView>, i: int)
    requires
        0 <= i < xs.len(),
        i < ys.len(),
    ensures
        val_order(xs[i], ys[i]) != 0 ==> vals_order(xs.skip(i), ys.skip(i)) == val_order(
            xs[i],
            ys[i],
        ),
        val_order(xs[i], ys[i]) == 0 ==> vals_order(xs.skip(i), ys.skip(i)) == vals_order(
            xs.skip(i + 1),
            ys.skip(i + 1),
        ),
{
    assert(xs.skip(i).drop_first() =~= xs.skip(i + 1));
    assert(ys.skip(i).drop_first() =~= ys.skip(i + 1));
    assert(xs.skip(i)[0] == xs[i]);
    assert(ys.skip(i)[0] == ys[i]);
}

proof fn lemma_entries_order_step(
    xs: Seq<(KeyView, ValView)>,
    ys: Seq<(KeyView, ValView)>,
    i: int,
)
    requires
        0 <= i < xs.len(),
        i < ys.len(),
    ensures
        key_order(xs[i].0, ys[i].0) != 0 ==> entries_order(xs.skip(i), ys.skip(i)) == key_order(
            xs[i].0,
            ys[i].0,
        ),
        key_order(xs[i].0, ys[i].0) == 0 && val_order(xs[i].1, ys[i].1) != 0 ==> entries_order(
            xs.skip(i),
            ys.skip(i),
        ) == val_order(xs[i].1, ys[i].1),
        key_order(xs[i].0, ys[i].0) == 0 && val_order(xs[i].1, ys[i].1) == 0 ==> entries_order(
            xs.skip(i),
            ys.skip(i),
        ) == entries_order(xs.skip(i + 1), ys.skip(i + 1)),
{
    assert(xs.skip(i).drop_first() =~= xs.skip(i + 1));
    assert(ys.skip(i).drop_first() =~= ys.skip(i + 1));
    assert(xs.skip(i)[0] == xs[i]);
    assert(ys.skip(i)[0] == ys[i]);
}

impl MetaVal {
    /// Whether two values have the same view.
    pub fn equal(&self, other: &MetaVal) -> (r: bool)
        ensures
            r == (self@ == other@),
        decreases self,
    {
        broadcast use group_view_lemmas;

        match (self, other) {
            (MetaVal::Nil, MetaVal::Nil) => true,
            (MetaVal::Str(a), MetaVal::Str(b)) => *a == *b,
            (MetaVal::Sequence(xs), MetaVal::Sequence(ys)) => {
                if xs.len() != ys.len() {
                    proof {
                        assert(vals_view(xs@).len() != vals_view(ys@).len());
                    }
                    return false;
                }
                let mut i: usize = 0;
                while i < xs.len()
                    invariant
                        *self == MetaVal::Sequence(*xs),
                        *other == MetaVal::Sequence(*ys),
                        xs.len() == ys.len(),
                        i <= xs.len(),
                        forall|j: int| 0 <= j < i ==> xs@[j]@ == ys@[j]@,
                    decreases xs.len() - i,
                {
                    proof {
                        assert(decreases_to!(*self => self->Sequence_0));
                        assert(decreases_to!(*xs => xs@));
                        assert(decreases_to!(xs@ => xs@[i as int]));
                    }
                    if !xs[i].equal(&ys[i]) {
                        proof {
                            lemma_vals_view(xs@);
                            lemma_vals_view(ys@);
                            assert(vals_view(xs@)[i as int] != vals_view(ys@)[i as int]);
                        }
                        return false;
                    }
                    i = i + 1;
                }
                proof {
                    lemma_vals_view(xs@);
                    lemma_vals_view(ys@);
                    assert(vals_view(xs@) =~= vals_view(ys@));
                }
                true
            },
            (MetaVal::Mapping(xs), MetaVal::Mapping(ys)) => {
                if xs.len() != ys.len() {
                    proof {
                        assert(entries_view(xs@).len() != entries_view(ys@).len());
                    }
                    return false;
                }
                let mut i: usize = 0;
                while i < xs.len()
                    invariant
                        *self == MetaVal::Mapping(*xs),
                        *other == MetaVal::Mapping(*ys),
                        xs.len() == ys.len(),
                        i <= xs.len(),
                        forall|j: int| 0 <= j < i ==> xs@[j].0@ == ys@[j].0@ && xs@[j].1@ == ys@[j].1@,
                    decreases xs.len() - i,
                {
                    proof {
                        assert(decreases_to!(*self => self->Mapping_0));
                        assert(decreases_to!(*xs => xs@));
                        assert(decreases_to!(xs@ => xs@[i as int]));
                        assert(decreases_to!(xs@[i as int] => xs@[i as int].1));
                    }
                    if !xs[i].0.equal(&ys[i].0) {
                        proof {
                            lemma_entries_view(xs@);
                            lemma_entries_view(ys@);
                            assert(entries_view(xs@)[i as int] != entries_view(ys@)[i as int]);
                        }
                        return false;
                    }
                    if !xs[i].1.equal(&ys[i].1) {
                        proof {
                            lemma_entries_view(xs@);
                            lemma_entries_view(ys@);
                            assert(entries_view(xs@)[i as int] != entries_view(ys@)[i as int]);
                        }
                        return false;
                    }
                    i = i + 1;
                }
                proof {
                    lemma_entries_view(xs@);
                    lemma_entries_view(ys@);
                    assert forall|j: int| 0 <= j < xs@.len() implies entries_view(xs@)[j]
                        == entries_view(ys@)[j] by {
                        assert(xs@[j].0@ == ys@[j].0@);
                        assert(xs@[j].1@ == ys@[j].1@);
                    }
                    assert(entries_view(xs@) =~= entries_view(ys@));
                }
                true
            },
            (MetaVal::Int(a), MetaVal::Int(b)) => *a == *b,
            (MetaVal::Bul(a), MetaVal::Bul(b)) => *a == *b,
            (MetaVal::Dec(a), MetaVal::Dec(b)) => *a == *b,
            _ => false,
        }
    }

    /// The position of this value's kind in the order of kinds.
    pub fn kind_index(&self) -> (r: u8)
        ensures
            r == kind_rank(self@),
    {
        match self {
            MetaVal::Nil => 0,
            MetaVal::Str(_) => 1,
            MetaVal::Sequence(_) => 2,
            MetaVal::Mapping(_) => 3,
            MetaVal::Int(_) => 4,
            MetaVal::Bul(_) => 5,
            MetaVal::Dec(_) => 6,
        }
    }

    /// The order of two values: -1, 0 or 1.
    pub fn order(&self, other: &MetaVal) -> (r: i8)
        requires
            val_wf(self@),
            val_wf(other@),
        ensures
            r == val_order(self@, other@),
        decreases self,
    {
        broadcast use group_view_lemmas;

        match (self, other) {
            (MetaVal::Nil, MetaVal::Nil) => 0,
            (MetaVal::Str(a), MetaVal::Str(b)) => str_order(a.as_str(), b.as_str()),
            (MetaVal::Sequence(xs), MetaVal::Sequence(ys)) => {
                let ghost vx = vals_view(xs@);
                let ghost vy = vals_view(ys@);
                proof {
                    lemma_vals_view(xs@);
                    lemma_vals_view(ys@);
                    lemma_vals_wf(vx);
                    lemma_vals_wf(vy);
                    assert(vx.skip(0) =~= vx);
                    assert(vy.skip(0) =~= vy);
                }
                let mut i: usize = 0;
                while i < xs.len() && i < ys.len()
                    invariant
                        *self == MetaVal::Sequence(*xs),
                        *other == MetaVal::Sequence(*ys),
                        vx == vals_view(xs@),
                        vy == vals_view(ys@),
                        vx.len() == xs@.len(),
                        vy.len() == ys@.len(),
                        forall|j: int| 0 <= j < vx.len() ==> vx[j] == xs@[j]@,
                        forall|j: int| 0 <= j < vy.len() ==> vy[j] == ys@[j]@,
                        forall|j: int| 0 <= j < vx.len() ==> val_wf(#[trigger] vx[j]),
                        forall|j: int| 0 <= j < vy.len() ==> val_wf(#[trigger] vy[j]),
                        i <= xs.len(),
                        i <= ys.len(),
                        vals_order(vx, vy) == vals_order(vx.skip(i as int), vy.skip(i as int)),
                    decreases xs.len() - i,
                {
                    proof {
                        assert(decreases_to!(*self => self->Sequence_0));
                        assert(decreases_to!(*xs => xs@));
                        assert(decreases_to!(xs@ => xs@[i as int]));
                        assert(val_wf(vx[i as int]));
                        assert(val_wf(vy[i as int]));
                        lemma_vals_order_step(vx, vy, i as int);
                    }
                    let c = xs[i].order(&ys[i]);
                    if c != 0 {
                        return c;
                    }
                    i = i + 1;
                }
                if i == xs.len() && i == ys.len() {
                    0
                } else if i == xs.len() {
                    -1
                } else {
                    1
                }
            },
            (MetaVal::Mapping(xs), MetaVal::Mapping(ys)) => {
                let ghost vx = entries_view(xs@);
                let ghost vy = entries_view(ys@);
                proof {
                    lemma_entries_view(xs@);
                    lemma_entries_view(ys@);
                    lemma_entries_wf_values(vx);
                    lemma_entries_wf_values(vy);
                    assert(vx.skip(0) =~= vx);
                    assert(vy.skip(0) =~= vy);
                }
                let mut i: usize = 0;
                while i < xs.len() && i < ys.len()
                    invariant
                        *self == MetaVal::Mapping(*xs),
                        *other == MetaVal::Mapping(*ys),
                        vx == entries_view(xs@),
                        vy == entries_view(ys@),
                        vx.len() == xs@.len(),
                        vy.len() == ys@.len(),
                        forall|j: int| 0 <= j < vx.len() ==> vx[j] == (xs@[j].0@, xs@[j].1@),
                        forall|j: int| 0 <= j < vy.len() ==> vy[j] == (ys@[j].0@, ys@[j].1@),
                        forall|j: int| 0 <= j < vx.len() ==> val_wf(#[trigger] vx[j].1),
                        forall|j: int| 0 <= j < vy.len() ==> val_wf(#[trigger] vy[j].1),
                        i <= xs.len(),
                        i <= ys.len(),
                        entries_order(vx, vy) == entries_order(
                            vx.skip(i as int),
                            vy.skip(i as int),
                        ),
                    decreases xs.len() - i,
                {
                    proof {
                        assert(decreases_to!(*self => self->Mapping_0));
                        assert(decreases_to!(*xs => xs@));
                        assert(decreases_to!(xs@ => xs@[i as int]));
                        assert(decreases_to!(xs@[i as int] => xs@[i as int].1));
                        assert(val_wf(vx[i as int].1));
                        assert(val_wf(vy[i as int].1));
                        lemma_entries_order_step(vx, vy, i as int);
                    }
                    let ck = xs[i].0.order(&ys[i].0);
                    if ck != 0 {
                        return ck;
                    }
                    let cv = xs[i].1.order(&ys[i].1);
                    if cv != 0 {
                        return cv;
                    }
                    i = i + 1;
                }
                if i == xs.len() && i == ys.len() {
                    0
                } else if i == xs.len() {
                    -1
                } else {
                    1
                }
            },
            (MetaVal::Int(a), MetaVal::Int(b)) => {
                if *a < *b {
                    -1
                } else if *a == *b {
                    0
                } else {
                    1
                }
            },
            (MetaVal::Bul(a), MetaVal::Bul(b)) => {
                if *a == *b {
                    0
                } else if !*a {
                    -1
                } else {
                    1
                }
            },
            (MetaVal::Dec(a), MetaVal::Dec(b)) => a.numeric_order(b),
            _ => {
                let ka = self.kind_index();
                let kb = other.kind_index();
                if ka < kb {
                    -1
                } else if ka == kb {
                    0
                } else {
                    1
                }
            },
        }
    }
}

pub proof fn lemma_entries_view_concat(a: Seq<(MetaKey, MetaVal)>, b: Seq<(MetaKey, MetaVal)>)
    ensures
        entries_view(a + b) == entries_view(a) + entries_view(b),
{
    lemma_entries_view(a);
    lemma_entries_view(b);
    lemma_entries_view(a + b);
    assert(entries_view(a + b) =~= entries_view(a) + entries_view(b));
}

pub proof fn lemma_entries_view_skip(es: Seq<(MetaKey, MetaVal)>, k: int)
    requires
        0 <= k <= es.len(),
    ensures
        entries_view(es.skip(k)) == entries_view(es).skip(k),
{
    lemma_entries_view(es);
    lemma_entries_view(es.skip(k));
    assert(entries_view(es.skip(k)) =~= entries_view(es).skip(k));
}

pub proof fn lemma_entries_view_update(es: Seq<(MetaKey, MetaVal)>, i: int, e: (MetaKey, MetaVal))
    requires
        0 <= i < es.len(),
    ensures
        entries_view(es.update(i, e)) == entries_view(es).update(i, (e.0@, e.1@)),
{
    lemma_entries_view(es);
    lemma_entries_view(es.update(i, e));
    assert(entries_view(es.update(i, e)) =~= entries_view(es).update(i, (e.0@, e.1@)));
}

pub proof fn lemma_vals_view_concat(a: Seq<MetaVal>, b: Seq<MetaVal>)
    ensures
        vals_view(a + b) == vals_view(a) + vals_view(b),
{
    lemma_vals_view(a);
    lemma_vals_view(b);
    lemma_vals_view(a + b);
    assert(vals_view(a + b) =~= vals_view(a) + vals_view(b));
}

impl MetaKey {
    /// Whether this is the null key.
    pub fn is_nil(&self) -> (r: bool)
        ensures
            r == (self@ == KeyView::Nil),
    {
        match self {
            MetaKey::Nil => true,
            MetaKey::Str(_) => false,
        }
    }
}

pub proof fn lemma_chars_order_transitive(a: Seq<char>, b: Seq<char>, c: Seq<char>)
    requires
        chars_order(a, b) < 0,
        chars_order(b, c) < 0,
    ensures
        chars_order(a, c) < 0,
    decreases a.len(),
{
    if a.len() > 0 && b.len() > 0 && c.len() > 0 {
        if (a[0] as int) == (b[0] as int) && (b[0] as int) == (c[0] as int) {
            lemma_chars_order_transitive(a.drop_first(), b.drop_first(), c.drop_first());
        }
    }
}

/// The key order is transitive.
pub proof fn lemma_key_order_transitive(a: KeyView, b: KeyView, c: KeyView)
    requires
        key_order(a, b) < 0,
        key_order(b, c) < 0,
    ensures
        key_order(a, c) < 0,
{
    match (a, b, c) {
        (KeyView::Str(x), KeyView::Str(y), KeyView::Str(z)) => lemma_chars_order_transitive(x, y, z),
        _ => {},
    }
}

/// A key is equivalent to itself only.
pub proof fn lemma_key_order_zero(a: KeyView, b: KeyView)
    ensures
        key_order(a, b) == 0 <==> a == b,
{
    lemma_key_order_antisymmetric(a, b);
    lemma_key_order_antisymmetric(a, a);
}

/// The value stored under a key in a sequence of mapping entries: the
/// first entry with that key.
pub open spec fn entries_get(es: Seq<(KeyView, ValView)>, k: KeyView) -> Option<ValView>
    decreases es.len(),
{
    if es.len() == 0 {
        None
    } else if es[0].0 == k {
        Some(es[0].1)
    } else {
        entries_get(es.drop_first(), k)
    }
}

/// In key-ordered entries, no key below the first key is present.
pub proof fn lemma_entries_get_below(es: Seq<(KeyView, ValView)>, k: KeyView)
    requires
        entries_wf(es),
        es.len() > 0,
        key_order(k, es[0].0) < 0,
    ensures
        entries_get(es, k) == None::<ValView>,
    decreases es.len(),
{
    lemma_key_order_zero(k, es[0].0);
    if es.len() > 1 {
        lemma_key_order_transitive(k, es[0].0, es[1].0);
        assert(es.drop_first()[0] == es[1]);
        lemma_entries_get_below(es.drop_first(), k);
    } else {
        assert(entries_get(es.drop_first(), k) == None::<ValView>);
    }
}

} // verus!
