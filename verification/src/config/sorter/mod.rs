//! Defines item file sorting order.

pub mod sort_by;

use vstd::prelude::*;

use core::cmp::Ordering;

use self::sort_by::{ItemPath, SortBy, lemma_path_order_antisymmetric, lemma_path_order_sign};
use self::sort_by::{ordering_sign, path_order, path_result_order};

verus! {

/// Represents direction of ordering: ascending or descending.
#[derive(Debug, Copy, Clone, PartialEq, Eq, Hash, Structural)]
pub enum SortOrder {
    Ascending,
    Descending,
}

impl SortOrder {
    /// The default direction: ascending.
    pub fn default() -> (r: Self)
        ensures
            r == SortOrder::Ascending,
    {
        SortOrder::Ascending
    }
}

/// A struct that contains all of the information needed to sort item file paths
/// in a desired order.
#[derive(Debug, Copy, Clone, PartialEq, Eq, Hash, Structural)]
pub struct Sorter {
    pub sort_by: SortBy,
    pub sort_order: SortOrder,
}

/// An order turned around for a descending direction.
pub open spec fn aligned(o: SortOrder, c: int) -> int {
    match o {
        SortOrder::Ascending => c,
        SortOrder::Descending => -c,
    }
}

/// The order of two item paths under a sorter.
pub open spec fn sorter_order(s: Sorter, a: ItemPath, b: ItemPath) -> int {
    aligned(s.sort_order, path_order(s.sort_by, a, b))
}

/// The order of two results holding item paths under a sorter: errors come
/// first in either direction, and paths follow the sorter.
pub open spec fn sorter_result_order<E>(s: Sorter, a: Result<ItemPath, E>, b: Result<ItemPath, E>) -> int {
    match (a, b) {
        (Ok(x), Ok(y)) => sorter_order(s, x, y),
        _ => path_result_order(s.sort_by, a, b),
    }
}

/// The sorter's order as a function.
pub open spec fn by_sorter(s: Sorter) -> spec_fn(ItemPath, ItemPath) -> int {
    |a: ItemPath, b: ItemPath| sorter_order(s, a, b)
}

/// The sorter's order of results as a function.
pub open spec fn results_by_sorter<E>(s: Sorter) -> spec_fn(Result<ItemPath, E>, Result<ItemPath, E>) -> int {
    |a: Result<ItemPath, E>, b: Result<ItemPath, E>| sorter_result_order(s, a, b)
}

/// An item inserted into a sequence before the first item that it does not
/// follow by `ord`: after the items it equals, so that insertion from the
/// back keeps equal items in their order.
pub open spec fn inserted_by<T>(ord: spec_fn(T, T) -> int, x: T, ys: Seq<T>) -> Seq<T>
    decreases ys.len(),
{
    if ys.len() == 0 || ord(x, ys[0]) <= 0 {
        seq![x] + ys
    } else {
        seq![ys[0]] + inserted_by(ord, x, ys.drop_first())
    }
}

/// The items of a sequence in the order `ord`, equal items in their order:
/// what a stable sort gives.
pub open spec fn sorted_by<T>(ord: spec_fn(T, T) -> int, xs: Seq<T>) -> Seq<T>
    decreases xs.len(),
{
    if xs.len() == 0 {
        Seq::empty()
    } else {
        inserted_by(ord, xs[0], sorted_by(ord, xs.drop_first()))
    }
}

/// Whether each item of a sequence is at most the next one by `ord`.
pub open spec fn is_sorted_by<T>(ord: spec_fn(T, T) -> int, xs: Seq<T>) -> bool {
    forall|i: int| 0 <= i < xs.len() - 1 ==> ord(#[trigger] xs[i], xs[i + 1]) <= 0
}

/// Whether swapping the arguments of `ord` negates it.
pub open spec fn antisymmetric<T>(ord: spec_fn(T, T) -> int) -> bool {
    forall|a: T, b: T| #[trigger] ord(a, b) == -ord(b, a)
}

pub(crate) proof fn lemma_inserted_by_split<T>(ord: spec_fn(T, T) -> int, x: T, ys: Seq<T>, j: int)
    requires
        0 <= j < ys.len(),
        inserted_by(ord, x, ys) == ys.take(j) + inserted_by(ord, x, ys.skip(j)),
        ord(x, ys[j]) > 0,
    ensures
        inserted_by(ord, x, ys) == ys.take(j + 1) + inserted_by(ord, x, ys.skip(j + 1)),
{
    assert(ys.skip(j).drop_first() =~= ys.skip(j + 1));
    assert(ys.skip(j)[0] == ys[j]);
    assert(ys.take(j) + (seq![ys[j]] + inserted_by(ord, x, ys.skip(j + 1))) =~= ys.take(j + 1)
        + inserted_by(ord, x, ys.skip(j + 1)));
}

/// Sorts a vector stably by a comparison that gives `ord`.
pub(crate) fn insertion_sort<T, F: Fn(&T, &T) -> i8>(v: Vec<T>, f: F, Ghost(ord): Ghost<spec_fn(T, T) -> int>) -> (r:
    Vec<T>)
    requires
        forall|a: &T, b: &T| f.requires((a, b)),
        forall|a: &T, b: &T, o: i8| f.ensures((a, b), o) ==> o == ord(*a, *b),
    ensures
        r@ == sorted_by(ord, v@),
{
    let ghost xs = v@;
    let mut rest = v;
    let mut acc: Vec<T> = Vec::new();
    proof {
        assert(xs.skip(xs.len() as int) =~= Seq::<T>::empty());
    }
    while rest.len() > 0
        invariant
            rest@.len() <= xs.len(),
            rest@ == xs.take(rest@.len() as int),
            acc@ == sorted_by(ord, xs.skip(rest@.len() as int)),
            forall|a: &T, b: &T| f.requires((a, b)),
            forall|a: &T, b: &T, o: i8| f.ensures((a, b), o) ==> o == ord(*a, *b),
        decreases rest.len(),
    {
        let x = rest.pop().unwrap();
        let ghost n = rest@.len() as int;
        let ghost a = acc@;
        proof {
            assert(rest@ =~= xs.take(n));
            assert(xs.skip(n).drop_first() =~= xs.skip(n + 1));
            assert(xs.skip(n)[0] == x);
            assert(a.skip(0) =~= a);
            assert(a.take(0) + inserted_by(ord, x, a.skip(0)) =~= inserted_by(ord, x, a));
        }
        let mut j: usize = 0;
        while j < acc.len() && f(&x, &acc[j]) > 0
            invariant
                j <= acc.len(),
                acc@ == a,
                inserted_by(ord, x, a) == a.take(j as int) + inserted_by(ord, x, a.skip(j as int)),
                forall|a: &T, b: &T| f.requires((a, b)),
                forall|a: &T, b: &T, o: i8| f.ensures((a, b), o) ==> o == ord(*a, *b),
            decreases acc.len() - j,
        {
            proof {
                lemma_inserted_by_split(ord, x, a, j as int);
            }
            j = j + 1;
        }
        proof {
            assert(a.skip(j as int).len() == 0 || a.skip(j as int)[0] == a[j as int]);
            assert(inserted_by(ord, x, a.skip(j as int)) == seq![x] + a.skip(j as int));
        }
        acc.insert(j, x);
        proof {
            assert(acc@ =~= a.take(j as int) + (seq![x] + a.skip(j as int)));
        }
    }
    proof {
        assert(xs.skip(0) =~= xs);
    }
    acc
}

proof fn lemma_inserted_by_sorted<T>(ord: spec_fn(T, T) -> int, x: T, ys: Seq<T>)
    requires
        antisymmetric(ord),
        is_sorted_by(ord, ys),
    ensures
        is_sorted_by(ord, inserted_by(ord, x, ys)),
        inserted_by(ord, x, ys)[0] == x || (ys.len() > 0 && inserted_by(ord, x, ys)[0] == ys[0]),
        inserted_by(ord, x, ys).to_multiset() == ys.to_multiset().insert(x),
    decreases ys.len(),
{
    broadcast use vstd::seq_lib::group_to_multiset_ensures;

    if ys.len() == 0 || ord(x, ys[0]) <= 0 {
        let r = seq![x] + ys;
        assert forall|i: int| 0 <= i < r.len() - 1 implies ord(#[trigger] r[i], r[i + 1]) <= 0 by {
            if i > 0 {
                assert(r[i] == ys[i - 1]);
                assert(r[i + 1] == ys[i]);
            }
        }
        assert(r =~= ys.insert(0, x));
    } else {
        let rest = ys.drop_first();
        assert forall|i: int| 0 <= i < rest.len() - 1 implies ord(#[trigger] rest[i], rest[i + 1]) <= 0 by {
            assert(rest[i] == ys[i + 1]);
            assert(rest[i + 1] == ys[i + 2]);
        }
        lemma_inserted_by_sorted(ord, x, rest);
        assert(ord(x, ys[0]) == -ord(ys[0], x));
        let t = inserted_by(ord, x, rest);
        let r = seq![ys[0]] + t;
        assert forall|i: int| 0 <= i < r.len() - 1 implies ord(#[trigger] r[i], r[i + 1]) <= 0 by {
            if i > 0 {
                assert(r[i] == t[i - 1]);
                assert(r[i + 1] == t[i]);
            } else if rest.len() > 0 && t[0] == rest[0] {
                assert(rest[0] == ys[1]);
            }
        }
        vstd::seq_lib::lemma_multiset_commutative(seq![ys[0]], t);
        vstd::seq_lib::lemma_multiset_commutative(seq![ys[0]], rest);
        assert(seq![ys[0]] + rest =~= ys);
        assert(r.to_multiset() =~= ys.to_multiset().insert(x));
    }
}

/// A stable sort by an antisymmetric comparison puts each item at most the
/// next one, and keeps the items with their multiplicities.
pub proof fn lemma_sorted_by<T>(ord: spec_fn(T, T) -> int, xs: Seq<T>)
    requires
        antisymmetric(ord),
    ensures
        is_sorted_by(ord, sorted_by(ord, xs)),
        sorted_by(ord, xs).to_multiset() == xs.to_multiset(),
    decreases xs.len(),
{
    broadcast use vstd::seq_lib::group_to_multiset_ensures;

    if xs.len() > 0 {
        lemma_sorted_by(ord, xs.drop_first());
        lemma_inserted_by_sorted(ord, xs[0], sorted_by(ord, xs.drop_first()));
        assert(xs.drop_first().insert(0, xs[0]) =~= xs);
    } else {
        assert(sorted_by(ord, xs).to_multiset() =~= xs.to_multiset()) by {
            assert(xs =~= Seq::<T>::empty());
        }
    }
}

/// Sorting descending orders two paths as sorting ascending orders them
/// the other way round.
pub proof fn lemma_descending_reverses(by: SortBy, a: ItemPath, b: ItemPath)
    ensures
        sorter_order(Sorter { sort_by: by, sort_order: SortOrder::Descending }, a, b) == sorter_order(
            Sorter { sort_by: by, sort_order: SortOrder::Ascending },
            b,
            a,
        ),
{
    lemma_path_order_antisymmetric(by, a, b);
}

/// A sorter's order of paths, and of results, is antisymmetric.
pub proof fn lemma_sorter_antisymmetric<E>(s: Sorter)
    ensures
        antisymmetric(by_sorter(s)),
        antisymmetric(results_by_sorter::<E>(s)),
{
    assert forall|a: ItemPath, b: ItemPath| #[trigger] by_sorter(s)(a, b) == -by_sorter(s)(b, a) by {
        lemma_path_order_antisymmetric(s.sort_by, a, b);
    }
    assert forall|a: Result<ItemPath, E>, b: Result<ItemPath, E>| #[trigger] results_by_sorter::<E>(s)(a, b)
        == -results_by_sorter::<E>(s)(b, a) by {
        match (a, b) {
            (Ok(x), Ok(y)) => lemma_path_order_antisymmetric(s.sort_by, x, y),
            _ => {},
        }
    }
}

/// Sorting paths puts each at most the next under the sorter, keeps the
/// paths with their multiplicities, and in results puts every error before
/// every path.
pub proof fn lemma_sorter_sorts<E>(s: Sorter, paths: Seq<ItemPath>, results: Seq<Result<ItemPath, E>>)
    ensures
        is_sorted_by(by_sorter(s), sorted_by(by_sorter(s), paths)),
        sorted_by(by_sorter(s), paths).to_multiset() == paths.to_multiset(),
        is_sorted_by(results_by_sorter::<E>(s), sorted_by(results_by_sorter::<E>(s), results)),
        sorted_by(results_by_sorter::<E>(s), results).to_multiset() == results.to_multiset(),
        forall|i: int, j: int|
            0 <= i < j < results.len() && #[trigger] sorted_by(results_by_sorter::<E>(s), results)[j] is Err
                ==> #[trigger] sorted_by(results_by_sorter::<E>(s), results)[i] is Err,
{
    lemma_sorter_antisymmetric::<E>(s);
    lemma_sorted_by(by_sorter(s), paths);
    lemma_sorted_by(results_by_sorter::<E>(s), results);
    let r = sorted_by(results_by_sorter::<E>(s), results);
    let c = results_by_sorter::<E>(s);
    vstd::seq_lib::to_multiset_len(r);
    vstd::seq_lib::to_multiset_len(results);
    assert forall|a: Result<ItemPath, E>, b: Result<ItemPath, E>| (a is Ok && b is Err) implies #[trigger] c(
        a,
        b,
    ) > 0 by {}
    assert forall|i: int, j: int| 0 <= i < j < results.len() && #[trigger] r[j] is Err implies #[trigger] r[i] is Err by {
        lemma_errors_first(c, r, i, j);
    }
}

proof fn lemma_errors_first<E>(c: spec_fn(Result<ItemPath, E>, Result<ItemPath, E>) -> int, r: Seq<Result<ItemPath, E>>, i: int, j: int)
    requires
        is_sorted_by(c, r),
        0 <= i < j < r.len(),
        r[j] is Err,
        forall|a: Result<ItemPath, E>, b: Result<ItemPath, E>| (a is Ok && b is Err) ==> #[trigger] c(a, b) > 0,
    ensures
        r[i] is Err,
    decreases j - i,
{
    if j == i + 1 {
        assert(c(r[i], r[i + 1]) <= 0);
    } else {
        lemma_errors_first(c, r, i + 1, j);
        assert(c(r[i], r[i + 1]) <= 0);
    }
}

impl Sorter {
    /// The default sorter: by name, ascending.
    pub fn default() -> (r: Self)
        ensures
            r == (Sorter { sort_by: SortBy::Name, sort_order: SortOrder::Ascending }),
    {
        Sorter { sort_by: SortBy::default(), sort_order: SortOrder::default() }
    }

    /// An ascending order turned around for a descending direction.
    fn align(&self, asc_ord: Ordering) -> (r: Ordering)
        ensures
            ordering_sign(r) == aligned(self.sort_order, ordering_sign(asc_ord)),
    {
        match self.sort_order {
            SortOrder::Ascending => asc_ord,
            SortOrder::Descending => match asc_ord {
                Ordering::Less => Ordering::Greater,
                Ordering::Equal => Ordering::Equal,
                Ordering::Greater => Ordering::Less,
            },
        }
    }

    /// Compares two absolute item paths using this sorting criteria.
    pub fn cmp_paths(&self, abs_path_a: &ItemPath, abs_path_b: &ItemPath) -> (r: Ordering)
        ensures
            ordering_sign(r) == sorter_order(*self, *abs_path_a, *abs_path_b),
    {
        self.align(self.sort_by.cmp_paths(abs_path_a, abs_path_b))
    }

    /// Compares two item paths under this sorter: -1, 0 or 1.
    pub fn order_paths(&self, a: &ItemPath, b: &ItemPath) -> (r: i8)
        ensures
            r == sorter_order(*self, *a, *b),
    {
        let o = self.sort_by.order_paths(a, b);
        proof {
            lemma_path_order_sign(self.sort_by, *a, *b);
        }
        match self.sort_order {
            SortOrder::Ascending => o,
            SortOrder::Descending => -o,
        }
    }

    /// Compares two results holding item paths under this sorter: -1, 0 or 1.
    pub fn order_path_results<E>(&self, a: &Result<ItemPath, E>, b: &Result<ItemPath, E>) -> (r: i8)
        ensures
            r == sorter_result_order(*self, *a, *b),
    {
        match (a, b) {
            (Ok(x), Ok(y)) => self.order_paths(x, y),
            (Err(_), Ok(_)) => -1,
            (Ok(_), Err(_)) => 1,
            (Err(_), Err(_)) => 0,
        }
    }

    /// Sorts item paths stably under this sorter.
    pub fn sort_paths(&self, paths: &mut Vec<ItemPath>)
        ensures
            final(paths)@ == sorted_by(by_sorter(*self), old(paths)@),
    {
        let ghost before = paths@;
        let v = paths.split_off(0);
        proof {
            assert(v@ =~= before);
        }
        let s = *self;
        let compare = (|a: &ItemPath, b: &ItemPath| -> (o: i8)
            ensures
                o == sorter_order(s, *a, *b),
            { s.order_paths(a, b) });
        let sorted = insertion_sort(v, compare, Ghost(by_sorter(s)));
        *paths = sorted;
    }

    /// Sorts results holding item paths stably under this sorter: errors
    /// first, in their order, then the paths.
    pub fn sort_path_results<E>(&self, res_paths: &mut Vec<Result<ItemPath, E>>)
        ensures
            final(res_paths)@ == sorted_by(results_by_sorter::<E>(*self), old(res_paths)@),
    {
        let ghost before = res_paths@;
        let v = res_paths.split_off(0);
        proof {
            assert(v@ =~= before);
        }
        let s = *self;
        let compare = (|a: &Result<ItemPath, E>, b: &Result<ItemPath, E>| -> (o: i8)
            ensures
                o == sorter_result_order(s, *a, *b),
            { s.order_path_results(a, b) });
        let sorted = insertion_sort(v, compare, Ghost(results_by_sorter::<E>(s)));
        *res_paths = sorted;
    }
}

} // verus!
