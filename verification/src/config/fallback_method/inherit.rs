//! Combining the metadata of an item with that of its ancestors.

use vstd::prelude::*;

use crate::metadata::types::{KeyView, MetaKey, MetaVal, ValView, entries_view, key_order};
use crate::metadata::types::{lemma_entries_view, lemma_entries_view_concat, lemma_entries_view_skip};
use crate::metadata::types::lemma_entries_view_update;
use crate::metadata::types::{chars_order, lemma_chars_order_antisymmetric, lemma_chars_order_transitive, str_order};
use crate::metadata::types::{entries_get, entries_wf, val_wf};
use crate::metadata::types::{lemma_entries_get_below, lemma_key_order_antisymmetric, lemma_key_order_zero};

verus! {

/// The value that merging a newer value into an older one gives.
/// Two mappings merge key by key, recursively where both have the key.
/// A mapping and a non-mapping merge by treating the non-mapping as the
/// value under the null key of the mapping. Otherwise the newer value wins.
pub open spec fn merged(o: ValView, n: ValView) -> ValView
    decreases o, n,
{
    match (o, n) {
        (ValView::Mapping(os), ValView::Mapping(ns)) => ValView::Mapping(merged_entries(os, ns)),
        (ValView::Mapping(os), _) => ValView::Mapping(
            if os.len() > 0 && os[0].0 == KeyView::Nil {
                os.update(0, (KeyView::Nil, merged(os[0].1, n)))
            } else {
                seq![(KeyView::Nil, n)] + os
            },
        ),
        (_, ValView::Mapping(ns)) => ValView::Mapping(
            if ns.len() > 0 && ns[0].0 == KeyView::Nil {
                ns.update(0, (KeyView::Nil, merged(o, ns[0].1)))
            } else {
                seq![(KeyView::Nil, o)] + ns
            },
        ),
        _ => n,
    }
}

/// The entries of two key-ordered mappings merged: entries under keys of
/// only one mapping are kept, values under shared keys are merged.
pub open spec fn merged_entries(
    os: Seq<(KeyView, ValView)>,
    ns: Seq<(KeyView, ValView)>,
) -> Seq<(KeyView, ValView)>
    decreases os, ns,
{
    if os.len() == 0 {
        ns
    } else if ns.len() == 0 {
        os
    } else if key_order(os[0].0, ns[0].0) < 0 {
        seq![os[0]] + merged_entries(os.drop_first(), ns)
    } else if key_order(os[0].0, ns[0].0) > 0 {
        seq![ns[0]] + merged_entries(os, ns.drop_first())
    } else {
        seq![(os[0].0, merged(os[0].1, ns[0].1))] + merged_entries(
            os.drop_first(),
            ns.drop_first(),
        )
    }
}

/// Combines two meta values together following overwriting rules: the
/// newer value wins.
pub fn overwrite(_older_mv: MetaVal, newer_mv: MetaVal) -> (r: MetaVal)
    ensures
        r == newer_mv,
{
    newer_mv
}

/// Combines two meta values together following merging rules.
pub fn merge(older_mv: MetaVal, newer_mv: MetaVal) -> (r: MetaVal)
    ensures
        r@ == merged(older_mv@, newer_mv@),
        val_wf(older_mv@) && val_wf(newer_mv@) ==> val_wf(r@),
    decreases older_mv@, newer_mv@,
{
    let ghost o = older_mv@;
    let ghost n = newer_mv@;
    proof {
        if val_wf(o) && val_wf(n) {
            lemma_merged_wf(o, n);
        }
    }
    match older_mv {
        MetaVal::Mapping(os) => {
            match newer_mv {
                MetaVal::Mapping(ns) => {
                    proof {
                        assert(decreases_to!(o => o->Mapping_0));
                    }
                    MetaVal::Mapping(merge_entries(os, ns))
                },
                newer => {
                    let mut os = os;
                    proof {
                        lemma_entries_view(os@);
                    }
                    let ghost os0 = os@;
                    if os.len() > 0 && os[0].0.is_nil() {
                        let (k, v) = os.remove(0);
                        proof {
                            assert(decreases_to!(o => o->Mapping_0));
                            assert(decreases_to!(o->Mapping_0 => o->Mapping_0[0]));
                            assert(decreases_to!(o->Mapping_0[0] => o->Mapping_0[0].1));
                        }
                        let m = merge(v, newer);
                        let ghost before = os@;
                        os.insert(0, (k, m));
                        proof {
                            assert(os@ =~= os0.update(0, (k, m)));
                            lemma_entries_view_update(os0, 0, (k, m));
                        }
                    } else {
                        let ghost before = os@;
                        os.insert(0, (MetaKey::Nil, newer));
                        proof {
                            lemma_entries_view(os@);
                            assert(entries_view(os@) =~= seq![(KeyView::Nil, n)] + entries_view(
                                before,
                            ));
                        }
                    }
                    MetaVal::Mapping(os)
                },
            }
        },
        older => {
            match newer_mv {
                MetaVal::Mapping(ns) => {
                    let mut ns = ns;
                    proof {
                        lemma_entries_view(ns@);
                    }
                    let ghost ns0 = ns@;
                    if ns.len() > 0 && ns[0].0.is_nil() {
                        let (k, v) = ns.remove(0);
                        proof {
                            assert(decreases_to!(n => n->Mapping_0));
                            assert(decreases_to!(n->Mapping_0 => n->Mapping_0[0]));
                            assert(decreases_to!(n->Mapping_0[0] => n->Mapping_0[0].1));
                        }
                        let m = merge(older, v);
                        let ghost before = ns@;
                        ns.insert(0, (k, m));
                        proof {
                            assert(ns@ =~= ns0.update(0, (k, m)));
                            lemma_entries_view_update(ns0, 0, (k, m));
                        }
                    } else {
                        let ghost before = ns@;
                        ns.insert(0, (MetaKey::Nil, older));
                        proof {
                            lemma_entries_view(ns@);
                            assert(entries_view(ns@) =~= seq![(KeyView::Nil, o)] + entries_view(
                                before,
                            ));
                        }
                    }
                    MetaVal::Mapping(ns)
                },
                newer => newer,
            }
        },
    }
}

/// Merges the entries of two key-ordered mappings.
#[verifier::loop_isolation(false)]
fn merge_entries(os: Vec<(MetaKey, MetaVal)>, ns: Vec<(MetaKey, MetaVal)>) -> (r: Vec<
    (MetaKey, MetaVal),
>)
    ensures
        entries_view(r@) == merged_entries(entries_view(os@), entries_view(ns@)),
    decreases entries_view(os@), entries_view(ns@),
{
    let ghost ov0 = entries_view(os@);
    let ghost nv0 = entries_view(ns@);
    let mut os = os;
    let mut ns = ns;
    let mut out: Vec<(MetaKey, MetaVal)> = Vec::new();
    let ghost mut ko: int = 0;
    let ghost mut kn: int = 0;
    proof {
        assert(ov0.skip(0) =~= ov0);
        assert(nv0.skip(0) =~= nv0);
        assert(entries_view(out@) =~= Seq::empty());
        assert(entries_view(out@) + merged_entries(ov0, nv0) =~= merged_entries(ov0, nv0));
    }
    while os.len() > 0 && ns.len() > 0
        invariant
            0 <= ko <= ov0.len(),
            0 <= kn <= nv0.len(),
            entries_view(os@) == ov0.skip(ko),
            entries_view(ns@) == nv0.skip(kn),
            entries_view(out@) + merged_entries(entries_view(os@), entries_view(ns@))
                == merged_entries(ov0, nv0),
        decreases os.len() + ns.len(),
    {
        let ghost ov = entries_view(os@);
        let ghost nv = entries_view(ns@);
        let ghost out_before = out@;
        proof {
            lemma_entries_view(os@);
            lemma_entries_view(ns@);
            assert(ov.drop_first() =~= ov0.skip(ko + 1));
            assert(nv.drop_first() =~= nv0.skip(kn + 1));
        }
        let ghost before_os = os@;
        let ghost before_ns = ns@;
        let c = os[0].0.order(&ns[0].0);
        if c < 0 {
            let e = os.remove(0);
            proof {
                lemma_entries_view_skip(before_os, 1);
                assert(os@ =~= before_os.skip(1));
            }
            out.push(e);
            proof {
                ko = ko + 1;
                lemma_entries_view_concat(out_before, seq![e]);
                assert(out@ =~= out_before + seq![e]);
                lemma_entries_view(seq![e]);
            }
        } else if c > 0 {
            let e = ns.remove(0);
            proof {
                lemma_entries_view_skip(before_ns, 1);
                assert(ns@ =~= before_ns.skip(1));
            }
            out.push(e);
            proof {
                kn = kn + 1;
                lemma_entries_view_concat(out_before, seq![e]);
                assert(out@ =~= out_before + seq![e]);
                lemma_entries_view(seq![e]);
            }
        } else {
            let (k, vo) = os.remove(0);
            let (_kn_key, vn) = ns.remove(0);
            proof {
                lemma_entries_view_skip(before_os, 1);
                assert(os@ =~= before_os.skip(1));
                lemma_entries_view_skip(before_ns, 1);
                assert(ns@ =~= before_ns.skip(1));
                lemma_entries_view(before_os);
                assert(vo@ == ov0[ko].1);
                assert(decreases_to!(ov0 => ov0[ko]));
                assert(decreases_to!(ov0[ko] => ov0[ko].1));
                assert(decreases_to!(ov0 => ov0[ko].1));
                assert(decreases_to!(ov0, nv0 => vo@, vn@));
            }
            let m = merge(vo, vn);
            let e = (k, m);
            out.push(e);
            proof {
                ko = ko + 1;
                kn = kn + 1;
                lemma_entries_view_concat(out_before, seq![e]);
                assert(out@ =~= out_before + seq![e]);
                lemma_entries_view(seq![e]);
            }
        }
    }
    let ghost out_before = out@;
    if os.len() > 0 {
        let ghost rest = os@;
        out.append(&mut os);
        proof {
            lemma_entries_view_concat(out_before, rest);
        }
    } else {
        let ghost rest = ns@;
        out.append(&mut ns);
        proof {
            lemma_entries_view_concat(out_before, rest);
        }
    }
    out
}

proof fn lemma_entries_wf_cons(e: (KeyView, ValView), es: Seq<(KeyView, ValView)>)
    requires
        val_wf(e.1),
        entries_wf(es),
        es.len() > 0 ==> key_order(e.0, es[0].0) < 0,
    ensures
        entries_wf(seq![e] + es),
{
    let s = seq![e] + es;
    assert(s.drop_first() =~= es);
    assert(s[0] == e);
    if es.len() > 0 {
        assert(s[1] == es[0]);
    }
}

/// Merging two well-formed values gives a well-formed value.
pub proof fn lemma_merged_wf(o: ValView, n: ValView)
    requires
        val_wf(o),
        val_wf(n),
    ensures
        val_wf(merged(o, n)),
    decreases o, n,
{
    match (o, n) {
        (ValView::Mapping(os), ValView::Mapping(ns)) => {
            lemma_merged_entries_wf(os, ns);
        },
        (ValView::Mapping(os), _) => {
            if os.len() > 0 && os[0].0 == KeyView::Nil {
                lemma_merged_wf(os[0].1, n);
                let u = os.update(0, (KeyView::Nil, merged(os[0].1, n)));
                assert(u.drop_first() =~= os.drop_first());
                if os.len() > 1 {
                    assert(u[1] == os[1]);
                }
            } else {
                if os.len() > 0 {
                    assert(key_order(KeyView::Nil, os[0].0) < 0);
                }
                lemma_entries_wf_cons((KeyView::Nil, n), os);
            }
        },
        (_, ValView::Mapping(ns)) => {
            if ns.len() > 0 && ns[0].0 == KeyView::Nil {
                lemma_merged_wf(o, ns[0].1);
                let u = ns.update(0, (KeyView::Nil, merged(o, ns[0].1)));
                assert(u.drop_first() =~= ns.drop_first());
                if ns.len() > 1 {
                    assert(u[1] == ns[1]);
                }
            } else {
                if ns.len() > 0 {
                    assert(key_order(KeyView::Nil, ns[0].0) < 0);
                }
                lemma_entries_wf_cons((KeyView::Nil, o), ns);
            }
        },
        _ => {},
    }
}

/// Merging two key-ordered entry sequences gives a key-ordered sequence,
/// whose first key is the first key of one of them.
pub proof fn lemma_merged_entries_wf(os: Seq<(KeyView, ValView)>, ns: Seq<(KeyView, ValView)>)
    requires
        entries_wf(os),
        entries_wf(ns),
    ensures
        entries_wf(merged_entries(os, ns)),
        merged_entries(os, ns).len() > 0 ==> (os.len() > 0 && merged_entries(os, ns)[0].0
            == os[0].0) || (ns.len() > 0 && merged_entries(os, ns)[0].0 == ns[0].0),
        merged_entries(os, ns).len() == 0 ==> os.len() == 0 && ns.len() == 0,
    decreases os, ns,
{
    if os.len() > 0 && ns.len() > 0 {
        let c = key_order(os[0].0, ns[0].0);
        lemma_key_order_antisymmetric(os[0].0, ns[0].0);
        if c < 0 {
            let rest = merged_entries(os.drop_first(), ns);
            lemma_merged_entries_wf(os.drop_first(), ns);
            if rest.len() > 0 {
                if os.len() > 1 {
                    assert(os.drop_first()[0] == os[1]);
                }
            }
            lemma_entries_wf_cons(os[0], rest);
            assert(merged_entries(os, ns) == seq![os[0]] + rest);
        } else if c > 0 {
            let rest = merged_entries(os, ns.drop_first());
            lemma_merged_entries_wf(os, ns.drop_first());
            if rest.len() > 0 {
                if ns.len() > 1 {
                    assert(ns.drop_first()[0] == ns[1]);
                }
            }
            lemma_entries_wf_cons(ns[0], rest);
            assert(merged_entries(os, ns) == seq![ns[0]] + rest);
        } else {
            lemma_key_order_zero(os[0].0, ns[0].0);
            let rest = merged_entries(os.drop_first(), ns.drop_first());
            lemma_merged_entries_wf(os.drop_first(), ns.drop_first());
            lemma_merged_wf(os[0].1, ns[0].1);
            if rest.len() > 0 {
                if os.len() > 1 {
                    assert(os.drop_first()[0] == os[1]);
                }
                if ns.len() > 1 {
                    assert(ns.drop_first()[0] == ns[1]);
                }
            }
            let e = (os[0].0, merged(os[0].1, ns[0].1));
            lemma_entries_wf_cons(e, rest);
            assert(merged_entries(os, ns) == seq![e] + rest);
        }
    }
}

/// The combination that merging applies under one key: the merged value
/// where both sides hold the key, else whichever side holds it.
pub open spec fn merged_lookup(a: Option<ValView>, b: Option<ValView>) -> Option<ValView> {
    match (a, b) {
        (Some(x), Some(y)) => Some(merged(x, y)),
        (Some(x), None) => Some(x),
        (None, Some(y)) => Some(y),
        (None, None) => None,
    }
}

proof fn lemma_entries_get_cons(e: (KeyView, ValView), es: Seq<(KeyView, ValView)>, k: KeyView)
    ensures
        entries_get(seq![e] + es, k) == if e.0 == k {
            Some(e.1)
        } else {
            entries_get(es, k)
        },
{
    let s = seq![e] + es;
    assert(s.drop_first() =~= es);
    assert(s[0] == e);
}

/// The value under a key of a mapping value; `None` for any other value.
pub open spec fn value_at(v: ValView, k: KeyView) -> Option<ValView> {
    match v {
        ValView::Mapping(es) => entries_get(es, k),
        _ => None,
    }
}

/// Putting a value under the null key of key-ordered entries: the first
/// entry is replaced where it has the null key, else the new entry goes
/// first; the other keys keep their values.
proof fn lemma_root_replaced(es: Seq<(KeyView, ValView)>, x: ValView, k: KeyView)
    requires
        entries_wf(es),
    ensures
        entries_get(
            if es.len() > 0 && es[0].0 == KeyView::Nil {
                es.update(0, (KeyView::Nil, x))
            } else {
                seq![(KeyView::Nil, x)] + es
            },
            k,
        ) == if k == KeyView::Nil {
            Some(x)
        } else {
            entries_get(es, k)
        },
        es.len() > 0 && es[0].0 == KeyView::Nil ==> entries_get(es, KeyView::Nil) == Some(es[0].1),
        !(es.len() > 0 && es[0].0 == KeyView::Nil) ==> entries_get(es, KeyView::Nil) == None::<ValView>,
{
    if es.len() > 0 && es[0].0 == KeyView::Nil {
        let u = es.update(0, (KeyView::Nil, x));
        assert(u.drop_first() =~= es.drop_first());
        assert(u[0] == (KeyView::Nil, x));
    } else {
        lemma_entries_get_cons((KeyView::Nil, x), es, k);
        if es.len() > 0 {
            lemma_entries_get_below(es, KeyView::Nil);
        }
    }
}

/// Merging with a value that is not a mapping treats that value as the one
/// under the null key: the result is a mapping with the other side's
/// entries, and under the null key stands the root value merged with what
/// the mapping held there (the older first), or the root value alone where
/// the mapping held nothing there. Two values that are not mappings merge
/// to the newer one.
pub proof fn lemma_merged_non_mapping(o: ValView, n: ValView, k: KeyView)
    requires
        val_wf(o),
        val_wf(n),
    ensures
        !(o is Mapping) && !(n is Mapping) ==> merged(o, n) == n,
        !(o is Mapping) && n is Mapping ==> merged(o, n) is Mapping && value_at(merged(o, n), k) == if k
            == KeyView::Nil {
            match value_at(n, KeyView::Nil) {
                Some(v) => Some(merged(o, v)),
                None => Some(o),
            }
        } else {
            value_at(n, k)
        },
        o is Mapping && !(n is Mapping) ==> merged(o, n) is Mapping && value_at(merged(o, n), k) == if k
            == KeyView::Nil {
            match value_at(o, KeyView::Nil) {
                Some(w) => Some(merged(w, n)),
                None => Some(n),
            }
        } else {
            value_at(o, k)
        },
{
    match (o, n) {
        (ValView::Mapping(os), ValView::Mapping(ns)) => {},
        (ValView::Mapping(os), _) => {
            if os.len() > 0 && os[0].0 == KeyView::Nil {
                lemma_root_replaced(os, merged(os[0].1, n), k);
            } else {
                lemma_root_replaced(os, n, k);
            }
        },
        (_, ValView::Mapping(ns)) => {
            if ns.len() > 0 && ns[0].0 == KeyView::Nil {
                lemma_root_replaced(ns, merged(o, ns[0].1), k);
            } else {
                lemma_root_replaced(ns, o, k);
            }
        },
        _ => {},
    }
}

/// Merging two key-ordered mappings works key by key: under every key the
/// merge holds the merged value where both mappings hold the key, and
/// otherwise the value of whichever mapping holds it.
pub proof fn lemma_merged_entries_get(
    os: Seq<(KeyView, ValView)>,
    ns: Seq<(KeyView, ValView)>,
    k: KeyView,
)
    requires
        entries_wf(os),
        entries_wf(ns),
    ensures
        entries_get(merged_entries(os, ns), k) == merged_lookup(
            entries_get(os, k),
            entries_get(ns, k),
        ),
    decreases os, ns,
{
    if os.len() == 0 {
        assert(entries_get(os, k) == None::<ValView>);
    } else if ns.len() == 0 {
        assert(entries_get(ns, k) == None::<ValView>);
    } else {
        let c = key_order(os[0].0, ns[0].0);
        lemma_key_order_antisymmetric(os[0].0, ns[0].0);
        lemma_key_order_zero(os[0].0, ns[0].0);
        if c < 0 {
            lemma_merged_entries_get(os.drop_first(), ns, k);
            lemma_entries_get_cons(os[0], merged_entries(os.drop_first(), ns), k);
            if os[0].0 == k {
                lemma_entries_get_below(ns, k);
            }
        } else if c > 0 {
            lemma_merged_entries_get(os, ns.drop_first(), k);
            lemma_entries_get_cons(ns[0], merged_entries(os, ns.drop_first()), k);
            if ns[0].0 == k {
                lemma_entries_get_below(os, k);
            }
        } else {
            lemma_merged_entries_get(os.drop_first(), ns.drop_first(), k);
            lemma_entries_get_cons(
                (os[0].0, merged(os[0].1, ns[0].1)),
                merged_entries(os.drop_first(), ns.drop_first()),
                k,
            );
        }
    }
}

/// Different ways to process parent metadata into desired outputs.
#[derive(Clone, Copy, PartialEq, Eq, Debug, Hash, Structural)]
pub enum InheritMethod {
    Overwrite,
    Merge,
}

impl InheritMethod {
    /// The default method: overwriting.
    pub fn default() -> (r: Self)
        ensures
            r == InheritMethod::Overwrite,
    {
        InheritMethod::Overwrite
    }
}

/// The metadata of one item: values under string keys, in increasing key
/// order.
pub type MetaBlock = Vec<(String, MetaVal)>;

/// The view of a metadata block.
pub open spec fn block_view(b: Seq<(String, MetaVal)>) -> Seq<(Seq<char>, ValView)> {
    Seq::new(b.len(), |i: int| (b[i].0@, b[i].1@))
}

/// The view of a map from keys to inherit methods.
pub open spec fn methods_view(m: Seq<(String, InheritMethod)>) -> Seq<(Seq<char>, InheritMethod)> {
    Seq::new(m.len(), |i: int| (m[i].0@, m[i].1))
}

/// The method for a key: that of its first entry in the map, overwriting
/// if it has none.
pub open spec fn method_for(m: Seq<(Seq<char>, InheritMethod)>, k: Seq<char>) -> InheritMethod
    decreases m.len(),
{
    if m.len() == 0 {
        InheritMethod::Overwrite
    } else if m[0].0 == k {
        m[0].1
    } else {
        method_for(m.drop_first(), k)
    }
}

/// The value two values under the same key give by a method.
pub open spec fn inherited_value(method: InheritMethod, o: ValView, n: ValView) -> ValView {
    match method {
        InheritMethod::Overwrite => n,
        InheritMethod::Merge => merged(o, n),
    }
}

/// Two key-ordered blocks combined: keys of only one block keep their
/// value, values under shared keys combine by the key's method.
pub open spec fn combined_blocks(
    older: Seq<(Seq<char>, ValView)>,
    newer: Seq<(Seq<char>, ValView)>,
    m: Seq<(Seq<char>, InheritMethod)>,
) -> Seq<(Seq<char>, ValView)>
    decreases older.len() + newer.len(),
{
    if older.len() == 0 {
        newer
    } else if newer.len() == 0 {
        older
    } else if chars_order(older[0].0, newer[0].0) < 0 {
        seq![older[0]] + combined_blocks(older.drop_first(), newer, m)
    } else if chars_order(older[0].0, newer[0].0) > 0 {
        seq![newer[0]] + combined_blocks(older, newer.drop_first(), m)
    } else {
        seq![
            (
                older[0].0,
                inherited_value(method_for(m, older[0].0), older[0].1, newer[0].1),
            ),
        ] + combined_blocks(older.drop_first(), newer.drop_first(), m)
    }
}

/// The value under a key in a block: that of its first entry with the key.
pub open spec fn block_get(b: Seq<(Seq<char>, ValView)>, k: Seq<char>) -> Option<ValView>
    decreases b.len(),
{
    if b.len() == 0 {
        None
    } else if b[0].0 == k {
        Some(b[0].1)
    } else {
        block_get(b.drop_first(), k)
    }
}

/// Whether the keys of a block strictly increase.
pub open spec fn block_sorted(b: Seq<(Seq<char>, ValView)>) -> bool {
    forall|i: int| 0 <= i < b.len() - 1 ==> chars_order(#[trigger] b[i].0, b[i + 1].0) < 0
}

/// What combining gives under one key: the combined value where both
/// blocks hold the key, else the value of whichever block holds it.
pub open spec fn inherited_lookup(method: InheritMethod, older: Option<ValView>, newer: Option<ValView>) -> Option<
    ValView,
> {
    match (older, newer) {
        (Some(o), Some(n)) => Some(inherited_value(method, o, n)),
        (Some(o), None) => Some(o),
        (None, Some(n)) => Some(n),
        (None, None) => None,
    }
}

proof fn lemma_block_sorted_rest(b: Seq<(Seq<char>, ValView)>)
    requires
        block_sorted(b),
        b.len() > 0,
    ensures
        block_sorted(b.drop_first()),
{
    let r = b.drop_first();
    assert forall|i: int| 0 <= i < r.len() - 1 implies chars_order(#[trigger] r[i].0, r[i + 1].0) < 0 by {
        assert(r[i] == b[i + 1]);
        assert(r[i + 1] == b[i + 2]);
    }
}

/// In a block whose keys increase, no key below the first key is present.
proof fn lemma_block_get_below(b: Seq<(Seq<char>, ValView)>, k: Seq<char>)
    requires
        block_sorted(b),
        b.len() > 0,
        chars_order(k, b[0].0) < 0,
    ensures
        block_get(b, k) == None::<ValView>,
    decreases b.len(),
{
    lemma_chars_order_antisymmetric(k, b[0].0);
    lemma_chars_order_antisymmetric(k, k);
    lemma_block_sorted_rest(b);
    if b.len() > 1 {
        assert(chars_order(b[0].0, b[1].0) < 0);
        lemma_chars_order_transitive(k, b[0].0, b[1].0);
        assert(b.drop_first()[0] == b[1]);
        lemma_block_get_below(b.drop_first(), k);
    } else {
        assert(block_get(b.drop_first(), k) == None::<ValView>);
    }
}

/// Combining two blocks whose keys increase works key by key: under every
/// key the combination holds the value that the key's method makes of both
/// values where both blocks hold the key, and otherwise the value of
/// whichever block holds it.
pub proof fn lemma_combined_blocks_get(
    older: Seq<(Seq<char>, ValView)>,
    newer: Seq<(Seq<char>, ValView)>,
    m: Seq<(Seq<char>, InheritMethod)>,
    k: Seq<char>,
)
    requires
        block_sorted(older),
        block_sorted(newer),
    ensures
        block_get(combined_blocks(older, newer, m), k) == inherited_lookup(
            method_for(m, k),
            block_get(older, k),
            block_get(newer, k),
        ),
    decreases older.len() + newer.len(),
{
    if older.len() == 0 {
        assert(block_get(older, k) == None::<ValView>);
    } else if newer.len() == 0 {
        assert(block_get(newer, k) == None::<ValView>);
    } else {
        let c = chars_order(older[0].0, newer[0].0);
        lemma_chars_order_antisymmetric(older[0].0, newer[0].0);
        lemma_block_sorted_rest(older);
        lemma_block_sorted_rest(newer);
        if c < 0 {
            lemma_combined_blocks_get(older.drop_first(), newer, m, k);
            let rest = combined_blocks(older.drop_first(), newer, m);
            let whole = seq![older[0]] + rest;
            assert(whole.drop_first() =~= rest);
            if older[0].0 == k {
                lemma_block_get_below(newer, k);
            }
        } else if c > 0 {
            lemma_combined_blocks_get(older, newer.drop_first(), m, k);
            let rest = combined_blocks(older, newer.drop_first(), m);
            let whole = seq![newer[0]] + rest;
            assert(whole.drop_first() =~= rest);
            if newer[0].0 == k {
                lemma_chars_order_antisymmetric(k, older[0].0);
                lemma_block_get_below(older, k);
            }
        } else {
            lemma_combined_blocks_get(older.drop_first(), newer.drop_first(), m, k);
            let rest = combined_blocks(older.drop_first(), newer.drop_first(), m);
            let first = (older[0].0, inherited_value(method_for(m, older[0].0), older[0].1, newer[0].1));
            let whole = seq![first] + rest;
            assert(whole.drop_first() =~= rest);
            assert(whole[0] == first);
        }
    }
}

/// The blocks of an item and of its ancestors, nearest first, folded into
/// one block: each older block is combined under the result so far.
pub open spec fn inherited_blocks(
    bs: Seq<Seq<(Seq<char>, ValView)>>,
    m: Seq<(Seq<char>, InheritMethod)>,
) -> Seq<(Seq<char>, ValView)>
    decreases bs.len(),
{
    if bs.len() == 0 {
        Seq::empty()
    } else {
        combined_blocks(bs.last(), inherited_blocks(bs.drop_last(), m), m)
    }
}

/// Looks up the method for a key.
fn lookup_method(method_map: &Vec<(String, InheritMethod)>, key: &String) -> (r: InheritMethod)
    ensures
        r == method_for(methods_view(method_map@), key@),
{
    let ghost mv = methods_view(method_map@);
    let mut i: usize = 0;
    proof {
        assert(mv.skip(0) =~= mv);
    }
    while i < method_map.len()
        invariant
            i <= method_map.len(),
            mv == methods_view(method_map@),
            method_for(mv, key@) == method_for(mv.skip(i as int), key@),
        decreases method_map.len() - i,
    {
        proof {
            assert(mv.skip(i as int).drop_first() =~= mv.skip(i + 1));
        }
        if method_map[i].0 == *key {
            return method_map[i].1;
        }
        i = i + 1;
    }
    proof {
        assert(mv.skip(i as int).len() == 0);
    }
    InheritMethod::Overwrite
}

proof fn lemma_block_view_skip(b: Seq<(String, MetaVal)>, k: int)
    requires
        0 <= k <= b.len(),
    ensures
        block_view(b.skip(k)) == block_view(b).skip(k),
{
    assert(block_view(b.skip(k)) =~= block_view(b).skip(k));
}

proof fn lemma_block_view_concat(a: Seq<(String, MetaVal)>, b: Seq<(String, MetaVal)>)
    ensures
        block_view(a + b) == block_view(a) + block_view(b),
{
    assert(block_view(a + b) =~= block_view(a) + block_view(b));
}

/// Combines an older block under a newer one, key by key.
#[verifier::loop_isolation(false)]
pub fn combine_blocks(
    older_mb: MetaBlock,
    newer_mb: MetaBlock,
    method_map: &Vec<(String, InheritMethod)>,
) -> (r: MetaBlock)
    ensures
        block_view(r@) == combined_blocks(
            block_view(older_mb@),
            block_view(newer_mb@),
            methods_view(method_map@),
        ),
{
    let ghost ov0 = block_view(older_mb@);
    let ghost nv0 = block_view(newer_mb@);
    let ghost m = methods_view(method_map@);
    let mut os = older_mb;
    let mut ns = newer_mb;
    let mut out: MetaBlock = Vec::new();
    let ghost mut ko: int = 0;
    let ghost mut kn: int = 0;
    proof {
        assert(ov0.skip(0) =~= ov0);
        assert(nv0.skip(0) =~= nv0);
        assert(block_view(out@) + combined_blocks(ov0, nv0, m) =~= combined_blocks(ov0, nv0, m));
    }
    while os.len() > 0 && ns.len() > 0
        invariant
            0 <= ko <= ov0.len(),
            0 <= kn <= nv0.len(),
            block_view(os@) == ov0.skip(ko),
            block_view(ns@) == nv0.skip(kn),
            block_view(out@) + combined_blocks(block_view(os@), block_view(ns@), m)
                == combined_blocks(ov0, nv0, m),
        decreases os.len() + ns.len(),
    {
        let ghost ov = block_view(os@);
        let ghost nv = block_view(ns@);
        let ghost out_before = out@;
        let ghost before_os = os@;
        let ghost before_ns = ns@;
        proof {
            assert(ov.drop_first() =~= ov0.skip(ko + 1));
            assert(nv.drop_first() =~= nv0.skip(kn + 1));
        }
        let c = str_order(os[0].0.as_str(), ns[0].0.as_str());
        if c < 0 {
            let e = os.remove(0);
            proof {
                lemma_block_view_skip(before_os, 1);
                assert(os@ =~= before_os.skip(1));
                ko = ko + 1;
            }
            out.push(e);
            proof {
                lemma_block_view_concat(out_before, seq![e]);
                assert(out@ =~= out_before + seq![e]);
            }
        } else if c > 0 {
            let e = ns.remove(0);
            proof {
                lemma_block_view_skip(before_ns, 1);
                assert(ns@ =~= before_ns.skip(1));
                kn = kn + 1;
            }
            out.push(e);
            proof {
                lemma_block_view_concat(out_before, seq![e]);
                assert(out@ =~= out_before + seq![e]);
            }
        } else {
            let (k, vo) = os.remove(0);
            let (_same_key, vn) = ns.remove(0);
            proof {
                lemma_block_view_skip(before_os, 1);
                assert(os@ =~= before_os.skip(1));
                lemma_block_view_skip(before_ns, 1);
                assert(ns@ =~= before_ns.skip(1));
                ko = ko + 1;
                kn = kn + 1;
            }
            let method = lookup_method(method_map, &k);
            let v = match method {
                InheritMethod::Overwrite => overwrite(vo, vn),
                InheritMethod::Merge => merge(vo, vn),
            };
            let e = (k, v);
            out.push(e);
            proof {
                lemma_block_view_concat(out_before, seq![e]);
                assert(out@ =~= out_before + seq![e]);
            }
        }
    }
    let ghost out_before = out@;
    if os.len() > 0 {
        let ghost rest = os@;
        out.append(&mut os);
        proof {
            lemma_block_view_concat(out_before, rest);
        }
    } else {
        let ghost rest = ns@;
        out.append(&mut ns);
        proof {
            lemma_block_view_concat(out_before, rest);
        }
    }
    out
}

impl InheritMethod {
    /// Folds the blocks of an item and of its ancestors, nearest first, into
    /// one block: starting from an empty block, each older block is combined
    /// under the result so far, key by key, with the method that the map gives
    /// for the key (overwriting by default).
    pub fn process(blocks: Vec<MetaBlock>, method_map: &Vec<(String, InheritMethod)>) -> (r: MetaBlock)
        ensures
            block_view(r@) == inherited_blocks(
                Seq::new(blocks@.len(), |i: int| block_view(blocks@[i]@)),
                methods_view(method_map@),
            ),
    {
        let ghost bv = Seq::new(blocks@.len(), |i: int| block_view(blocks@[i]@));
        let ghost m = methods_view(method_map@);
        let mut rest = blocks;
        let mut acc: MetaBlock = Vec::new();
        let ghost mut i: int = 0;
        proof {
            assert(bv.take(0) =~= Seq::<Seq<(Seq<char>, ValView)>>::empty());
            assert(block_view(acc@) =~= Seq::empty());
        }
        while rest.len() > 0
            invariant
                bv.len() == i + rest.len(),
                0 <= i <= bv.len(),
                m == methods_view(method_map@),
                forall|j: int| 0 <= j < rest.len() ==> bv[i + j] == block_view(#[trigger] rest@[j]@),
                block_view(acc@) == inherited_blocks(bv.take(i), m),
            decreases rest.len(),
        {
            let ghost before = rest@;
            let older = rest.remove(0);
            proof {
                assert(bv[i] == block_view(older@)) by {
                    assert(before[0] == older);
                }
                assert forall|j: int| 0 <= j < rest.len() implies bv[i + 1 + j] == block_view(#[trigger] rest@[j]@) by {
                    assert(rest@[j] == before[j + 1]);
                }
                assert(bv.take(i + 1).drop_last() =~= bv.take(i));
                assert(bv.take(i + 1).last() == bv[i]);
            }
            acc = combine_blocks(older, acc, method_map);
            proof {
                i = i + 1;
            }
        }
        proof {
            assert(bv.take(i) =~= bv);
        }
        acc
    }
}

} // verus!
