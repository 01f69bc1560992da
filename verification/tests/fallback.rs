use taggu::config::agg_method::AggMethod;
use taggu::config::fallback_method::inherit::{merge, overwrite, InheritMethod};
use taggu::metadata::types::{MetaKey, MetaVal};

fn s(x: &str) -> MetaVal {
    MetaVal::Str(String::from(x))
}

fn k(x: &str) -> MetaKey {
    MetaKey::Str(String::from(x))
}

fn map(entries: Vec<(MetaKey, MetaVal)>) -> MetaVal {
    MetaVal::Mapping(entries)
}

#[test]
fn test_aggregate() {
    let inputs_and_expected = vec![
        ((AggMethod::First, vec![s("A")]), s("A")),
        ((AggMethod::First, vec![s("A"), s("B"), s("C")]), s("A")),
        ((AggMethod::First, vec![]), MetaVal::Nil),
        (
            (AggMethod::Collect, vec![s("A"), s("B"), s("C")]),
            MetaVal::Sequence(vec![s("A"), s("B"), s("C")]),
        ),
        ((AggMethod::Collect, vec![]), MetaVal::Sequence(vec![])),
    ];

    for (input, expected) in inputs_and_expected {
        let (agg_method, mvs) = input;
        let produced = agg_method.aggregate(mvs);
        assert_eq!(expected, produced);
    }
}

#[test]
fn test_override() {
    let inputs_and_expected = vec![
        ((MetaVal::Nil, s("A")), s("A")),
        ((s("A"), map(vec![(k("b"), s("B"))])), map(vec![(k("b"), s("B"))])),
        (
            (map(vec![(k("a"), s("A"))]), map(vec![(k("b"), s("B"))])),
            map(vec![(k("b"), s("B"))]),
        ),
        (
            (
                map(vec![
                    (MetaKey::Nil, map(vec![(MetaKey::Nil, s("X")), (k("y"), s("Y"))])),
                    (k("a"), s("A")),
                ]),
                map(vec![
                    (MetaKey::Nil, map(vec![(k("z"), s("Z"))])),
                    (k("b"), s("B")),
                ]),
            ),
            map(vec![
                (MetaKey::Nil, map(vec![(k("z"), s("Z"))])),
                (k("b"), s("B")),
            ]),
        ),
    ];

    for (input, expected) in inputs_and_expected {
        let (older_mv, newer_mv) = input;
        let produced = overwrite(older_mv, newer_mv);
        assert_eq!(expected, produced);
    }
}

#[test]
fn test_merge() {
    let inputs_and_expected = vec![
        ((MetaVal::Nil, s("A")), s("A")),
        (
            (s("A"), map(vec![(k("b"), s("B"))])),
            map(vec![(MetaKey::Nil, s("A")), (k("b"), s("B"))]),
        ),
        (
            (map(vec![(k("a"), s("A"))]), map(vec![(k("b"), s("B"))])),
            map(vec![(k("a"), s("A")), (k("b"), s("B"))]),
        ),
        (
            (
                map(vec![
                    (MetaKey::Nil, map(vec![(MetaKey::Nil, s("X")), (k("y"), s("Y"))])),
                    (k("a"), s("A")),
                ]),
                map(vec![
                    (MetaKey::Nil, map(vec![(k("z"), s("Z"))])),
                    (k("b"), s("B")),
                ]),
            ),
            map(vec![
                (
                    MetaKey::Nil,
                    map(vec![(MetaKey::Nil, s("X")), (k("y"), s("Y")), (k("z"), s("Z"))]),
                ),
                (k("a"), s("A")),
                (k("b"), s("B")),
            ]),
        ),
    ];

    for (input, expected) in inputs_and_expected {
        let (older_mv, newer_mv) = input;
        let produced = merge(older_mv, newer_mv);
        assert_eq!(expected, produced);
    }
}

#[test]
fn merge_keeps_the_older_root_under_a_newer_mapping() {
    // The older value goes under the null key of the newer mapping, which
    // has none yet.
    let produced = merge(s("old"), map(vec![(k("x"), s("X"))]));
    assert_eq!(map(vec![(MetaKey::Nil, s("old")), (k("x"), s("X"))]), produced);
}

#[test]
fn merge_puts_a_newer_root_into_an_older_mapping() {
    let produced = merge(map(vec![(MetaKey::Nil, s("old")), (k("x"), s("X"))]), s("new"));
    assert_eq!(map(vec![(MetaKey::Nil, s("new")), (k("x"), s("X"))]), produced);
}

#[test]
fn inherit_process_folds_blocks_nearest_first() {
    // The nearest block comes first; older blocks are combined under it.
    let nearest = vec![(String::from("b"), s("near b")), (String::from("m"), map(vec![(k("x"), s("X"))]))];
    let parent = vec![
        (String::from("a"), s("parent a")),
        (String::from("b"), s("parent b")),
        (String::from("m"), map(vec![(k("y"), s("Y"))])),
    ];
    let method_map = vec![(String::from("m"), InheritMethod::Merge)];
    let produced = InheritMethod::process(vec![nearest, parent], &method_map);
    assert_eq!(
        vec![
            (String::from("a"), s("parent a")),
            (String::from("b"), s("near b")),
            (String::from("m"), map(vec![(k("x"), s("X")), (k("y"), s("Y"))])),
        ],
        produced
    );
}

#[test]
fn inherit_method_default_is_overwrite() {
    assert_eq!(InheritMethod::Overwrite, InheritMethod::default());
}
