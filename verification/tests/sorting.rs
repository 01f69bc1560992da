use std::cmp::Ordering;

use taggu::config::sort_order::SortOrder as PathSortOrder;
use taggu::config::sorter::sort_by::{ItemPath, SortBy};
use taggu::config::sorter::{SortOrder, Sorter};
use taggu::decimal::Decimal;
use taggu::functions::util::number_like::NumberLike as NL;

const DIR: &str = "/tmp/sort_paths";

/// The files of the test directory, created one after the other in this
/// order, so that their modification times increase.
const CREATED: [&str; 5] = ["file_b", "file_e", "file_a", "file_c", "file_d"];

fn item(name: &str) -> ItemPath {
    let position = CREATED.iter().position(|n| *n == name).unwrap() as i128;
    ItemPath { path: format!("{}/{}", DIR, name), mtime: Some(1_000_000 + 10_000_000 * position) }
}

fn items(names: &[&str]) -> Vec<ItemPath> {
    names.iter().map(|n| item(n)).collect()
}

fn paths(v: &[ItemPath]) -> Vec<String> {
    v.iter().map(|p| p.path.clone()).collect()
}

/// The test paths in a shuffled order.
fn shuffled() -> Vec<ItemPath> {
    items(&["file_c", "file_a", "file_e", "file_d", "file_b"])
}

#[test]
fn sort_paths() {
    let cases = vec![
        (SortBy::Name, SortOrder::Ascending, ["file_a", "file_b", "file_c", "file_d", "file_e"]),
        (SortBy::Name, SortOrder::Descending, ["file_e", "file_d", "file_c", "file_b", "file_a"]),
        (SortBy::ModTime, SortOrder::Ascending, ["file_b", "file_e", "file_a", "file_c", "file_d"]),
        (SortBy::ModTime, SortOrder::Descending, ["file_d", "file_c", "file_a", "file_e", "file_b"]),
    ];
    for (sort_by, sort_order, expected) in cases {
        let sorter = Sorter { sort_by, sort_order };
        let mut produced = shuffled();
        sorter.sort_paths(&mut produced);
        assert_eq!(paths(&produced), paths(&items(&expected)));
    }
}

#[derive(Debug, Clone, Copy, PartialEq)]
struct Error(u32);

fn shuffled_results() -> Vec<Result<ItemPath, Error>> {
    vec![
        Ok(item("file_c")),
        Err(Error(1)),
        Ok(item("file_a")),
        Ok(item("file_e")),
        Err(Error(2)),
        Ok(item("file_d")),
        Err(Error(3)),
        Ok(item("file_b")),
    ]
}

fn result_paths(v: &[Result<ItemPath, Error>]) -> Vec<Result<String, Error>> {
    v.iter().map(|r| r.as_ref().map(|p| p.path.clone()).map_err(|e| *e)).collect()
}

#[test]
fn sort_path_results() {
    let cases = vec![
        (SortBy::Name, SortOrder::Ascending, ["file_a", "file_b", "file_c", "file_d", "file_e"]),
        (SortBy::Name, SortOrder::Descending, ["file_e", "file_d", "file_c", "file_b", "file_a"]),
        (SortBy::ModTime, SortOrder::Ascending, ["file_b", "file_e", "file_a", "file_c", "file_d"]),
        (SortBy::ModTime, SortOrder::Descending, ["file_d", "file_c", "file_a", "file_e", "file_b"]),
    ];
    for (sort_by, sort_order, names) in cases {
        let sorter = Sorter { sort_by, sort_order };
        let mut produced = shuffled_results();
        sorter.sort_path_results(&mut produced);
        let mut expected: Vec<Result<String, Error>> = vec![Err(Error(1)), Err(Error(2)), Err(Error(3))];
        expected.extend(names.iter().map(|n| Ok(item(n).path)));
        assert_eq!(result_paths(&produced), expected);
    }
}

/// The test paths in the order of creation, as they were written.
fn written() -> Vec<ItemPath> {
    items(&CREATED)
}

#[test]
fn cmp_paths() {
    let fps = written();

    // Test sorting by mod time.
    let sort_order = SortBy::ModTime;
    for (o_i, o_val) in fps.iter().enumerate() {
        for (i_i, i_val) in fps.iter().enumerate() {
            assert_eq!(o_i.cmp(&i_i), sort_order.cmp_paths(o_val, i_val));
        }
    }

    // Test sorting by name.
    let sort_order = SortBy::Name;
    for o_val in fps.iter() {
        for i_val in fps.iter() {
            let o_name = o_val.path.rsplit('/').next();
            let i_name = i_val.path.rsplit('/').next();
            assert_eq!(o_name.cmp(&i_name), sort_order.cmp_paths(o_val, i_val));
        }
    }
}

#[test]
fn test_path_sort_cmp() {
    let fps = written();

    // Test sorting by mod time.
    let sort_order = PathSortOrder::ModTime;
    for (o_i, o_val) in fps.iter().enumerate() {
        for (i_i, i_val) in fps.iter().enumerate() {
            assert_eq!(o_i.cmp(&i_i), sort_order.path_sort_cmp(o_val, i_val));
        }
    }

    // Test sorting by name.
    let sort_order = PathSortOrder::Name;
    for o_val in fps.iter() {
        for i_val in fps.iter() {
            let o_name = o_val.path.rsplit('/').next();
            let i_name = i_val.path.rsplit('/').next();
            assert_eq!(o_name.cmp(&i_name), sort_order.path_sort_cmp(o_val, i_val));
        }
    }
}

#[test]
fn paths_without_time_or_name_sort_first() {
    let timed = ItemPath { path: String::from("a/x"), mtime: Some(5) };
    let untimed = ItemPath { path: String::from("a/y"), mtime: None };
    assert_eq!(SortBy::ModTime.cmp_paths(&untimed, &timed), Ordering::Less);
    assert_eq!(SortBy::ModTime.cmp_paths(&timed, &untimed), Ordering::Greater);
    let root = ItemPath { path: String::from("/"), mtime: None };
    assert_eq!(SortBy::Name.cmp_paths(&root, &timed), Ordering::Less);
}

#[test]
fn descending_sorter_reverses_the_ascending_order() {
    let a = item("file_a");
    let b = item("file_b");
    let asc = Sorter { sort_by: SortBy::Name, sort_order: SortOrder::Ascending };
    let desc = Sorter { sort_by: SortBy::Name, sort_order: SortOrder::Descending };
    assert_eq!(asc.cmp_paths(&a, &b), Ordering::Less);
    assert_eq!(desc.cmp_paths(&a, &b), Ordering::Greater);
    assert_eq!(desc.cmp_paths(&a, &a), Ordering::Equal);
}

fn dec(mantissa: i64, scale: u32) -> NL {
    NL::Decimal(Decimal::new(mantissa, scale))
}

#[test]
fn test_val_cmp() {
    for l in -3i64..=3 {
        for r in -3i64..=3 {
            let li = NL::Integer(l);
            let ld = NL::Decimal(Decimal::from_int(l));
            let ri = NL::Integer(r);
            let rd = NL::Decimal(Decimal::from_int(r));

            let expected = l.cmp(&r);

            assert_eq!(expected, li.val_cmp(&ri));
            assert_eq!(expected, li.val_cmp(&rd));
            assert_eq!(expected, ld.val_cmp(&ri));
            assert_eq!(expected, ld.val_cmp(&rd));
        }
    }

    // Should be able to sort a list of numbers.
    let expected = vec![
        dec(-25, 1),
        NL::Integer(-2),
        dec(-15, 1),
        NL::Integer(-1),
        dec(-5, 1),
        NL::Integer(0),
        dec(5, 1),
        NL::Integer(1),
        dec(15, 1),
        NL::Integer(2),
        dec(25, 1),
    ];

    let mut produced = vec![
        NL::Integer(1),
        dec(-5, 1),
        dec(25, 1),
        NL::Integer(-2),
        dec(15, 1),
        NL::Integer(0),
        dec(-25, 1),
        NL::Integer(2),
        dec(5, 1),
        NL::Integer(-1),
        dec(-15, 1),
    ];

    produced.sort_by(NL::val_cmp);

    assert_eq!(expected, produced);
}
