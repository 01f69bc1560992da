use std::cmp::Ordering;

use taggu::config::sorter::sort_by::ItemPath;
use taggu::library::pattern::Pattern;
use taggu::library::sort_order::SortOrder;
use taggu::library::{ItemSelection, ItemSortOrdering, PathInfo};

const DIR: &str = "/tmp/test_is_selected_path";

/// The test paths and whether each is a directory: for each suffix, a file
/// and a directory without extension, then with each extension.
fn paths_and_flags() -> Vec<(String, bool)> {
    let mut paths_and_flags = vec![];
    let exts = vec!["flac", "ogg"];
    let suffixes = vec!["_a", "_b", "_aa"];
    for suffix in &suffixes {
        paths_and_flags.push((format!("{}/file{}", DIR, suffix), false));
        paths_and_flags.push((format!("{}/dir{}", DIR, suffix), true));
        for ext in &exts {
            paths_and_flags.push((format!("{}/file{}.{}", DIR, suffix, ext), false));
            paths_and_flags.push((format!("{}/dir{}.{}", DIR, suffix, ext), true));
        }
    }
    paths_and_flags
}

fn info(path: &str, is_dir: bool) -> PathInfo {
    PathInfo { path: path.to_string(), exists: true, is_file: !is_dir, is_dir }
}

fn ext(e: &str) -> ItemSelection {
    ItemSelection::Ext(e.to_string())
}

fn regex(r: &str) -> ItemSelection {
    ItemSelection::Regex(Pattern::new(r).unwrap())
}

#[test]
fn test_is_selected_path() {
    let paths_and_flags = paths_and_flags();

    let selections_and_true_indices = vec![
        (ItemSelection::IsFile, vec![0_usize, 2, 4, 6, 8, 10, 12, 14, 16]),
        (ItemSelection::IsDir, vec![1, 3, 5, 7, 9, 11, 13, 15, 17]),
        (ext("flac"), vec![2, 3, 8, 9, 14, 15]),
        (ext("ogg"), vec![4, 5, 10, 11, 16, 17]),
        (regex(r".*_a\..*"), vec![2, 3, 4, 5]),
        (ItemSelection::And(Box::new(ItemSelection::IsFile), Box::new(ext("ogg"))), vec![4, 10, 16]),
        (
            ItemSelection::Or(Box::new(ext("ogg")), Box::new(ext("flac"))),
            vec![2, 3, 4, 5, 8, 9, 10, 11, 14, 15, 16, 17],
        ),
        (
            ItemSelection::Or(
                Box::new(ItemSelection::IsDir),
                Box::new(ItemSelection::And(Box::new(ItemSelection::IsFile), Box::new(ext("flac")))),
            ),
            vec![1, 2, 3, 5, 7, 8, 9, 11, 13, 14, 15, 17],
        ),
        (
            ItemSelection::Xor(Box::new(ItemSelection::IsFile), Box::new(regex(r".*_a\..*"))),
            vec![0, 3, 5, 6, 8, 10, 12, 14, 16],
        ),
        (ItemSelection::Not(Box::new(ItemSelection::IsFile)), vec![1, 3, 5, 7, 9, 11, 13, 15, 17]),
        (ItemSelection::Not(Box::new(ext("flac"))), vec![0, 1, 4, 5, 6, 7, 10, 11, 12, 13, 16, 17]),
        (ItemSelection::True, (0..18).collect()),
        (ItemSelection::False, vec![]),
    ];

    for (selection, true_indices) in selections_and_true_indices {
        for (index, (abs_path, is_dir)) in paths_and_flags.iter().enumerate() {
            let expected = true_indices.contains(&index);
            let produced = selection.is_selected_path(&info(abs_path, *is_dir));
            assert_eq!(expected, produced);
        }
    }
}

#[test]
fn missing_paths_are_never_selected() {
    let missing = PathInfo { path: format!("{}/gone.flac", DIR), exists: false, is_file: false, is_dir: false };
    assert!(!ItemSelection::True.is_selected_path(&missing));
    assert!(!ItemSelection::Not(Box::new(ItemSelection::False)).is_selected_path(&missing));
}

#[test]
fn selected_items_in_dir_drops_unreadable_entries() {
    let entries: Vec<Result<PathInfo, String>> = vec![
        Ok(info("d/a.flac", false)),
        Err(String::from("unreadable")),
        Ok(info("d/b.ogg", false)),
        Ok(info("d/c.flac", true)),
    ];
    let selected = ext("flac").selected_items_in_dir(entries);
    let names: Vec<String> = selected.into_iter().map(|p| p.path).collect();
    assert_eq!(names, vec![String::from("d/a.flac"), String::from("d/c.flac")]);
}

#[test]
fn pattern_matches_by_regex() {
    let p = Pattern::new(r"^ab+c$").unwrap();
    assert!(p.is_match("abbc"));
    assert!(!p.is_match("ac"));
    assert!(Pattern::new(r"(unclosed").is_err());
}

#[test]
fn library_sort_orders_compare_paths() {
    let a = ItemPath { path: String::from("x/a"), mtime: Some(20) };
    let b = ItemPath { path: String::from("x/b"), mtime: Some(10) };
    assert_eq!(SortOrder::Name.path_sort_cmp(&a, &b), Ordering::Less);
    assert_eq!(SortOrder::ModTime.path_sort_cmp(&a, &b), Ordering::Greater);
    assert_eq!(ItemSortOrdering::Name.path_sort_cmp(&a, &b), Ordering::Less);
    assert_eq!(ItemSortOrdering::ModTime.path_sort_cmp(&a, &b), Ordering::Greater);
}
