use taggu::library::config::Config;
use taggu::library::selection::filter::Selection as FilterSelection;
use taggu::library::selection::matcher::{Error as MatcherError, Matcher};
use taggu::library::selection::{ErrorKind, Selection};
use taggu::library::sort_order::SortOrder;
use taggu::library::PathInfo;

#[test]
fn selection_test_from_patterns() {
    let passing_inputs = vec![
        Selection::from_patterns(&["*"]),
        Selection::from_patterns(&["*.a", "*.b"]),
        Selection::from_patterns(&["?.a", "?.b"]),
        Selection::from_patterns(&["*.a"]),
        Selection::from_patterns(&["**"]),
        Selection::from_patterns(&["a/**/b"]),
        Selection::from_patterns(&[""; 0]),
        Selection::from_patterns(&[""]),
        Selection::from_patterns(&["[a-z]*.a"]),
        Selection::from_patterns(&["**", "[a-z]*.a"]),
        Selection::from_patterns(&["[!abc]"]),
        Selection::from_patterns(&["[*]"]),
        Selection::from_patterns(&["[?]"]),
        Selection::from_patterns(&["{*.a,*.b,*.c}"]),
    ];

    for input in passing_inputs {
        let expected = true;
        let produced = input.is_ok();
        assert_eq!(expected, produced);
    }

    let failing_inputs = vec![
        // Unclosed character class
        Selection::from_patterns(&["[abc"]),
        // Malformed character range
        Selection::from_patterns(&["[z-a]"]),
        // Unclosed alternates
        Selection::from_patterns(&["{*.a,*.b,*.c"]),
        // Nested alternates
        Selection::from_patterns(&["{*.a,{*.b,*.c}}"]),
    ];

    for input in failing_inputs {
        match input.err().unwrap().kind() {
            ErrorKind::InvalidPattern => {},
            _ => {
                panic!();
            },
        }
    }
}

#[test]
fn selection_test_is_match() {
    let selection_a = Selection::from_patterns(&["*.a", "*.b"]).unwrap();
    let selection_b = Selection::from_patterns(&["*.b"]).unwrap();
    let selection_c = Selection::from_patterns(&["*.a", "*.c"]).unwrap();
    let selection_d = Selection::from_patterns(&["*"]).unwrap();

    assert_eq!(selection_a.is_match("path.a"), true);
    assert_eq!(selection_a.is_match("path.b"), true);
    assert_eq!(selection_a.is_match("path.c"), false);
    assert_eq!(selection_a.is_match("path.ab"), false);
    assert_eq!(selection_a.is_match("path"), false);

    assert_eq!(selection_b.is_match("path.a"), false);
    assert_eq!(selection_b.is_match("path.b"), true);
    assert_eq!(selection_b.is_match("path.c"), false);
    assert_eq!(selection_b.is_match("path.ab"), false);
    assert_eq!(selection_b.is_match("path"), false);

    assert_eq!(selection_c.is_match("path.a"), true);
    assert_eq!(selection_c.is_match("path.b"), false);
    assert_eq!(selection_c.is_match("path.c"), true);
    assert_eq!(selection_c.is_match("path.ab"), false);
    assert_eq!(selection_c.is_match("path"), false);

    assert_eq!(selection_d.is_match("path.a"), true);
    assert_eq!(selection_d.is_match("path.b"), true);
    assert_eq!(selection_d.is_match("path.c"), true);
    assert_eq!(selection_d.is_match("path.ab"), true);
    assert_eq!(selection_d.is_match("path"), true);
}

#[test]
fn selection_test_any() {
    let selection = Selection::any();

    assert_eq!(selection.is_match("path"), true);
    assert_eq!(selection.is_match("path.a"), true);
    assert_eq!(selection.is_match("path.a.b.c"), true);
    assert_eq!(selection.is_match("path.ab"), true);
    assert_eq!(selection.is_match(""), true);
}

#[test]
fn selection_test_empty() {
    let selection = Selection::empty();

    assert_eq!(selection.is_match("path"), false);
    assert_eq!(selection.is_match("path.a"), false);
    assert_eq!(selection.is_match("path.a.b.c"), false);
    assert_eq!(selection.is_match("path.ab"), false);
    assert_eq!(selection.is_match(""), false);
}

#[test]
fn matcher_test_from_patterns() {
    let passing_inputs = vec![
        Matcher::from_patterns(&["*"]),
        Matcher::from_patterns(&["*.a", "*.b"]),
        Matcher::from_patterns(&["?.a", "?.b"]),
        Matcher::from_patterns(&["*.a"]),
        Matcher::from_patterns(&["**"]),
        Matcher::from_patterns(&["a/**/b"]),
        Matcher::from_patterns(&[""; 0]),
        Matcher::from_patterns(&[""]),
        Matcher::from_patterns(&["[a-z]*.a"]),
        Matcher::from_patterns(&["**", "[a-z]*.a"]),
        Matcher::from_patterns(&["[!abc]"]),
        Matcher::from_patterns(&["[*]"]),
        Matcher::from_patterns(&["[?]"]),
        Matcher::from_patterns(&["{*.a,*.b,*.c}"]),
    ];

    for input in passing_inputs {
        let expected = true;
        let produced = input.is_ok();
        assert_eq!(expected, produced);
    }

    let failing_inputs = vec![
        // Unclosed character class
        Matcher::from_patterns(&["[abc"]),
        // Malformed character range
        Matcher::from_patterns(&["[z-a]"]),
        // Unclosed alternates
        Matcher::from_patterns(&["{*.a,*.b,*.c"]),
        // Nested alternates
        Matcher::from_patterns(&["{*.a,{*.b,*.c}}"]),
    ];

    for input in failing_inputs {
        match input.err().unwrap() {
            MatcherError::InvalidPattern(_) => {},
            _ => {
                panic!();
            },
        }
    }
}

#[test]
fn matcher_test_is_match() {
    let matcher_a = Matcher::from_patterns(&["*.a", "*.b"]).unwrap();
    let matcher_b = Matcher::from_patterns(&["*.b"]).unwrap();
    let matcher_c = Matcher::from_patterns(&["*.a", "*.c"]).unwrap();
    let matcher_d = Matcher::from_patterns(&["*"]).unwrap();

    assert_eq!(matcher_a.is_match("path.a"), true);
    assert_eq!(matcher_a.is_match("path.b"), true);
    assert_eq!(matcher_a.is_match("path.c"), false);
    assert_eq!(matcher_a.is_match("path.ab"), false);
    assert_eq!(matcher_a.is_match("path"), false);

    assert_eq!(matcher_b.is_match("path.a"), false);
    assert_eq!(matcher_b.is_match("path.b"), true);
    assert_eq!(matcher_b.is_match("path.c"), false);
    assert_eq!(matcher_b.is_match("path.ab"), false);
    assert_eq!(matcher_b.is_match("path"), false);

    assert_eq!(matcher_c.is_match("path.a"), true);
    assert_eq!(matcher_c.is_match("path.b"), false);
    assert_eq!(matcher_c.is_match("path.c"), true);
    assert_eq!(matcher_c.is_match("path.ab"), false);
    assert_eq!(matcher_c.is_match("path"), false);

    assert_eq!(matcher_d.is_match("path.a"), true);
    assert_eq!(matcher_d.is_match("path.b"), true);
    assert_eq!(matcher_d.is_match("path.c"), true);
    assert_eq!(matcher_d.is_match("path.ab"), true);
    assert_eq!(matcher_d.is_match("path"), true);
}

#[test]
fn matcher_test_any() {
    let matcher = Matcher::any();

    assert_eq!(matcher.is_match("path"), true);
    assert_eq!(matcher.is_match("path.a"), true);
    assert_eq!(matcher.is_match("path.a.b.c"), true);
    assert_eq!(matcher.is_match("path.ab"), true);
    assert_eq!(matcher.is_match(""), true);
}

#[test]
fn matcher_test_empty() {
    let matcher = Matcher::empty();

    assert_eq!(matcher.is_match("path"), false);
    assert_eq!(matcher.is_match("path.a"), false);
    assert_eq!(matcher.is_match("path.a.b.c"), false);
    assert_eq!(matcher.is_match("path.ab"), false);
    assert_eq!(matcher.is_match(""), false);
}

#[test]
fn matchers_with_the_same_patterns_compare_equal() {
    let a = Matcher::from_patterns(&["*.b", "*.a", "*.b"]).unwrap();
    let b = Matcher::from_patterns(&["*.a", "*.b"]).unwrap();
    let c = Matcher::from_patterns(&["*.a"]).unwrap();
    assert!(a.same_patterns(&b));
    assert!(!a.same_patterns(&c));
    assert!(Matcher::empty().same_patterns(&Matcher::from_patterns(&[""; 0]).unwrap()));
}

#[test]
fn config_test_is_pattern_match() {
    let mut config = Config::default();
    config.selection = FilterSelection::from_patterns(&["*.flac", "*.mp3"], &["*.yml", "*.jpg"]).unwrap();

    assert_eq!(config.selection.is_pattern_match("music.flac"), true);
    assert_eq!(config.selection.is_pattern_match("music.mp3"), true);
    assert_eq!(config.selection.is_pattern_match("photo.png"), false);
    assert_eq!(config.selection.is_pattern_match("self.yml"), false);
    assert_eq!(config.selection.is_pattern_match("unknown"), false);
}

#[test]
fn default_library_config_skips_metadata_files() {
    let config = Config::default();
    assert_eq!(config.sort_order, SortOrder::Name);
    assert_eq!(config.item_fn, "item.yml");
    assert_eq!(config.self_fn, "self.yml");
    assert!(config.selection.is_pattern_match("music.flac"));
    assert!(!config.selection.is_pattern_match("item.yml"));
}

#[test]
fn filter_selection_takes_directories_and_matching_files() {
    let selection = FilterSelection::from_patterns(&["*.flac"], &["d/bad*"]).unwrap();
    let paths = vec![
        PathInfo { path: String::from("d/a.flac"), exists: true, is_file: true, is_dir: false },
        PathInfo { path: String::from("d/bad.flac"), exists: true, is_file: true, is_dir: false },
        PathInfo { path: String::from("d/sub"), exists: true, is_file: false, is_dir: true },
        PathInfo { path: String::from("d/b.mp3"), exists: true, is_file: true, is_dir: false },
    ];
    let selected: Vec<String> = selection.select(paths).into_iter().map(|p| p.path).collect();
    assert_eq!(selected, vec![String::from("d/a.flac"), String::from("d/sub")]);
}

#[test]
fn star_does_not_match_across_a_line_break() {
    let any = Selection::any();
    assert!(any.is_match("music.flac"));
    assert!(!any.is_match("music\n.flac"));
    let m = Matcher::any();
    assert!(m.is_match("music.flac"));
    assert!(!m.is_match("music\n.flac"));
}
