use taggu::config::selection::matcher::Matcher;
use taggu::config::selection::selector::Selector;
use taggu::config::selection::{PathKind, Selection};
use taggu::config::sorter::sort_by::ItemPath;
use taggu::config::sorter::Sorter;

#[test]
fn build() {
    // Positive test cases.
    assert!(Matcher::build(&["*"]).is_ok());
    assert!(Matcher::build(&["*.a", "*.b"]).is_ok());
    assert!(Matcher::build(&["?.a", "?.b"]).is_ok());
    assert!(Matcher::build(&["*.a"]).is_ok());
    assert!(Matcher::build(&["**"]).is_ok());
    assert!(Matcher::build(&["a/**/b"]).is_ok());
    assert!(Matcher::build(&[""; 0]).is_ok());
    assert!(Matcher::build(&[""]).is_ok());
    assert!(Matcher::build(&["[a-z]*.a"]).is_ok());
    assert!(Matcher::build(&["**", "[a-z]*.a"]).is_ok());
    assert!(Matcher::build(&["[!abc]"]).is_ok());
    assert!(Matcher::build(&["[*]"]).is_ok());
    assert!(Matcher::build(&["[?]"]).is_ok());
    assert!(Matcher::build(&["{*.a,*.b,*.c}"]).is_ok());

    // Negative test cases.
    // Unclosed character class.
    assert!(Matcher::build(&["[abc"]).is_err());
    // Malformed character range.
    assert!(Matcher::build(&["[z-a]"]).is_err());
    // Unclosed alternates.
    assert!(Matcher::build(&["{*.a,*.b,*.c"]).is_err());
    // Nested alternates.
    assert!(Matcher::build(&["{*.a,{*.b,*.c}}"]).is_err());
    // Dangling escape.
    assert!(Matcher::build(&["*.a\\"]).is_err());
}

fn check_matches(matcher: &Matcher, expected: &[(&str, bool)]) {
    for (path, answer) in expected {
        assert_eq!(matcher.is_match(path), *answer, "path {:?}", path);
    }
}

#[test]
fn is_match() {
    let matcher = Matcher::build(&["*.a", "*.b"]).unwrap();
    check_matches(&matcher, &[
        ("path.a", true),
        ("path.b", true),
        ("path.c", false),
        ("path.ab", false),
        ("path", false),
        ("extra/path.a", true),
        ("extra/path.b", true),
        ("extra/path.c", false),
        ("/", false),
        ("", false),
    ]);

    let matcher = Matcher::build(&["*.b"]).unwrap();
    check_matches(&matcher, &[
        ("path.a", false),
        ("path.b", true),
        ("path.c", false),
        ("path.ab", false),
        ("path", false),
        ("extra/path.a", false),
        ("extra/path.b", true),
        ("extra/path.c", false),
        ("/", false),
        ("", false),
    ]);

    let matcher = Matcher::build(&["*.a", "*.c"]).unwrap();
    check_matches(&matcher, &[
        ("path.a", true),
        ("path.b", false),
        ("path.c", true),
        ("path.ab", false),
        ("path", false),
        ("extra/path.a", true),
        ("extra/path.b", false),
        ("extra/path.c", true),
        ("/", false),
        ("", false),
    ]);

    let matcher = Matcher::build(&["*"]).unwrap();
    check_matches(&matcher, &[
        ("path.a", true),
        ("path.b", true),
        ("path.c", true),
        ("path.ab", true),
        ("path", true),
        ("extra/path.a", true),
        ("extra/path.b", true),
        ("extra/path.c", true),
        ("/", false),
        ("", false),
    ]);

    let matcher = Matcher::build(&[] as &[&str]).unwrap();
    check_matches(&matcher, &[
        ("path.a", false),
        ("path.b", false),
        ("path.c", false),
        ("path.ab", false),
        ("path", false),
        ("extra/path.a", false),
        ("extra/path.b", false),
        ("extra/path.c", false),
        ("/", false),
        ("", false),
    ]);
}

#[test]
fn any() {
    let matcher = Matcher::any();
    check_matches(&matcher, &[
        ("path", true),
        ("path.a", true),
        ("path.a.b.c", true),
        ("path.ab", true),
        ("/extra/path.a", true),
        ("extra/path.a", true),
        ("/", false),
        ("", false),
    ]);
}

#[test]
fn empty() {
    let matcher = Matcher::empty();
    check_matches(&matcher, &[
        ("path", false),
        ("path.a", false),
        ("path.a.b.c", false),
        ("path.ab", false),
        ("/extra/path.a", false),
        ("extra/path.a", false),
        ("/", false),
        ("", false),
    ]);
}

#[test]
fn default() {
    let selection = Selection::default();

    assert!(selection.is_file_pattern_match("all"));
    assert!(selection.is_file_pattern_match("files"));
    assert!(selection.is_file_pattern_match("should"));
    assert!(selection.is_file_pattern_match("pass"));

    assert!(selection.is_dir_pattern_match("all"));
    assert!(selection.is_dir_pattern_match("dirs"));
    assert!(selection.is_dir_pattern_match("should"));
    assert!(selection.is_dir_pattern_match("pass"));
}

#[test]
fn is_pattern_match() {
    let selection = Selection::new(
        Matcher::build(&["*.flac"]).unwrap(),
        Matcher::build(&["*.mp3"]).unwrap(),
        Matcher::any(),
        Matcher::empty(),
    );

    assert_eq!(selection.is_file_pattern_match("path/to/music.flac"), true);
    assert_eq!(selection.is_file_pattern_match("path/to/music.mp3"), false);
    assert_eq!(selection.is_file_pattern_match("path/to/music.wav"), false);

    let selection = Selection::new(
        Matcher::build(&["*.flac", "*.wav"]).unwrap(),
        Matcher::build(&["*.mp3", "*.ogg"]).unwrap(),
        Matcher::any(),
        Matcher::empty(),
    );

    assert_eq!(selection.is_file_pattern_match("path/to/music.flac"), true);
    assert_eq!(selection.is_file_pattern_match("path/to/music.wav"), true);
    assert_eq!(selection.is_file_pattern_match("path/to/music.mp3"), false);
    assert_eq!(selection.is_file_pattern_match("path/to/music.ogg"), false);
    assert_eq!(selection.is_file_pattern_match("path/to/music.aac"), false);

    let selection = Selection::new(
        Matcher::any(),
        Matcher::build(&["*.mp3", "*.ogg"]).unwrap(),
        Matcher::any(),
        Matcher::empty(),
    );

    assert_eq!(selection.is_file_pattern_match("path/to/music.flac"), true);
    assert_eq!(selection.is_file_pattern_match("path/to/music.wav"), true);
    assert_eq!(selection.is_file_pattern_match("path/to/music.aac"), true);
    assert_eq!(selection.is_file_pattern_match("path/to/music.mpc"), true);
    assert_eq!(selection.is_file_pattern_match("path/to/music.mp3"), false);
    assert_eq!(selection.is_file_pattern_match("path/to/music.ogg"), false);

    let selection = Selection::new(
        Matcher::build(&["*.flac", "*.wav"]).unwrap(),
        Matcher::build(&["item*", "self*"]).unwrap(),
        Matcher::any(),
        Matcher::empty(),
    );

    assert_eq!(selection.is_file_pattern_match("path/to/music.flac"), true);
    assert_eq!(selection.is_file_pattern_match("path/to/music.wav"), true);
    assert_eq!(selection.is_file_pattern_match("path/to/item.flac"), false);
    assert_eq!(selection.is_file_pattern_match("path/to/self.flac"), false);
    assert_eq!(selection.is_file_pattern_match("path/to/music.aac"), false);
    assert_eq!(selection.is_file_pattern_match("path/to/music.mpc"), false);
    assert_eq!(selection.is_file_pattern_match("path/to/music.mp3"), false);
    assert_eq!(selection.is_file_pattern_match("path/to/music.ogg"), false);
}

const TEST_DIR: &str = "/tmp/select_in_dir";

/// The files of the test directory, as a listing of it gives them: in no
/// particular order.
fn test_dir_entries() -> Vec<Result<(ItemPath, Result<PathKind, String>), String>> {
    let file_names = vec![
        "self.flac",
        "music.wav",
        "item",
        "music.mp3",
        "item.yml",
        "music.flac",
        "self",
        "music.ogg",
        "self.yml",
        "item.flac",
        "music.aac",
    ];
    file_names
        .into_iter()
        .map(|name| {
            Ok((ItemPath { path: format!("{}/{}", TEST_DIR, name), mtime: None }, Ok(PathKind::File)))
        })
        .collect()
}

fn joined(names: &[&str]) -> Vec<String> {
    names.iter().map(|name| format!("{}/{}", TEST_DIR, name)).collect()
}

fn selected_sorted(selection: &Selection, sorter: &Sorter) -> Vec<String> {
    selection
        .select_in_dir_sorted(test_dir_entries(), sorter)
        .into_iter()
        .map(|r| r.unwrap().path)
        .collect()
}

#[test]
fn select_in_dir_sorted() {
    let sorter = Sorter::default();

    let selection = Selection::new(
        Matcher::build(&["music*"]).unwrap(),
        Matcher::build(&["*.mp3", "*.ogg", "*.aac"]).unwrap(),
        Matcher::any(),
        Matcher::empty(),
    );
    assert_eq!(joined(&["music.flac", "music.wav"]), selected_sorted(&selection, &sorter));

    let selection = Selection::new(
        Matcher::build(&["*.flac"]).unwrap(),
        Matcher::empty(),
        Matcher::any(),
        Matcher::empty(),
    );
    assert_eq!(joined(&["item.flac", "music.flac", "self.flac"]), selected_sorted(&selection, &sorter));

    let selection = Selection::new(
        Matcher::build(&["music*"]).unwrap(),
        Matcher::empty(),
        Matcher::any(),
        Matcher::empty(),
    );
    assert_eq!(
        joined(&["music.aac", "music.flac", "music.mp3", "music.ogg", "music.wav"]),
        selected_sorted(&selection, &sorter),
    );

    let selection = Selection::new(
        Matcher::build(&["item.*", "self.*"]).unwrap(),
        Matcher::build(&["*.flac"]).unwrap(),
        Matcher::any(),
        Matcher::empty(),
    );
    assert_eq!(joined(&["item.yml", "self.yml"]), selected_sorted(&selection, &sorter));
}

#[test]
fn select_in_dir_keeps_listing_order_and_errors() {
    let selection = Selection::new(
        Matcher::build(&["*.flac"]).unwrap(),
        Matcher::empty(),
        Matcher::build(&["*"]).unwrap(),
        Matcher::build(&["hidden"]).unwrap(),
    );
    let entries: Vec<Result<(ItemPath, Result<PathKind, String>), String>> = vec![
        Ok((ItemPath { path: String::from("a/b.flac"), mtime: None }, Ok(PathKind::File))),
        Err(String::from("unreadable")),
        Ok((ItemPath { path: String::from("a/c.mp3"), mtime: None }, Ok(PathKind::File))),
        Ok((ItemPath { path: String::from("a/sub"), mtime: None }, Ok(PathKind::Dir))),
        Ok((ItemPath { path: String::from("a/hidden"), mtime: None }, Ok(PathKind::Dir))),
        Ok((ItemPath { path: String::from("a/link.flac"), mtime: None }, Ok(PathKind::Other))),
        Ok((ItemPath { path: String::from("a/gone.flac"), mtime: None }, Err(String::from("no metadata")))),
    ];
    let selected: Vec<Result<String, String>> = selection
        .select_in_dir(entries)
        .into_iter()
        .map(|r| r.map(|p| p.path))
        .collect();
    assert_eq!(
        selected,
        vec![
            Ok(String::from("a/b.flac")),
            Err(String::from("unreadable")),
            Ok(String::from("a/sub")),
            Err(String::from("no metadata")),
        ],
    );
}

#[test]
fn is_selected_by_kind_or_read_error() {
    let selection = Selection::new(
        Matcher::build(&["*.flac"]).unwrap(),
        Matcher::empty(),
        Matcher::build(&["*"]).unwrap(),
        Matcher::build(&["hidden"]).unwrap(),
    );
    assert_eq!(Ok(true), selection.is_selected("a/b.flac", Ok::<PathKind, String>(PathKind::File)));
    assert_eq!(Ok(false), selection.is_selected("a/b.mp3", Ok::<PathKind, String>(PathKind::File)));
    assert_eq!(Ok(true), selection.is_selected("a/sub", Ok::<PathKind, String>(PathKind::Dir)));
    assert_eq!(Ok(false), selection.is_selected("a/hidden", Ok::<PathKind, String>(PathKind::Dir)));
    assert_eq!(Ok(false), selection.is_selected("a/b.flac", Ok::<PathKind, String>(PathKind::Other)));
    assert_eq!(
        Err(String::from("no metadata")),
        selection.is_selected("a/b.flac", Err::<PathKind, String>(String::from("no metadata"))),
    );
}

#[test]
fn test_default() {
    let selection = Selector::default();

    assert!(selection.is_pattern_match("all"));
    assert!(selection.is_pattern_match("paths"));
    assert!(selection.is_pattern_match("should"));
    assert!(selection.is_pattern_match("pass"));
    assert!(selection.is_pattern_match("this"));
    assert!(selection.is_pattern_match("selection"));
    assert!(selection.is_pattern_match("a/b/c"));
}

#[test]
fn selector_test_from_patterns() {
    // Positive test cases.
    assert!(Selector::from_patterns(&["*"], &["*"]).is_ok());
    assert!(Selector::from_patterns(&["*.a", "*.b"], &["*.a", "*.b"]).is_ok());
    assert!(Selector::from_patterns(&["?.a", "?.b"], &["?.a", "?.b"]).is_ok());
    assert!(Selector::from_patterns(&["*.a"], &["*.a"]).is_ok());
    assert!(Selector::from_patterns(&["**"], &["**"]).is_ok());
    assert!(Selector::from_patterns(&["a/**/b"], &["a/**/b"]).is_ok());
    assert!(Selector::from_patterns(&[""; 0], &[""; 0]).is_ok());
    assert!(Selector::from_patterns(&[""], &[""]).is_ok());
    assert!(Selector::from_patterns(&["[a-z]*.a"], &["[a-z]*.a"]).is_ok());
    assert!(Selector::from_patterns(&["**", "[a-z]*.a"], &["**", "[a-z]*.a"]).is_ok());
    assert!(Selector::from_patterns(&["[!abc]"], &["[!abc]"]).is_ok());
    assert!(Selector::from_patterns(&["[*]"], &["[*]"]).is_ok());
    assert!(Selector::from_patterns(&["[?]"], &["[?]"]).is_ok());
    assert!(Selector::from_patterns(&["{*.a,*.b,*.c}"], &["{*.a,*.b,*.c}"]).is_ok());

    // Negative test cases.
    // Unclosed character class.
    assert!(Selector::from_patterns(&["[abc"], &["[abc"]).is_err());
    // Malformed character range.
    assert!(Selector::from_patterns(&["[z-a]"], &["[z-a]"]).is_err());
    // Unclosed alternates.
    assert!(Selector::from_patterns(&["{*.a,*.b,*.c"], &["{*.a,*.b,*.c"]).is_err());
    // Nested alternates.
    assert!(Selector::from_patterns(&["{*.a,{*.b,*.c}}"], &["{*.a,{*.b,*.c}}"]).is_err());
    // Dangling escape.
    assert!(Selector::from_patterns(&["*.a\\"], &["*.a\\"]).is_err());
}

#[test]
fn selector_test_is_pattern_match() {
    let selection = Selector::from_patterns(&["*.flac"], &["*.mp3"]).unwrap();

    assert_eq!(selection.is_pattern_match("path/to/music.flac"), true);
    assert_eq!(selection.is_pattern_match("path/to/music.mp3"), false);
    assert_eq!(selection.is_pattern_match("path/to/music.wav"), false);

    let selection = Selector::from_patterns(&["*.flac", "*.wav"], &["*.mp3", "*.ogg"]).unwrap();

    assert_eq!(selection.is_pattern_match("path/to/music.flac"), true);
    assert_eq!(selection.is_pattern_match("path/to/music.wav"), true);
    assert_eq!(selection.is_pattern_match("path/to/music.mp3"), false);
    assert_eq!(selection.is_pattern_match("path/to/music.ogg"), false);
    assert_eq!(selection.is_pattern_match("path/to/music.aac"), false);

    let selection = Selector::from_patterns(&["*"], &["*.mp3", "*.ogg"]).unwrap();

    assert_eq!(selection.is_pattern_match("path/to/music.flac"), true);
    assert_eq!(selection.is_pattern_match("path/to/music.wav"), true);
    assert_eq!(selection.is_pattern_match("path/to/music.aac"), true);
    assert_eq!(selection.is_pattern_match("path/to/music.mpc"), true);
    assert_eq!(selection.is_pattern_match("path/to/music.mp3"), false);
    assert_eq!(selection.is_pattern_match("path/to/music.ogg"), false);

    let selection = Selector::from_patterns(&["*.flac", "*.wav"], &["item*", "self*"]).unwrap();

    assert_eq!(selection.is_pattern_match("path/to/music.flac"), true);
    assert_eq!(selection.is_pattern_match("path/to/music.wav"), true);
    assert_eq!(selection.is_pattern_match("path/to/item.flac"), false);
    assert_eq!(selection.is_pattern_match("path/to/self.flac"), false);
    assert_eq!(selection.is_pattern_match("path/to/music.aac"), false);
    assert_eq!(selection.is_pattern_match("path/to/music.mpc"), false);
    assert_eq!(selection.is_pattern_match("path/to/music.mp3"), false);
    assert_eq!(selection.is_pattern_match("path/to/music.ogg"), false);
}
