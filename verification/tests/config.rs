use taggu::compose::Compositor;
use taggu::config::fallback_method::collect::CollectMethod;
use taggu::config::fallback_method::util::{AncestorItemVisitor, ChildrenItemVisitor};
use taggu::config::format::Format;
use taggu::config::meta_format::MetaFormat;
use taggu::config::selection::matcher::MatcherRepr;
use taggu::config::selection::SelectionRepr;
use taggu::config::sorter::sort_by::SortBy;
use taggu::config::sorter::{SortOrder, Sorter};
use taggu::config::{Config, ConfigRepr, SourcesRepr};
use taggu::error::{Error as ItemError, ErrorKind as ItemErrorKind};
use taggu::functions::Error as FunctionError;
use taggu::source::{Anchor, Source};

fn names(config: &Config) -> Vec<(String, Anchor)> {
    config.sourcer.as_sources().iter().map(|s| (s.file_name.clone(), s.anchor)).collect()
}

#[test]
fn default_config_selects_everything_and_reads_json_sources() {
    let config = Config::default();
    assert_eq!(config.sorter, Sorter { sort_by: SortBy::Name, sort_order: SortOrder::Ascending });
    assert!(config.selection.is_file_pattern_match("music.flac"));
    assert!(config.selection.is_file_pattern_match("track.json"));
    assert!(config.selection.is_dir_pattern_match("disc_1"));
    assert_eq!(
        names(&config),
        vec![(String::from("track.json"), Anchor::External), (String::from("album.json"), Anchor::Internal)],
    );
}

fn flac_only(exclude_sources: bool) -> ConfigRepr {
    let mut include_files = MatcherRepr::Empty;
    include_files.add_pattern("*.flac").unwrap();
    include_files.add_pattern("*.json").unwrap();
    ConfigRepr {
        selection_repr: SelectionRepr {
            include_files,
            exclude_files: MatcherRepr::Empty,
            include_dirs: MatcherRepr::Any,
            exclude_dirs: MatcherRepr::Empty,
            exclude_sources,
        },
        sorter_repr: Sorter { sort_by: SortBy::ModTime, sort_order: SortOrder::Descending },
        sources_repr: SourcesRepr { external: vec![String::from("item.json")], internal: vec![String::from("self.json")] },
    }
}

#[test]
fn excluding_sources_excludes_their_file_names() {
    let config = Config::try_from_repr(flac_only(true)).unwrap();
    assert!(config.selection.is_file_pattern_match("a/music.flac"));
    assert!(config.selection.is_file_pattern_match("a/other.json"));
    assert!(!config.selection.is_file_pattern_match("a/item.json"));
    assert!(!config.selection.is_file_pattern_match("a/self.json"));
    assert_eq!(config.sorter.sort_by, SortBy::ModTime);
    assert_eq!(
        names(&config),
        vec![(String::from("item.json"), Anchor::External), (String::from("self.json"), Anchor::Internal)],
    );

    let config = Config::try_from_repr(flac_only(false)).unwrap();
    assert!(config.selection.is_file_pattern_match("a/item.json"));
}

#[test]
fn an_invalid_source_name_fails_when_sources_are_excluded() {
    let mut repr = flac_only(true);
    repr.sources_repr.internal.push(String::from("[bad"));
    assert!(Config::try_from_repr(repr).is_err());

    let mut repr = flac_only(false);
    repr.sources_repr.internal.push(String::from("[bad"));
    assert!(Config::try_from_repr(repr).is_ok());
}

#[test]
fn matcher_repr_refuses_invalid_patterns() {
    let mut repr = MatcherRepr::Any;
    assert!(repr.add_pattern("[abc").is_err());
    assert!(repr.add_pattern("*.a").is_ok());
    assert!(matches!(repr, MatcherRepr::Any));
    let mut repr = MatcherRepr::Empty;
    assert!(repr.add_pattern("*.a").is_ok());
    assert!(matches!(repr, MatcherRepr::Custom(_)));
}

#[test]
fn default_sources_are_json_files() {
    let sources = SourcesRepr::default();
    assert_eq!(sources.external, vec![String::from("track.json")]);
    assert_eq!(sources.internal, vec![String::from("album.json")]);
}

#[test]
fn formats_have_names_and_extensions() {
    assert_eq!(Format::from_name("json"), Some(Format::Json));
    assert_eq!(Format::from_name("YML"), Some(Format::Yaml));
    assert_eq!(Format::from_name("toml"), None);
    assert_eq!(Format::Json.as_str(), "json");
    assert_eq!(MetaFormat::default(), MetaFormat::Yaml);
    assert_eq!(MetaFormat::Json.file_extension(), "json");
    assert_eq!(MetaFormat::Yaml.file_extension(), "yml");
}

#[test]
fn compositor_keeps_sources_in_order() {
    let mut compositor = Compositor::new();
    compositor.external(String::from("track.yml")).internal(String::from("album.yml"));
    assert_eq!(
        compositor.0,
        vec![
            Source::from_name(String::from("track.yml"), Anchor::External),
            Source::from_name(String::from("album.yml"), Anchor::Internal),
        ],
    );
    compositor.compose("some/item");
}

#[test]
fn ancestor_visitor_walks_up_to_the_root() {
    let mut visitor = AncestorItemVisitor::new("/a/b/c");
    assert_eq!(visitor.next(), Some(String::from("/a/b")));
    assert_eq!(visitor.next(), Some(String::from("/a")));
    assert_eq!(visitor.next(), Some(String::from("/")));
    assert_eq!(visitor.next(), None);
    assert_eq!(visitor.next(), None);
}

#[test]
fn children_visitor_delves_depth_first() {
    let listing = |names: &[&str]| -> Result<Vec<String>, String> { Ok(names.iter().map(|n| n.to_string()).collect()) };
    let mut visitor = ChildrenItemVisitor::new(listing(&["a", "b"]));
    assert_eq!(visitor.next(), Some(Ok(String::from("a"))));
    assert_eq!(visitor.take_last_processed(), Some(String::from("a")));
    visitor.delve(listing(&["a/x", "a/y"]));
    assert_eq!(visitor.take_last_processed(), None);
    assert_eq!(visitor.next(), Some(Ok(String::from("a/x"))));
    visitor.delve(Err(String::from("unreadable")));
    assert_eq!(visitor.next(), Some(Ok(String::from("a/y"))));
    assert_eq!(visitor.next(), Some(Ok(String::from("b"))));
    assert_eq!(visitor.next(), Some(Err(String::from("unreadable"))));
    assert_eq!(visitor.next(), None);

    let mut failed: ChildrenItemVisitor<String> = ChildrenItemVisitor::new(Err(String::from("no dir")));
    assert_eq!(failed.next(), Some(Err(String::from("no dir"))));
    assert_eq!(failed.take_last_processed(), None);
}

#[test]
fn collect_method_composes_an_empty_block() {
    let blocks = vec![vec![(String::from("k"), taggu::metadata::types::MetaVal::Int(1))]];
    let methods = vec![(String::from("k"), CollectMethod::Collect)];
    assert!(CollectMethod::process(blocks, &methods).is_empty());
}

#[test]
fn errors_describe_themselves() {
    assert_eq!(FunctionError::EmptyStack.message(), "empty operand stack");
    assert_eq!(FunctionError::ZeroStepSize.message(), "zero step size");
    let err = ItemError::from_kind(ItemErrorKind::NoPathParent(String::from("/")));
    assert_eq!(err.kind(), &ItemErrorKind::NoPathParent(String::from("/")));
}
