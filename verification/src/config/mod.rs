//! Configuration of a library: how metadata is combined, found, ordered
//! and selected.

pub mod agg_method;
pub mod fallback_method;
pub mod format;
pub mod meta_format;
pub mod selection;
pub mod serialize_format;
pub mod sort_order;
pub mod sorter;

use vstd::prelude::*;

use self::format::Format;
use self::selection::matcher::{Error as MatcherError, MatcherRepr, PatternError, repr_buildable, repr_patterns};
use self::selection::{Selection, SelectionRepr, repr_patterns_are};
use self::sorter::Sorter;
use crate::source::{Anchor, Source, Sourcer};

verus! {

/// The stub of the name of the metadata file of an item inside it.
pub const DEFAULT_INTERNAL_STUB: &'static str = "album";

/// The stub of the name of the metadata file of an item beside it.
pub const DEFAULT_EXTERNAL_STUB: &'static str = "track";

/// The names of the metadata files: those that describe an item from
/// beside it, and those that describe it from inside it.
#[derive(Debug, Clone, PartialEq, Eq)]
pub struct SourcesRepr {
    pub external: Vec<String>,
    pub internal: Vec<String>,
}

impl SourcesRepr {
    /// One file of each anchor, named by its stub with the extension of the
    /// default format, JSON: `track.json` and `album.json`.
    pub fn default() -> (r: Self)
        ensures
            r.external@.len() == 1,
            r.external@[0]@ == "track"@ + "."@ + "json"@,
            r.internal@.len() == 1,
            r.internal@[0]@ == "album"@ + "."@ + "json"@,
    {
        let default_fmt = Format::Json;
        let default_ext = default_fmt.as_str();
        let external_name = String::from_str(DEFAULT_EXTERNAL_STUB).concat(".").concat(default_ext);
        let internal_name = String::from_str(DEFAULT_INTERNAL_STUB).concat(".").concat(default_ext);
        let mut external = Vec::new();
        external.push(external_name);
        let mut internal = Vec::new();
        internal.push(internal_name);
        SourcesRepr { external, internal }
    }
}

/// The ways in which turning a configuration into a working one can fail.
#[derive(Debug)]
pub enum Error {
    Matcher(MatcherError),
}

/// A configuration as it is read: selection, ordering and sourcing.
pub struct ConfigRepr {
    pub selection_repr: SelectionRepr,
    pub sorter_repr: Sorter,
    pub sources_repr: SourcesRepr,
}

/// A working configuration.
pub struct Config {
    pub selection: Selection,
    pub sorter: Sorter,
    pub sourcer: Sourcer,
}

/// The sources that a sourcing configuration names: those beside the item
/// first, then those inside it, each in order.
pub open spec fn configured_sources(s: SourcesRepr) -> Seq<(Seq<char>, Anchor)> {
    Seq::new(s.external@.len(), |i: int| (s.external@[i]@, Anchor::External)) + Seq::new(
        s.internal@.len(),
        |i: int| (s.internal@[i]@, Anchor::Internal),
    )
}

/// The names of a list of sources.
pub open spec fn source_names(ss: Seq<(Seq<char>, Anchor)>) -> Seq<Seq<char>> {
    Seq::new(ss.len(), |i: int| ss[i].0)
}

/// The patterns of a matcher representation with more patterns added.
pub open spec fn repr_with(r: Option<Seq<Seq<char>>>, more: Seq<Seq<char>>) -> Option<Seq<Seq<char>>> {
    match r {
        None => None,
        Some(ps) => Some(ps + more),
    }
}

/// Whether the patterns of a built matcher are what its patterns, seen as
/// those of a representation, call for.
pub open spec fn patterns_as(r: Option<Seq<Seq<char>>>, ps: Seq<Seq<char>>) -> bool {
    match r {
        Some(qs) => ps == qs,
        None => ps == seq!["*"@],
    }
}

/// Whether the matcher of excluded files can be built once the names of
/// the sources are added to it, when they are to be excluded.
pub open spec fn exclusion_buildable(r: MatcherRepr, names: Seq<Seq<char>>, add: bool) -> bool {
    if add && names.len() > 0 {
        match repr_with(repr_patterns(r), names) {
            None => true,
            Some(ps) => selection::glob::globs_buildable(ps),
        }
    } else {
        repr_buildable(r)
    }
}

/// Whether a configuration as read turns into a working one: the names of
/// the sources, when they are to be excluded, must be valid patterns, and
/// every matcher must build.
pub open spec fn config_buildable(value: ConfigRepr) -> bool {
    let names = source_names(configured_sources(value.sources_repr));
    let s = value.selection_repr;
    &&& s.exclude_sources ==> forall|k: int| 0 <= k < names.len() ==> selection::glob::glob_valid(#[trigger] names[k])
    &&& repr_buildable(s.include_files)
    &&& repr_buildable(s.include_dirs)
    &&& repr_buildable(s.exclude_dirs)
    &&& exclusion_buildable(s.exclude_files, names, s.exclude_sources)
}

/// The sources of a sourcing configuration, in order.
fn sources_of(repr: SourcesRepr) -> (r: Vec<Source>)
    ensures
        Seq::new(r@.len(), |i: int| crate::source::source_pair(r@[i])) == configured_sources(repr),
{
    let ghost expected = configured_sources(repr);
    let mut sources: Vec<Source> = Vec::new();
    let mut externals = repr.external;
    let mut internals = repr.internal;
    let ghost ext0 = externals@;
    let ghost int0 = internals@;
    let ghost mut i: int = 0;
    while externals.len() > 0
        invariant
            0 <= i <= ext0.len(),
            externals@ == ext0.skip(i),
            sources@.len() == i,
            forall|k: int| 0 <= k < i ==> crate::source::source_pair(#[trigger] sources@[k]) == (ext0[k]@, Anchor::External),
        decreases externals.len(),
    {
        let name = externals.remove(0);
        proof {
            assert(externals@ =~= ext0.skip(i + 1));
        }
        sources.push(Source::from_name(name, Anchor::External));
        proof {
            i = i + 1;
        }
    }
    let ghost mut j: int = 0;
    while internals.len() > 0
        invariant
            i == ext0.len(),
            0 <= j <= int0.len(),
            internals@ == int0.skip(j),
            sources@.len() == i + j,
            forall|k: int| 0 <= k < i ==> crate::source::source_pair(#[trigger] sources@[k]) == (ext0[k]@, Anchor::External),
            forall|k: int| i <= k < i + j ==> crate::source::source_pair(#[trigger] sources@[k]) == (int0[k - i]@, Anchor::Internal),
        decreases internals.len(),
    {
        let name = internals.remove(0);
        proof {
            assert(internals@ =~= int0.skip(j + 1));
        }
        sources.push(Source::from_name(name, Anchor::Internal));
        proof {
            j = j + 1;
        }
    }
    proof {
        assert(Seq::new(sources@.len(), |k: int| crate::source::source_pair(sources@[k])) =~= expected);
    }
    sources
}

impl ConfigRepr {
    /// The default configuration as read: the default selection, sorter and
    /// sources.
    pub fn default() -> (r: Self)
        ensures
            r.selection_repr.include_files == MatcherRepr::Any,
            r.selection_repr.exclude_files == MatcherRepr::Empty,
            r.selection_repr.include_dirs == MatcherRepr::Any,
            r.selection_repr.exclude_dirs == MatcherRepr::Empty,
            !r.selection_repr.exclude_sources,
            r.sorter_repr == (Sorter { sort_by: sorter::sort_by::SortBy::Name, sort_order: sorter::SortOrder::Ascending }),
            r.sources_repr.external@.len() == 1,
            r.sources_repr.external@[0]@ == "track"@ + "."@ + "json"@,
            r.sources_repr.internal@.len() == 1,
            r.sources_repr.internal@[0]@ == "album"@ + "."@ + "json"@,
    {
        ConfigRepr {
            selection_repr: SelectionRepr::default(),
            sorter_repr: Sorter::default(),
            sources_repr: SourcesRepr::default(),
        }
    }
}

impl Config {
    /// The default configuration: that of the default representation, which
    /// always builds.
    pub fn default() -> (r: Self)
        ensures
            r.sorter == (Sorter { sort_by: sorter::sort_by::SortBy::Name, sort_order: sorter::SortOrder::Ascending }),
            r.selection.exclude_files() == Seq::<Seq<char>>::empty(),
            r.selection.exclude_dirs() == Seq::<Seq<char>>::empty(),
            r.selection.include_files() == seq!["*"@],
            r.selection.include_dirs() == seq!["*"@],
            r.sourcer.sources() == seq![
                ("track"@ + "."@ + "json"@, Anchor::External),
                ("album"@ + "."@ + "json"@, Anchor::Internal),
            ],
    {
        let repr = ConfigRepr::default();
        let ghost v = repr;
        match Config::try_from_repr(repr) {
            Ok(c) => {
                proof {
                    assert(configured_sources(v.sources_repr) =~= seq![
                        ("track"@ + "."@ + "json"@, Anchor::External),
                        ("album"@ + "."@ + "json"@, Anchor::Internal),
                    ]);
                }
                c
            },
            Err(_) => {
                proof {
                    assert(config_buildable(v));
                }
                vstd::pervasive::unreached()
            },
        }
    }

    /// Turns a configuration as read into a working one: the sources beside
    /// an item come first, then those inside it; when the metadata files
    /// are to be excluded, their names are added as patterns of excluded
    /// files; then the matchers are built.
    pub fn try_from_repr(value: ConfigRepr) -> (r: Result<Config, Error>)
        ensures
            r matches Ok(c) ==> {
                &&& c.sorter == value.sorter_repr
                &&& c.sourcer.sources() == configured_sources(value.sources_repr)
                &&& repr_patterns_are(value.selection_repr.include_files, c.selection.include_files())
                &&& repr_patterns_are(value.selection_repr.include_dirs, c.selection.include_dirs())
                &&& repr_patterns_are(value.selection_repr.exclude_dirs, c.selection.exclude_dirs())
                &&& patterns_as(
                    if value.selection_repr.exclude_sources {
                        repr_with(
                            repr_patterns(value.selection_repr.exclude_files),
                            source_names(configured_sources(value.sources_repr)),
                        )
                    } else {
                        repr_patterns(value.selection_repr.exclude_files)
                    },
                    c.selection.exclude_files(),
                )
            },
            r is Ok <==> config_buildable(value),
    {
        let ghost expected = configured_sources(value.sources_repr);
        let ConfigRepr { selection_repr, sorter_repr, sources_repr } = value;
        let sources = sources_of(sources_repr);
        let mut selection_repr = selection_repr;
        let ghost excl0 = repr_patterns(selection_repr.exclude_files);
        let ghost repr0 = selection_repr;
        if selection_repr.exclude_sources {
            let mut i: usize = 0;
            while i < sources.len()
                invariant
                    i <= sources@.len(),
                    selection_repr.include_files == repr0.include_files,
                    selection_repr.include_dirs == repr0.include_dirs,
                    selection_repr.exclude_dirs == repr0.exclude_dirs,
                    Seq::new(sources@.len(), |k: int| crate::source::source_pair(sources@[k])) == expected,
                    repr_patterns(selection_repr.exclude_files) == repr_with(excl0, source_names(expected).take(i as int)),
                    forall|k: int| 0 <= k < i ==> selection::glob::glob_valid(#[trigger] source_names(expected)[k]),
                    repr0 == value.selection_repr,
                    repr0.exclude_sources,
                    expected == configured_sources(value.sources_repr),
                    i == 0 ==> selection_repr.exclude_files == repr0.exclude_files,
                    i > 0 ==> !(selection_repr.exclude_files is Empty) && ((selection_repr.exclude_files is Any) == (
                    repr0.exclude_files is Any)),
                    source_names(expected).len() == sources@.len(),
                decreases sources.len() - i,
            {
                proof {
                    assert(source_names(expected)[i as int] == sources@[i as int].file_name@);
                }
                match selection_repr.exclude_files.add_pattern(sources[i].file_name.as_str()) {
                    Err(e) => {
                        proof {
                            assert(!selection::glob::glob_valid(source_names(expected)[i as int]));
                            assert(!config_buildable(value));
                        }
                        return Err(Error::Matcher(MatcherError::Pattern(PatternError(e))));
                    },
                    Ok(()) => {},
                }
                proof {
                    assert(source_names(expected).take(i + 1) =~= source_names(expected).take(i as int).push(source_names(expected)[i as int]));
                    match excl0 {
                        Some(ps) => {
                            assert(ps + source_names(expected).take(i + 1) =~= (ps + source_names(expected).take(i as int)).push(source_names(expected)[i as int]));
                        },
                        None => {},
                    }
                }
                i = i + 1;
            }
            proof {
                assert(source_names(expected).take(i as int) =~= source_names(expected));
            }
        }
        let selection = match selection_repr.try_into_selection() {
            Ok(s) => s,
            Err(e) => {
                return Err(Error::Matcher(e));
            },
        };
        proof {
            match excl0 {
                Some(ps) => {
                    assert(ps + Seq::<Seq<char>>::empty() =~= ps);
                },
                None => {},
            }
        }
        Ok(Config { selection, sorter: sorter_repr, sourcer: Sourcer(sources) })
    }
}

} // verus!
