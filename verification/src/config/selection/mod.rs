//! Selection of the files and directories of a library.

pub mod glob;
pub mod matcher;
pub mod selector;

use vstd::prelude::*;

use crate::config::sorter::Sorter;
use crate::config::sorter::sort_by::ItemPath;
use crate::config::sorter::{results_by_sorter, sorted_by};
use self::matcher::{Error as MatcherError, Matcher, MatcherRepr, path_matches};

verus! {

/// What an item path is on disk.
#[derive(Clone, Copy, Debug, PartialEq, Eq, Structural)]
pub enum PathKind {
    File,
    Dir,
    Other,
}

/// Whether a path is taken by an inclusion matcher and not by an exclusion one.
pub open spec fn pattern_selected(inc: Seq<Seq<char>>, exc: Seq<Seq<char>>, path: Seq<char>) -> bool {
    path_matches(inc, path) && !path_matches(exc, path)
}

/// A type that represents included and excluded item files and directories.
pub struct Selection {
    include_files: Matcher,
    exclude_files: Matcher,
    include_dirs: Matcher,
    exclude_dirs: Matcher,
}

impl Selection {
    /// The patterns of the included files.
    pub closed spec fn include_files(&self) -> Seq<Seq<char>> {
        self.include_files.patterns()
    }

    /// The patterns of the excluded files.
    pub closed spec fn exclude_files(&self) -> Seq<Seq<char>> {
        self.exclude_files.patterns()
    }

    /// The patterns of the included directories.
    pub closed spec fn include_dirs(&self) -> Seq<Seq<char>> {
        self.include_dirs.patterns()
    }

    /// The patterns of the excluded directories.
    pub closed spec fn exclude_dirs(&self) -> Seq<Seq<char>> {
        self.exclude_dirs.patterns()
    }

    /// Whether a path of a kind is selected: a file by the file matchers, a
    /// directory by the directory matchers, anything else never.
    pub open spec fn selects(&self, path: Seq<char>, kind: PathKind) -> bool {
        match kind {
            PathKind::File => pattern_selected(self.include_files(), self.exclude_files(), path),
            PathKind::Dir => pattern_selected(self.include_dirs(), self.exclude_dirs(), path),
            PathKind::Other => false,
        }
    }

    /// A selection of its four matchers.
    pub fn new(
        include_files: Matcher,
        exclude_files: Matcher,
        include_dirs: Matcher,
        exclude_dirs: Matcher,
    ) -> (r: Self)
        ensures
            r.include_files() == include_files.patterns(),
            r.exclude_files() == exclude_files.patterns(),
            r.include_dirs() == include_dirs.patterns(),
            r.exclude_dirs() == exclude_dirs.patterns(),
    {
        Selection { include_files, exclude_files, include_dirs, exclude_dirs }
    }

    /// The default selection: every file and directory that has a name.
    pub fn default() -> (r: Self)
        ensures
            r.exclude_files() == Seq::<Seq<char>>::empty(),
            r.exclude_dirs() == Seq::<Seq<char>>::empty(),
            r.include_files() == seq!["*"@],
            r.include_dirs() == seq!["*"@],
    {
        Self::new(Matcher::any(), Matcher::empty(), Matcher::any(), Matcher::empty())
    }

    /// A selection built from four lists of patterns; the first list that
    /// cannot be built gives its error.
    pub fn from_patterns(
        include_file_patterns: &[&str],
        exclude_file_patterns: &[&str],
        include_dir_patterns: &[&str],
        exclude_dir_patterns: &[&str],
    ) -> (r: Result<Self, MatcherError>)
        ensures
            r matches Ok(s) ==> s.include_files() == matcher::patterns_view(include_file_patterns@)
                && s.exclude_files() == matcher::patterns_view(exclude_file_patterns@)
                && s.include_dirs() == matcher::patterns_view(include_dir_patterns@)
                && s.exclude_dirs() == matcher::patterns_view(exclude_dir_patterns@),
            r is Ok <==> matcher::builds(include_file_patterns@) && matcher::builds(
                exclude_file_patterns@,
            ) && matcher::builds(include_dir_patterns@) && matcher::builds(exclude_dir_patterns@),
    {
        let include_files = Matcher::build(include_file_patterns)?;
        let exclude_files = Matcher::build(exclude_file_patterns)?;
        let include_dirs = Matcher::build(include_dir_patterns)?;
        let exclude_dirs = Matcher::build(exclude_dir_patterns)?;
        Ok(Self::new(include_files, exclude_files, include_dirs, exclude_dirs))
    }

    /// Returns true if the path matches according to the file matcher: it
    /// must match the inclusion filter, and must NOT match the exclude filter.
    /// This uses only the lexical content of the path.
    pub fn is_file_pattern_match(&self, path: &str) -> (r: bool)
        ensures
            r == pattern_selected(self.include_files(), self.exclude_files(), path@),
    {
        self.include_files.is_match(path) && !self.exclude_files.is_match(path)
    }

    /// Returns true if the path matches according to the directory matcher:
    /// it must match the inclusion filter, and must NOT match the exclude
    /// filter. This uses only the lexical content of the path.
    pub fn is_dir_pattern_match(&self, path: &str) -> (r: bool)
        ensures
            r == pattern_selected(self.include_dirs(), self.exclude_dirs(), path@),
    {
        self.include_dirs.is_match(path) && !self.exclude_dirs.is_match(path)
    }

    /// Whether a path is selected, given what reading its metadata gave:
    /// a file by the file matchers, a directory by the directory matchers,
    /// anything else never; where the read failed, its error.
    pub fn is_selected<E>(&self, path: &str, kind: Result<PathKind, E>) -> (r: Result<bool, E>)
        ensures
            match kind {
                Ok(k) => r == Ok::<bool, E>(self.selects(path@, k)),
                Err(e) => r == Err::<bool, E>(e),
            },
    {
        match kind {
            Ok(PathKind::File) => Ok(self.is_file_pattern_match(path)),
            Ok(PathKind::Dir) => Ok(self.is_dir_pattern_match(path)),
            Ok(PathKind::Other) => Ok(false),
            Err(e) => Err(e),
        }
    }

    /// The selected ones of the entries of a directory, in their order,
    /// each entry with what reading its metadata gave: an entry that could
    /// not be read, or whose metadata could not be read, stays as its error.
    pub fn select_in_dir<E>(&self, entries: Vec<Result<(ItemPath, Result<PathKind, E>), E>>) -> (r: Vec<
        Result<ItemPath, E>,
    >)
        ensures
            r@ == selected_entries(*self, entries@),
    {
        let ghost es = entries@;
        let mut rest = entries;
        let mut out: Vec<Result<ItemPath, E>> = Vec::new();
        let ghost mut i: int = 0;
        proof {
            assert(es.skip(0) =~= es);
            assert(es.take(0) =~= Seq::<Result<(ItemPath, Result<PathKind, E>), E>>::empty());
        }
        while rest.len() > 0
            invariant
                es == entries@,
                0 <= i <= es.len(),
                rest@ == es.skip(i),
                out@ == selected_entries(*self, es.take(i)),
            decreases rest.len(),
        {
            let ghost before = rest@;
            let entry = rest.remove(0);
            proof {
                assert(rest@ =~= es.skip(i + 1));
                assert(before[0] == es[i]);
                assert(es.take(i + 1).drop_last() =~= es.take(i));
                assert(es.take(i + 1).last() == es[i]);
            }
            match entry {
                Err(e) => {
                    out.push(Err(e));
                },
                Ok((p, kind)) => {
                    match self.is_selected(p.path.as_str(), kind) {
                        Ok(true) => out.push(Ok(p)),
                        Ok(false) => {},
                        Err(e) => out.push(Err(e)),
                    }
                },
            }
            proof {
                i = i + 1;
            }
        }
        proof {
            assert(es.take(i) =~= es);
        }
        out
    }

    /// The selected entries of a directory sorted by a sorter, errors first.
    pub fn select_in_dir_sorted<E>(
        &self,
        entries: Vec<Result<(ItemPath, Result<PathKind, E>), E>>,
        sorter: &Sorter,
    ) -> (r: Vec<Result<ItemPath, E>>)
        ensures
            r@ == sorted_by(results_by_sorter::<E>(*sorter), selected_entries(*self, entries@)),
    {
        let mut sel_item_paths = self.select_in_dir(entries);
        sorter.sort_path_results(&mut sel_item_paths);
        sel_item_paths
    }
}

/// The selected entries of a directory, in their order, with the errors.
pub open spec fn selected_entries<E>(s: Selection, es: Seq<Result<(ItemPath, Result<PathKind, E>), E>>) -> Seq<
    Result<ItemPath, E>,
>
    decreases es.len(),
{
    if es.len() == 0 {
        Seq::empty()
    } else {
        let rest = selected_entries(s, es.drop_last());
        match es.last() {
            Err(e) => rest.push(Err(e)),
            Ok((p, Err(e))) => rest.push(Err(e)),
            Ok((p, Ok(kind))) => if s.selects(p.path@, kind) {
                rest.push(Ok(p))
            } else {
                rest
            },
        }
    }
}

/// A selection as it is read from a configuration: the matcher
/// representations, and whether the metadata files themselves are
/// excluded.
pub struct SelectionRepr {
    pub include_files: MatcherRepr,
    pub exclude_files: MatcherRepr,
    pub include_dirs: MatcherRepr,
    pub exclude_dirs: MatcherRepr,
    pub exclude_sources: bool,
}

impl SelectionRepr {
    /// The representation of the default selection: every file and
    /// directory, none excluded, and the metadata files not excluded either.
    pub fn default() -> (r: Self)
        ensures
            r.include_files == MatcherRepr::Any,
            r.exclude_files == MatcherRepr::Empty,
            r.include_dirs == MatcherRepr::Any,
            r.exclude_dirs == MatcherRepr::Empty,
            !r.exclude_sources,
    {
        SelectionRepr {
            include_files: MatcherRepr::Any,
            exclude_files: MatcherRepr::Empty,
            include_dirs: MatcherRepr::Any,
            exclude_dirs: MatcherRepr::Empty,
            exclude_sources: false,
        }
    }

    /// The selection of a representation; the first matcher that cannot be
    /// built gives its error.
    pub fn try_into_selection(self) -> (r: Result<Selection, MatcherError>)
        ensures
            r is Ok <==> matcher::repr_buildable(self.include_files) && matcher::repr_buildable(
                self.exclude_files,
            ) && matcher::repr_buildable(self.include_dirs) && matcher::repr_buildable(self.exclude_dirs),
            r matches Ok(s) ==> (repr_patterns_are(self.include_files, s.include_files())
                && repr_patterns_are(self.exclude_files, s.exclude_files()) && repr_patterns_are(
                self.include_dirs,
                s.include_dirs(),
            ) && repr_patterns_are(self.exclude_dirs, s.exclude_dirs())),
    {
        let include_files = match Matcher::try_from_repr(self.include_files) {
            Ok(m) => m,
            Err(e) => {
                return Err(MatcherError::Build(e));
            },
        };
        let exclude_files = match Matcher::try_from_repr(self.exclude_files) {
            Ok(m) => m,
            Err(e) => {
                return Err(MatcherError::Build(e));
            },
        };
        let include_dirs = match Matcher::try_from_repr(self.include_dirs) {
            Ok(m) => m,
            Err(e) => {
                return Err(MatcherError::Build(e));
            },
        };
        let exclude_dirs = match Matcher::try_from_repr(self.exclude_dirs) {
            Ok(m) => m,
            Err(e) => {
                return Err(MatcherError::Build(e));
            },
        };
        Ok(Selection::new(include_files, exclude_files, include_dirs, exclude_dirs))
    }
}

/// Whether a matcher built from a representation has the patterns it
/// should: those of the representation, or `*` for one that takes every
/// path.
pub open spec fn repr_patterns_are(r: MatcherRepr, ps: Seq<Seq<char>>) -> bool {
    match matcher::repr_patterns(r) {
        Some(qs) => ps == qs,
        None => ps == seq!["*"@],
    }
}

} // verus!
