//! Matching file names against glob patterns.

use vstd::prelude::*;

use globset::{GlobSet, GlobSetBuilder};
use globset::Error as GlobError;

use crate::config::selection::glob::{
    add_pattern_to,
    check_glob,
    build_set,
    builder_patterns,
    empty_set,
    glob_matches,
    glob_valid,
    globs_buildable,
    new_builder,
    set_matches,
    set_patterns,
};

use crate::config::sorter::sort_by::path_file_name;
use crate::config::sorter::sort_by::file_name_of;

verus! {

/// A pattern that `globset` refused.
#[derive(Debug)]
pub struct PatternError(pub GlobError);

/// Patterns that `globset` could not build into a set.
#[derive(Debug)]
pub struct BuildError(pub GlobError);

/// The ways in which building a matcher can fail.
#[derive(Debug)]
pub enum Error {
    Pattern(PatternError),
    Build(BuildError),
}

/// The characters of each pattern.
pub open spec fn patterns_view(ps: Seq<&str>) -> Seq<Seq<char>> {
    Seq::new(ps.len(), |i: int| ps[i]@)
}

/// Whether every pattern is accepted.
pub open spec fn all_valid(ps: Seq<Seq<char>>) -> bool {
    forall|i: int| 0 <= i < ps.len() ==> glob_valid(#[trigger] ps[i])
}

/// Whether a list of patterns builds into a matcher.
pub open spec fn builds(ps: Seq<&str>) -> bool {
    all_valid(patterns_view(ps)) && globs_buildable(patterns_view(ps))
}

/// Whether some pattern of a list matches a file name.
pub open spec fn any_matches(ps: Seq<Seq<char>>, name: Seq<char>) -> bool {
    exists|i: int| 0 <= i < ps.len() && #[trigger] glob_matches(ps[i], name)
}

/// What a matcher with patterns `ps` answers for a path: whether some
/// pattern matches its file name; `false` for a path without one.
pub open spec fn path_matches(ps: Seq<Seq<char>>, path: Seq<char>) -> bool {
    match path_file_name(path) {
        None => false,
        Some(name) => any_matches(ps, name),
    }
}

/// A matcher without patterns matches no path.
pub proof fn lemma_empty_matches_nothing(path: Seq<char>)
    ensures
        !path_matches(Seq::<Seq<char>>::empty(), path),
{
}

/// A matcher with one more pattern matches the paths that it matched
/// before, and those whose file name the pattern matches.
pub proof fn lemma_matches_with_pattern(ps: Seq<Seq<char>>, p: Seq<char>, path: Seq<char>)
    ensures
        path_matches(ps.push(p), path) == (path_matches(ps, path) || match path_file_name(path) {
            None => false,
            Some(name) => glob_matches(p, name),
        }),
{
    if let Some(name) = path_file_name(path) {
        let qs = ps.push(p);
        if any_matches(qs, name) {
            let i = choose|i: int| 0 <= i < qs.len() && #[trigger] glob_matches(qs[i], name);
            if i < ps.len() {
                assert(qs[i] == ps[i]);
            }
        }
        if any_matches(ps, name) {
            let i = choose|i: int| 0 <= i < ps.len() && #[trigger] glob_matches(ps[i], name);
            assert(qs[i] == ps[i]);
        }
        if glob_matches(p, name) {
            assert(qs[ps.len() as int] == p);
        }
    }
}

/// Gathers patterns, each checked as it is added, to build a matcher.
pub struct MatcherBuilder {
    builder: GlobSetBuilder,
}

impl MatcherBuilder {
    /// The patterns added, in order.
    pub closed spec fn patterns(&self) -> Seq<Seq<char>> {
        builder_patterns(self.builder)
    }

    /// A builder without patterns.
    pub fn new() -> (r: Self)
        ensures
            r.patterns() == Seq::<Seq<char>>::empty(),
    {
        MatcherBuilder { builder: new_builder() }
    }

    /// Adds a pattern; a pattern that `globset` refuses gives a pattern
    /// error and is not added.
    pub fn add_pattern(&mut self, pattern: &str) -> (r: Result<(), PatternError>)
        ensures
            r is Ok <==> glob_valid(pattern@),
            pattern@ == "*"@ ==> r is Ok,
            r is Ok ==> final(self).patterns() == old(self).patterns().push(pattern@),
            r is Err ==> final(self).patterns() == old(self).patterns(),
    {
        match add_pattern_to(&mut self.builder, pattern) {
            Ok(()) => Ok(()),
            Err(e) => Err(PatternError(e)),
        }
    }

    /// Builds the matcher of the patterns added; patterns that cannot be
    /// built together give a build error.
    pub fn build(self) -> (r: Result<Matcher, BuildError>)
        ensures
            r is Ok <==> globs_buildable(self.patterns()),
            self.patterns() == seq!["*"@] ==> r is Ok,
            r matches Ok(m) ==> m.patterns() == self.patterns(),
    {
        match build_set(&self.builder) {
            Ok(set) => Ok(Matcher { set }),
            Err(e) => Err(BuildError(e)),
        }
    }
}

/// Filter for file paths that uses zero or more glob patterns to perform matching.
pub struct Matcher {
    set: GlobSet,
}

impl Matcher {
    /// The patterns of this matcher.
    pub closed spec fn patterns(&self) -> Seq<Seq<char>> {
        set_patterns(self.set)
    }

    /// Builds a matcher out of patterns: a refused pattern gives a pattern
    /// error, patterns that cannot be built together a build error.
    pub fn build(pattern_strs: &[&str]) -> (r: Result<Self, Error>)
        ensures
            r matches Ok(m) <==> all_valid(patterns_view(pattern_strs@)) && globs_buildable(
                patterns_view(pattern_strs@),
            ),
            r matches Ok(m) ==> m.patterns() == patterns_view(pattern_strs@),
            r matches Err(Error::Pattern(_)) <==> !all_valid(patterns_view(pattern_strs@)),
            patterns_view(pattern_strs@) == seq!["*"@] ==> r is Ok,
    {
        let ghost ps = patterns_view(pattern_strs@);
        let mut builder = MatcherBuilder::new();
        let mut i: usize = 0;
        while i < pattern_strs.len()
            invariant
                i <= pattern_strs@.len(),
                ps == patterns_view(pattern_strs@),
                builder.patterns() == ps.take(i as int),
                forall|j: int| 0 <= j < i ==> glob_valid(#[trigger] ps[j]),
            decreases pattern_strs.len() - i,
        {
            match builder.add_pattern(pattern_strs[i]) {
                Err(e) => {
                    proof {
                        assert(!glob_valid(ps[i as int]));
                        if ps == seq!["*"@] {
                            assert(ps.len() == 1);
                            assert(i == 0);
                            assert(seq!["*"@][0] == "*"@);
                            assert(ps[0] == "*"@);
                            assert(ps[i as int] == pattern_strs@[i as int]@);
                        }
                    }
                    return Err(Error::Pattern(e));
                },
                Ok(()) => {},
            }
            proof {
                assert(ps.take(i + 1) =~= ps.take(i as int).push(ps[i as int]));
            }
            i = i + 1;
        }
        proof {
            assert(ps.take(i as int) =~= ps);
        }
        match builder.build() {
            Ok(m) => Ok(m),
            Err(e) => Err(Error::Build(e)),
        }
    }

    /// Matches a path based on its file name. If the path does not have a file
    /// name (e.g. '/' on Unix systems), returns `false`.
    pub fn is_match(&self, path: &str) -> (r: bool)
        ensures
            r == path_matches(self.patterns(), path@),
            path_file_name(path@) matches Some(name) ==> (self.patterns().contains("*"@) && !name.contains('\n')
                ==> r),
    {
        match file_name_of(path) {
            None => false,
            Some(name) => set_matches(&self.set, name.as_str()),
        }
    }

    /// A matcher with the one pattern `*`; `is_match` states that it
    /// matches every path whose file name has no line break.
    pub fn any() -> (r: Self)
        ensures
            r.patterns() == seq!["*"@],
    {
        let stars: [&str; 1] = ["*"];
        let r = Matcher::build(&stars);
        proof {
            assert(patterns_view(stars@) =~= seq!["*"@]);
            assert(all_valid(seq!["*"@]) <==> glob_valid("*"@)) by {
                assert(seq!["*"@][0] == "*"@);
            }
        }
        match r {
            Ok(m) => m,
            Err(_) => Matcher::empty(),
        }
    }

    /// Returns a matcher that matches no paths.
    pub fn empty() -> (r: Self)
        ensures
            r.patterns() == Seq::<Seq<char>>::empty(),
    {
        Matcher { set: empty_set() }
    }
}

/// The patterns of a matcher as it is read from a configuration, before it
/// is built: the pattern `*`, no pattern, or the patterns added to a
/// builder.
pub enum MatcherRepr {
    Any,
    Empty,
    Custom(MatcherBuilder),
}

/// Whether the matcher of a representation can be built: that of `*` and
/// that of no pattern always can, a builder's patterns when
/// `globset` builds them together.
pub open spec fn repr_buildable(r: MatcherRepr) -> bool {
    match r {
        MatcherRepr::Any => true,
        MatcherRepr::Empty => true,
        MatcherRepr::Custom(b) => globs_buildable(b.patterns()),
    }
}

/// The patterns of a matcher representation: `None` for the one of the
/// pattern `*`.
pub open spec fn repr_patterns(r: MatcherRepr) -> Option<Seq<Seq<char>>> {
    match r {
        MatcherRepr::Any => None,
        MatcherRepr::Empty => Some(Seq::empty()),
        MatcherRepr::Custom(b) => Some(b.patterns()),
    }
}

impl MatcherRepr {
    /// Adds a pattern, which is always checked first: a representation that
    /// stands for `*` stays so, any other gains the pattern.
    pub fn add_pattern(&mut self, pattern: &str) -> (r: Result<(), GlobError>)
        ensures
            r is Ok <==> glob_valid(pattern@),
            r is Ok ==> repr_patterns(*final(self)) == match repr_patterns(*old(self)) {
                None => None,
                Some(ps) => Some(ps.push(pattern@)),
            },
            r is Err ==> repr_patterns(*final(self)) == repr_patterns(*old(self)),
            r is Ok ==> ((*final(self) is Any) == (*old(self) is Any)) && !(*final(self) is Empty),
            r is Err ==> *final(self) == *old(self),
    {
        check_glob(pattern)?;
        match self {
            MatcherRepr::Any => {},
            MatcherRepr::Empty => {
                let mut builder = MatcherBuilder::new();
                let added = builder.add_pattern(pattern);
                *self = MatcherRepr::Custom(builder);
            },
            MatcherRepr::Custom(builder) => {
                let added = builder.add_pattern(pattern);
            },
        }
        Ok(())
    }
}

impl Matcher {
    /// Builds the matcher of a representation: the pattern `*`, no
    /// pattern for none, or the builder's patterns, which may fail to build
    /// together.
    pub fn try_from_repr(value: MatcherRepr) -> (r: Result<Matcher, BuildError>)
        ensures
            value matches MatcherRepr::Any ==> (r matches Ok(m) && m.patterns() == seq!["*"@]),
            value matches MatcherRepr::Empty ==> (r matches Ok(m) && m.patterns() == Seq::<
                Seq<char>,
            >::empty()),
            value matches MatcherRepr::Custom(b) ==> (r is Ok <==> globs_buildable(b.patterns())),
            value matches MatcherRepr::Custom(b) ==> (r matches Ok(m) ==> m.patterns() == b.patterns()),
    {
        match value {
            MatcherRepr::Any => Ok(Matcher::any()),
            MatcherRepr::Empty => Ok(Matcher::empty()),
            MatcherRepr::Custom(builder) => builder.build(),
        }
    }
}

} // verus!
