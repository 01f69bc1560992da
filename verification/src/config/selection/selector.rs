//! Selection of item paths by one pair of matchers.

use vstd::prelude::*;

use crate::config::selection::matcher::{Error as MatcherError, Matcher, builds, patterns_view};
use crate::config::selection::pattern_selected;

verus! {

/// The ways in which building a selector can fail.
#[derive(Debug)]
pub enum Error {
    CannotBuildMatcher(MatcherError),
}

/// Selects the paths that an inclusion matcher takes and an exclusion matcher
/// does not.
pub struct Selector {
    inclusion: Matcher,
    exclusion: Matcher,
}

impl Selector {
    /// The patterns of the inclusion matcher.
    pub closed spec fn inclusion(&self) -> Seq<Seq<char>> {
        self.inclusion.patterns()
    }

    /// The patterns of the exclusion matcher.
    pub closed spec fn exclusion(&self) -> Seq<Seq<char>> {
        self.exclusion.patterns()
    }

    /// The default selector: it includes by the pattern `*` and excludes
    /// nothing.
    pub fn default() -> (r: Self)
        ensures
            r.exclusion() == Seq::<Seq<char>>::empty(),
            r.inclusion() == seq!["*"@],
    {
        Selector { inclusion: Matcher::any(), exclusion: Matcher::empty() }
    }

    /// A selector of its two matchers.
    pub fn new(inclusion: Matcher, exclusion: Matcher) -> (r: Self)
        ensures
            r.inclusion() == inclusion.patterns(),
            r.exclusion() == exclusion.patterns(),
    {
        Selector { inclusion, exclusion }
    }

    /// A selector built from two lists of patterns.
    pub fn from_patterns(inclusion_patterns: &[&str], exclusion_patterns: &[&str]) -> (r: Result<
        Self,
        Error,
    >)
        ensures
            r is Ok <==> builds(inclusion_patterns@) && builds(exclusion_patterns@),
            r matches Ok(s) ==> s.inclusion() == patterns_view(inclusion_patterns@) && s.exclusion()
                == patterns_view(exclusion_patterns@),
    {
        let inclusion = match Matcher::build(inclusion_patterns) {
            Ok(m) => m,
            Err(e) => {
                return Err(Error::CannotBuildMatcher(e));
            },
        };
        let exclusion = match Matcher::build(exclusion_patterns) {
            Ok(m) => m,
            Err(e) => {
                return Err(Error::CannotBuildMatcher(e));
            },
        };
        Ok(Self::new(inclusion, exclusion))
    }

    /// Returns true if the path is a pattern match: it must match the
    /// inclusion filter, and must NOT match the exclusion filter. This uses only
    /// the lexical content of the path.
    pub fn is_pattern_match(&self, path: &str) -> (r: bool)
        ensures
            r == pattern_selected(self.inclusion(), self.exclusion(), path@),
    {
        self.inclusion.is_match(path) && !self.exclusion.is_match(path)
    }
}

} // verus!
