//! A selection of item paths by glob patterns, and the errors of building
//! one.

pub mod filter;
pub mod matcher;

use vstd::prelude::*;

use globset::GlobSet;

use crate::config::selection::glob::{
    add_pattern_to,
    build_set,
    empty_set,
    glob_valid,
    globs_buildable,
    builder_patterns,
    new_builder,
    set_matches,
    set_patterns,
};
use crate::config::selection::matcher::{all_valid, any_matches, patterns_view};

verus! {

/// The ways in which building a selection can fail.
#[derive(Clone, Copy, Debug, PartialEq, Eq, Structural)]
pub enum ErrorKind {
    InvalidPattern,
    CannotBuildSelector,
}

impl ErrorKind {
    /// The message that describes the error.
    pub fn message(&self) -> (r: &'static str)
        ensures
            *self == ErrorKind::InvalidPattern ==> r@ == "invalid pattern"@,
            *self == ErrorKind::CannotBuildSelector ==> r@ == "cannot build selector"@,
    {
        match self {
            ErrorKind::InvalidPattern => "invalid pattern",
            ErrorKind::CannotBuildSelector => "cannot build selector",
        }
    }
}

/// An error of building a selection, of some kind.
#[derive(Debug)]
pub struct Error {
    pub kind: ErrorKind,
}

impl Error {
    /// The error of a kind.
    pub fn from_kind(kind: ErrorKind) -> (r: Self)
        ensures
            r.kind == kind,
    {
        Error { kind }
    }

    /// The kind of this error.
    pub fn kind(&self) -> (r: &ErrorKind)
        ensures
            *r == self.kind,
    {
        &self.kind
    }
}

/// A filter for file paths, used to determine if a path is to be
/// considered a metadata-containing item: it matches the whole path.
pub struct Selection {
    set: GlobSet,
}

impl Selection {
    /// The patterns of this selection.
    pub closed spec fn patterns(&self) -> Seq<Seq<char>> {
        set_patterns(self.set)
    }

    /// The selection of some patterns: a refused pattern gives
    /// `InvalidPattern`, patterns that cannot be built together
    /// `CannotBuildSelector`.
    pub fn from_patterns(pattern_strs: &[&str]) -> (r: Result<Self, Error>)
        ensures
            r is Ok <==> all_valid(patterns_view(pattern_strs@)) && globs_buildable(patterns_view(pattern_strs@)),
            patterns_view(pattern_strs@) == seq!["*"@] ==> r is Ok,
            r matches Ok(s) ==> s.patterns() == patterns_view(pattern_strs@),
            r matches Err(e) ==> (e.kind == ErrorKind::InvalidPattern <==> !all_valid(
                patterns_view(pattern_strs@),
            )),
    {
        let ghost ps = patterns_view(pattern_strs@);
        let mut builder = new_builder();
        let mut i: usize = 0;
        while i < pattern_strs.len()
            invariant
                i <= pattern_strs@.len(),
                ps == patterns_view(pattern_strs@),
                builder_patterns(builder) == ps.take(i as int),
                forall|j: int| 0 <= j < i ==> glob_valid(#[trigger] ps[j]),
            decreases pattern_strs.len() - i,
        {
            match add_pattern_to(&mut builder, pattern_strs[i]) {
                Err(_) => {
                    proof {
                        assert(!glob_valid(ps[i as int]));
                        if ps == seq!["*"@] {
                            assert(ps.len() == 1);
                            assert(i == 0);
                            assert(seq!["*"@][0] == "*"@);
                            assert(ps[0] == "*"@);
                            assert(ps[i as int] == pattern_strs@[i as int]@);
                        }
                    }
                    return Err(Error::from_kind(ErrorKind::InvalidPattern));
                },
                Ok(()) => {},
            }
            proof {
                assert(ps.take(i + 1) =~= ps.take(i as int).push(ps[i as int]));
            }
            i = i + 1;
        }
        proof {
            assert(ps.take(i as int) =~= ps);
        }
        match build_set(&builder) {
            Ok(set) => Ok(Selection { set }),
            Err(_) => Err(Error::from_kind(ErrorKind::CannotBuildSelector)),
        }
    }

    /// Whether some pattern matches the whole path.
    pub fn is_match(&self, path: &str) -> (r: bool)
        ensures
            r == any_matches(self.patterns(), path@),
            self.patterns().contains("*"@) && !path@.contains('\n') ==> r,
    {
        set_matches(&self.set, path)
    }

    /// The selection of the one pattern `*`; `is_match` states that it
    /// matches every path without a line break.
    pub fn any() -> (r: Self)
        ensures
            r.patterns() == seq!["*"@],
    {
        let stars: [&str; 1] = ["*"];
        let r = Selection::from_patterns(&stars);
        proof {
            assert(patterns_view(stars@) =~= seq!["*"@]);
            assert(all_valid(seq!["*"@]) <==> glob_valid("*"@)) by {
                assert(seq!["*"@][0] == "*"@);
            }
        }
        match r {
            Ok(s) => s,
            Err(_) => Selection::empty(),
        }
    }

    /// The selection that matches no path.
    pub fn empty() -> (r: Self)
        ensures
            r.patterns() == Seq::<Seq<char>>::empty(),
    {
        Selection { set: empty_set() }
    }

    /// The default selection: `any`.
    pub fn default() -> (r: Self)
        ensures
            r.patterns() == seq!["*"@],
    {
        Selection::any()
    }
}

} // verus!
