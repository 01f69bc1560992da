//! A selection of item paths by patterns that include them and patterns
//! that exclude them.

use vstd::prelude::*;

use crate::config::selection::matcher::any_matches;
use crate::library::PathInfo;
use crate::library::selection::matcher::{Error, Matcher};

verus! {

/// Whether a path is matched by the patterns that include and by none of
/// those that exclude.
pub open spec fn filter_takes(inclusion: Seq<Seq<char>>, exclusion: Seq<Seq<char>>, path: Seq<char>) -> bool {
    any_matches(inclusion, path) && !any_matches(exclusion, path)
}

/// Whether a selection takes a path on disk: every directory, and the
/// files that its patterns take.
pub open spec fn filter_selects(inclusion: Seq<Seq<char>>, exclusion: Seq<Seq<char>>, p: PathInfo) -> bool {
    p.is_dir || (p.is_file && filter_takes(inclusion, exclusion, p.path@))
}

/// The paths of a list that a selection takes, in their order.
pub open spec fn filtered_paths(inclusion: Seq<Seq<char>>, exclusion: Seq<Seq<char>>, ps: Seq<PathInfo>) -> Seq<
    PathInfo,
>
    decreases ps.len(),
{
    if ps.len() == 0 {
        Seq::empty()
    } else if filter_selects(inclusion, exclusion, ps.last()) {
        filtered_paths(inclusion, exclusion, ps.drop_last()).push(ps.last())
    } else {
        filtered_paths(inclusion, exclusion, ps.drop_last())
    }
}

/// A selection of paths: those that the inclusion matcher matches and the
/// exclusion matcher does not.
pub struct Selection {
    inclusion: Matcher,
    exclusion: Matcher,
}

impl Selection {
    /// The patterns that include paths.
    pub closed spec fn inclusion(&self) -> Seq<Seq<char>> {
        self.inclusion.patterns()
    }

    /// The patterns that exclude paths.
    pub closed spec fn exclusion(&self) -> Seq<Seq<char>> {
        self.exclusion.patterns()
    }

    /// The selection of two lists of patterns; the first that cannot be
    /// built gives its error.
    pub fn from_patterns(inclusion_pattern_strs: &[&str], exclusion_pattern_strs: &[&str]) -> (r: Result<
        Self,
        Error,
    >)
        ensures
            r is Ok <==> crate::config::selection::matcher::builds(inclusion_pattern_strs@)
                && crate::config::selection::matcher::builds(exclusion_pattern_strs@),
            r matches Ok(s) ==> s.inclusion() == crate::config::selection::matcher::patterns_view(
                inclusion_pattern_strs@,
            ) && s.exclusion() == crate::config::selection::matcher::patterns_view(exclusion_pattern_strs@),
    {
        let inclusion = Matcher::from_patterns(inclusion_pattern_strs)?;
        let exclusion = Matcher::from_patterns(exclusion_pattern_strs)?;
        Ok(Self::from_matchers(inclusion, exclusion))
    }

    /// The selection of two matchers.
    pub fn from_matchers(inclusion: Matcher, exclusion: Matcher) -> (r: Self)
        ensures
            r.inclusion() == inclusion.patterns(),
            r.exclusion() == exclusion.patterns(),
    {
        Selection { inclusion, exclusion }
    }

    /// Whether the path is matched by the inclusion patterns and not by
    /// the exclusion ones. This uses only the lexical content of the path.
    pub fn is_pattern_match(&self, path: &str) -> (r: bool)
        ensures
            r == filter_takes(self.inclusion(), self.exclusion(), path@),
    {
        self.inclusion.is_match(path) && !self.exclusion.is_match(path)
    }

    /// Whether a path on disk is selected: directories always are, files
    /// when they meet the patterns.
    pub fn is_selected(&self, path: &PathInfo) -> (r: bool)
        ensures
            r == filter_selects(self.inclusion(), self.exclusion(), *path),
    {
        path.is_dir || (path.is_file && self.is_pattern_match(path.path.as_str()))
    }

    /// The paths that are selected, in their order.
    pub fn select(&self, item_paths: Vec<PathInfo>) -> (r: Vec<PathInfo>)
        ensures
            r@ == filtered_paths(self.inclusion(), self.exclusion(), item_paths@),
    {
        let ghost ps = item_paths@;
        let mut out: Vec<PathInfo> = Vec::new();
        let mut rest = item_paths;
        let ghost mut i: int = 0;
        proof {
            assert(ps.skip(0) =~= ps);
            assert(ps.take(0) =~= Seq::<PathInfo>::empty());
        }
        while rest.len() > 0
            invariant
                0 <= i <= ps.len(),
                rest@ == ps.skip(i),
                out@ == filtered_paths(self.inclusion(), self.exclusion(), ps.take(i)),
            decreases rest.len(),
        {
            let p = rest.remove(0);
            proof {
                assert(ps.skip(i)[0] == ps[i]);
                assert(ps.take(i + 1).drop_last() =~= ps.take(i));
                assert(ps.take(i + 1).last() == ps[i]);
                assert(rest@ =~= ps.skip(i + 1));
            }
            if self.is_selected(&p) {
                out.push(p);
            }
            proof {
                i = i + 1;
            }
        }
        proof {
            assert(ps.take(i) =~= ps);
        }
        out
    }
}

} // verus!
