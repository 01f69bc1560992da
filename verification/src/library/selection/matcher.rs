//! A matcher of item paths by glob patterns, which remembers its patterns,
//! sorted and without repeats.

use vstd::prelude::*;

use globset::GlobSet;
use globset::Error as GlobError;

use crate::config::selection::glob::{
    add_pattern_to,
    build_set,
    builder_patterns,
    empty_set,
    glob_valid,
    globs_buildable,
    new_builder,
    set_matches,
    set_patterns,
};
use crate::config::selection::matcher::{all_valid, any_matches, patterns_view};
use crate::config::sorter::{insertion_sort, sorted_by};
use crate::metadata::types::{chars_order, str_order};

verus! {

/// The ways in which building a matcher can fail, with the error of
/// `globset`.
#[derive(Debug)]
pub enum Error {
    InvalidPattern(GlobError),
    CannotBuildSelector(GlobError),
}

/// The order of patterns: lexicographic.
pub open spec fn by_pattern_order() -> spec_fn(String, String) -> int {
    |a: String, b: String| chars_order(a@, b@)
}

/// A sequence of strings without the ones that equal the string before.
pub open spec fn without_repeats(xs: Seq<String>) -> Seq<String>
    decreases xs.len(),
{
    if xs.len() == 0 {
        Seq::empty()
    } else if xs.len() > 1 && xs[xs.len() - 2]@ == xs.last()@ {
        without_repeats(xs.drop_last())
    } else {
        without_repeats(xs.drop_last()).push(xs.last())
    }
}

/// A filter for file paths, used to determine if a path is to be
/// considered a metadata-containing item: it matches the whole path, and
/// keeps its patterns sorted and without repeats.
pub struct Matcher {
    set: GlobSet,
    patterns: Vec<String>,
}

/// Removes the strings that equal the string before.
fn dedup_strings(v: Vec<String>) -> (r: Vec<String>)
    ensures
        r@ == without_repeats(v@),
{
    let ghost xs = v@;
    let mut out: Vec<String> = Vec::new();
    let mut i: usize = 0;
    while i < v.len()
        invariant
            i <= v@.len(),
            xs == v@,
            out@ == without_repeats(xs.take(i as int)),
            i > 0 ==> out@.len() > 0 && out@.last()@ == xs[i - 1]@,
        decreases v.len() - i,
    {
        proof {
            assert(xs.take(i + 1).drop_last() =~= xs.take(i as int));
            assert(xs.take(i + 1).last() == xs[i as int]);
        }
        let repeat = i > 0 && v[i - 1] == v[i];
        if !repeat {
            out.push(v[i].clone());
            proof {
                assert(out@.last() == v@[i as int]);
            }
        } else {
            proof {
                assert(xs.take(i + 1)[i - 1] == xs[i - 1]);
            }
        }
        i = i + 1;
    }
    proof {
        assert(xs.take(i as int) =~= xs);
    }
    out
}

/// Copies the strings of a list.
fn to_strings(pattern_strs: &[&str]) -> (r: Vec<String>)
    ensures
        r@.len() == pattern_strs@.len(),
        forall|k: int| 0 <= k < r@.len() ==> #[trigger] r@[k]@ == pattern_strs@[k]@,
{
    let mut out: Vec<String> = Vec::new();
    let mut i: usize = 0;
    while i < pattern_strs.len()
        invariant
            i <= pattern_strs@.len(),
            out@.len() == i,
            forall|k: int| 0 <= k < i ==> #[trigger] out@[k]@ == pattern_strs@[k]@,
        decreases pattern_strs.len() - i,
    {
        out.push(String::from_str(pattern_strs[i]));
        i = i + 1;
    }
    out
}

impl Matcher {
    /// The patterns that this matcher matches by.
    pub closed spec fn patterns(&self) -> Seq<Seq<char>> {
        set_patterns(self.set)
    }

    /// The patterns that this matcher remembers: sorted, without repeats.
    pub closed spec fn remembered(&self) -> Seq<String> {
        self.patterns@
    }

    /// The matcher of some patterns: a refused pattern gives
    /// `InvalidPattern`, patterns that cannot be built together
    /// `CannotBuildSelector`. It remembers the patterns sorted, without
    /// repeats.
    pub fn from_patterns(pattern_strs: &[&str]) -> (r: Result<Self, Error>)
        ensures
            r is Ok <==> all_valid(patterns_view(pattern_strs@)) && globs_buildable(patterns_view(pattern_strs@)),
            patterns_view(pattern_strs@) == seq!["*"@] ==> r is Ok,
            r matches Ok(m) ==> m.patterns() == patterns_view(pattern_strs@),
            r matches Ok(m) ==> exists|copies: Seq<String>|
                #![trigger sorted_by(by_pattern_order(), copies)]
                copies.len() == pattern_strs@.len() && (forall|k: int|
                    0 <= k < copies.len() ==> #[trigger] copies[k]@ == pattern_strs@[k]@) && m.remembered()
                    == without_repeats(sorted_by(by_pattern_order(), copies)),
            r matches Err(Error::InvalidPattern(_)) <==> !all_valid(patterns_view(pattern_strs@)),
    {
        let ghost ps = patterns_view(pattern_strs@);
        let mut builder = new_builder();
        let mut i: usize = 0;
        while i < pattern_strs.len()
            invariant
                i <= pattern_strs@.len(),
                ps == patterns_view(pattern_strs@),
                builder_patterns(builder) == ps.take(i as int),
                forall|j: int| 0 <= j < i ==> glob_valid(#[trigger] ps[j]),
            decreases pattern_strs.len() - i,
        {
            match add_pattern_to(&mut builder, pattern_strs[i]) {
                Err(e) => {
                    proof {
                        assert(!glob_valid(ps[i as int]));
                        if ps == seq!["*"@] {
                            assert(ps.len() == 1);
                            assert(i == 0);
                            assert(seq!["*"@][0] == "*"@);
                            assert(ps[0] == "*"@);
                            assert(ps[i as int] == pattern_strs@[i as int]@);
                        }
                    }
                    return Err(Error::InvalidPattern(e));
                },
                Ok(()) => {},
            }
            proof {
                assert(ps.take(i + 1) =~= ps.take(i as int).push(ps[i as int]));
            }
            i = i + 1;
        }
        proof {
            assert(ps.take(i as int) =~= ps);
        }
        let set = match build_set(&builder) {
            Ok(set) => set,
            Err(e) => {
                return Err(Error::CannotBuildSelector(e));
            },
        };
        let copies = to_strings(pattern_strs);
        let ghost cs = copies@;
        let compare = (|a: &String, b: &String| -> (o: i8)
            ensures
                o == chars_order(a@, b@),
            { str_order(a.as_str(), b.as_str()) });
        let sorted = insertion_sort(copies, compare, Ghost(by_pattern_order()));
        let patterns = dedup_strings(sorted);
        Ok(Matcher { set, patterns })
    }

    /// Whether some pattern matches the whole path.
    pub fn is_match(&self, path: &str) -> (r: bool)
        ensures
            r == any_matches(self.patterns(), path@),
            self.patterns().contains("*"@) && !path@.contains('\n') ==> r,
    {
        set_matches(&self.set, path)
    }

    /// The matcher of the one pattern `*`; `is_match` states that it
    /// matches every path without a line break.
    pub fn any() -> (r: Self)
        ensures
            r.patterns() == seq!["*"@],
    {
        let stars: [&str; 1] = ["*"];
        let r = Matcher::from_patterns(&stars);
        proof {
            assert(patterns_view(stars@) =~= seq!["*"@]);
            assert(all_valid(seq!["*"@]) <==> glob_valid("*"@)) by {
                assert(seq!["*"@][0] == "*"@);
            }
        }
        match r {
            Ok(m) => m,
            Err(_) => Matcher::empty(),
        }
    }

    /// The matcher that matches no path and remembers no pattern.
    pub fn empty() -> (r: Self)
        ensures
            r.patterns() == Seq::<Seq<char>>::empty(),
            r.remembered() == Seq::<String>::empty(),
    {
        Matcher { set: empty_set(), patterns: Vec::new() }
    }

    /// Whether two matchers remember the same patterns, which is how they
    /// compare as equal.
    pub fn same_patterns(&self, other: &Matcher) -> (r: bool)
        ensures
            r == (self.remembered().len() == other.remembered().len() && forall|k: int|
                0 <= k < self.remembered().len() ==> #[trigger] self.remembered()[k]@ == other.remembered()[k]@),
    {
        if self.patterns.len() != other.patterns.len() {
            return false;
        }
        let mut i: usize = 0;
        while i < self.patterns.len()
            invariant
                i <= self.patterns@.len(),
                self.patterns@.len() == other.patterns@.len(),
                forall|k: int| 0 <= k < i ==> #[trigger] self.patterns@[k]@ == other.patterns@[k]@,
            decreases self.patterns.len() - i,
        {
            if self.patterns[i] != other.patterns[i] {
                return false;
            }
            i = i + 1;
        }
        true
    }
}

} // verus!
