//! Regular expressions over file names, from the `regex` crate.

use vstd::prelude::*;

use regex::Regex;
use regex::Error as RegexError;

verus! {

#[verifier::external_type_specification]
#[verifier::external_body]
pub struct ExRegex(Regex);

#[verifier::external_type_specification]
#[verifier::external_body]
pub struct ExRegexError(RegexError);

/// Whether `regex::Regex::new` accepts a pattern.
pub uninterp spec fn regex_valid(pattern: Seq<char>) -> bool;

/// Whether the regular expression of a pattern matches somewhere in a text.
pub uninterp spec fn regex_matches(pattern: Seq<char>, text: Seq<char>) -> bool;

/// Compiles a pattern with `regex::Regex::new`; it fails where the name for
/// accepted patterns says so.
#[verifier::external_body]
fn compile(pattern: &str) -> (r: Result<Regex, RegexError>)
    ensures
        r is Ok <==> regex_valid(pattern@),
{
    Regex::new(pattern)
}

/// A regular expression with the pattern it was compiled from.
#[derive(Debug)]
pub struct Pattern {
    source: String,
    regex: Regex,
}

/// Whether the compiled expression of a pattern matches somewhere in a text,
/// from `regex::Regex::is_match`. A `Pattern` is only made by
/// `Pattern::new`, which compiles its expression from its source, so the
/// answer is the name given to matching the source's expression.
#[verifier::external_body]
fn pattern_matches(p: &Pattern, text: &str) -> (r: bool)
    ensures
        r == regex_matches(p.source(), text@),
{
    p.regex.is_match(text)
}

impl Pattern {
    /// The pattern that the expression was compiled from.
    pub closed spec fn source(&self) -> Seq<char> {
        self.source@
    }

    /// Compiles a pattern; fails where `regex` refuses it.
    pub fn new(pattern: &str) -> (r: Result<Pattern, RegexError>)
        ensures
            r is Ok <==> regex_valid(pattern@),
            r matches Ok(p) ==> p.source() == pattern@,
    {
        let regex = compile(pattern)?;
        Ok(Pattern { source: String::from_str(pattern), regex })
    }

    /// Whether the expression matches somewhere in a text.
    pub fn is_match(&self, text: &str) -> (r: bool)
        ensures
            r == regex_matches(self.source(), text@),
    {
        pattern_matches(self, text)
    }
}

} // verus!
