//! The calls into `globset` that matching makes, with what they promise.

use vstd::prelude::*;

use globset::{Glob, GlobSet, GlobSetBuilder};
use globset::Error as GlobError;

verus! {

#[verifier::external_type_specification]
#[verifier::external_body]
pub struct ExGlobSet(GlobSet);

#[verifier::external_type_specification]
#[verifier::external_body]
pub struct ExGlobSetBuilder(GlobSetBuilder);

#[verifier::external_type_specification]
#[verifier::external_body]
pub struct ExGlobError(GlobError);

/// Whether `globset::Glob::new` accepts a pattern.
pub uninterp spec fn glob_valid(pattern: Seq<char>) -> bool;

/// Whether the glob of a pattern matches a file name.
pub uninterp spec fn glob_matches(pattern: Seq<char>, name: Seq<char>) -> bool;

/// Whether `globset::GlobSetBuilder::build` succeeds on globs of these
/// patterns.
pub uninterp spec fn globs_buildable(patterns: Seq<Seq<char>>) -> bool;

/// The patterns of the globs added to a builder, in order.
pub uninterp spec fn builder_patterns(b: GlobSetBuilder) -> Seq<Seq<char>>;

/// The patterns of the globs of a set, in order.
pub uninterp spec fn set_patterns(s: GlobSet) -> Seq<Seq<char>>;

/// A new builder, from `globset::GlobSetBuilder::new`: it holds no glob.
#[verifier::external_body]
pub(crate) fn new_builder() -> (r: GlobSetBuilder)
    ensures
        builder_patterns(r) == Seq::<Seq<char>>::empty(),
{
    GlobSetBuilder::new()
}

/// Checks a pattern with `globset::Glob::new`, keeping no glob: the result
/// is the name given to the acceptance of the pattern. The parser accepts
/// the pattern `*`, a single token that matches any sequence of characters.
#[verifier::external_body]
pub(crate) fn check_glob(pattern: &str) -> (r: Result<(), GlobError>)
    ensures
        r is Ok <==> glob_valid(pattern@),
        pattern@ == "*"@ ==> r is Ok,
{
    Glob::new(pattern)?;
    Ok(())
}

/// Adds the glob of a pattern to a builder with
/// `globset::GlobSetBuilder::add`, the pattern turned into its argument by
/// `globset::Glob::new`; when that refuses the pattern, the builder is left
/// as it was. The source shows that `add` pushes the glob onto the builder's
/// list, and that the parser accepts the pattern `*`.
#[verifier::external_body]
pub(crate) fn add_pattern_to(builder: &mut GlobSetBuilder, pattern: &str) -> (r: Result<(), GlobError>)
    ensures
        r is Ok <==> glob_valid(pattern@),
        pattern@ == "*"@ ==> r is Ok,
        r is Ok ==> builder_patterns(*final(builder)) == builder_patterns(*old(builder)).push(
            pattern@,
        ),
        r is Err ==> builder_patterns(*final(builder)) == builder_patterns(*old(builder)),
{
    builder.add(Glob::new(pattern)?);
    Ok(())
}

/// Builds a set from a builder with `globset::GlobSetBuilder::build`: it
/// fails only where the name for buildable patterns says so, and the set
/// holds the builder's globs. Building fails only when a regular expression
/// grows past the size limit, which the one glob `*` does not.
#[verifier::external_body]
pub(crate) fn build_set(builder: &GlobSetBuilder) -> (r: Result<GlobSet, GlobError>)
    ensures
        r is Ok <==> globs_buildable(builder_patterns(*builder)),
        builder_patterns(*builder) == seq!["*"@] ==> r is Ok,
        r matches Ok(s) ==> set_patterns(s) == builder_patterns(*builder),
{
    builder.build()
}

/// The empty set, from `globset::GlobSet::empty`, which holds no glob.
#[verifier::external_body]
pub(crate) fn empty_set() -> (r: GlobSet)
    ensures
        set_patterns(r) == Seq::<Seq<char>>::empty(),
{
    GlobSet::empty()
}

/// Whether some glob of a set matches a file name, from
/// `globset::GlobSet::is_match`, which its documentation describes so. A set
/// matches the glob `*` by its regular-expression strategy: `GlobSet::new`
/// puts the expression `(?-u)^.*$` into a `RegexSet`, which `new_regex_set`
/// builds with the default flags, so `.` there does not match a line break
/// (the flag that would let it is set only by `new_regex`, for single
/// globs). The glob thus matches every name without a line break, which is
/// what is stated; of a name with one, nothing is.
#[verifier::external_body]
pub(crate) fn set_matches(set: &GlobSet, name: &str) -> (r: bool)
    ensures
        r == (exists|i: int|
            0 <= i < set_patterns(*set).len() && #[trigger] glob_matches(set_patterns(*set)[i], name@)),
        set_patterns(*set).contains("*"@) && !name@.contains('\n') ==> r,
{
    set.is_match(name)
}

} // verus!
