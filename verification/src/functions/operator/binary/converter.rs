//! Binary operators that turn two arguments into a value.

use vstd::prelude::*;

use super::Predicate;

verus! {

/// The binary converters; every binary predicate is one too.
#[derive(Clone, Copy, Debug, PartialEq, Eq, Structural)]
pub enum Converter {
    Nth,
    StepBy,
    Chain,
    Zip,
    MapEach,
    Filter,
    SkipWhile,
    TakeWhile,
    Skip,
    Take,
    All,
    Any,
    Find,
    Position,
    Interleave,
    Intersperse,
    Chunks,
    Windows,
    Predicate(Predicate),
}

} // verus!
