//! Binary operators that turn a stream and an argument into another stream.

use vstd::prelude::*;

verus! {

/// The binary stream adaptors.
#[derive(Clone, Copy, Debug, PartialEq, Eq, Structural)]
pub enum IterAdaptor {
    StepBy,
    Chain,
    Zip,
    MapEach,
    Filter,
    SkipWhile,
    TakeWhile,
    Skip,
    Take,
    Interleave,
    Intersperse,
    Chunks,
    Windows,
}

} // verus!
