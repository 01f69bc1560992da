//! Unary operators that turn a stream into another stream.

use vstd::prelude::*;

verus! {

/// The unary stream adaptors.
#[derive(Clone, Copy, Debug, PartialEq, Eq, Structural)]
pub enum IterAdaptor {
    Flatten,
    Dedup,
    Unique,
}

} // verus!
