//! Operators over metadata values: unary ones that take one value or
//! stream, binary ones that take two arguments.

pub mod binary;
pub mod unary;

pub use self::binary::Converter as BinaryConverter;
pub use self::binary::IterAdaptor as BinaryIterAdaptor;
pub use self::binary::IterConsumer as BinaryIterConsumer;
pub use self::binary::Predicate as BinaryPredicate;
pub use self::unary::Converter as UnaryConverter;
pub use self::unary::IterAdaptor as UnaryIterAdaptor;
pub use self::unary::IterConsumer as UnaryIterConsumer;
pub use self::unary::Predicate as UnaryPredicate;

use vstd::prelude::*;

use crate::functions::Error;
use crate::metadata::types::{MetaVal, ValView, vals_view};

verus! {

/// The elements of a sequence value; `NotSequence` for any other value.
pub fn into_sequence(mv: MetaVal) -> (r: Result<Vec<MetaVal>, Error>)
    ensures
        match mv@ {
            ValView::Sequence(xs) => r matches Ok(v) && vals_view(v@) == xs,
            _ => r == Err::<Vec<MetaVal>, Error>(Error::NotSequence),
        },
{
    match mv {
        MetaVal::Sequence(seq) => Ok(seq),
        _ => Err(Error::NotSequence),
    }
}

/// The elements of a sequence value, borrowed; `NotSequence` for any other
/// value.
pub fn as_sequence(mv: &MetaVal) -> (r: Result<&Vec<MetaVal>, Error>)
    ensures
        match mv@ {
            ValView::Sequence(xs) => r matches Ok(v) && vals_view(v@) == xs,
            _ => r == Err::<&Vec<MetaVal>, Error>(Error::NotSequence),
        },
{
    match mv {
        MetaVal::Sequence(seq) => Ok(seq),
        _ => Err(Error::NotSequence),
    }
}

} // verus!
