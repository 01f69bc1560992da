//! Representation and processing logic for metadata fallbacks.
//! A fallback is a way to obtain metadata from another source if it is missing for an item.

pub mod collect;
pub mod inherit;
pub mod util;

use vstd::prelude::*;

use crate::metadata::types::MetaKey;

verus! {

/// Fallbacks that source missing data by looking at the ancestors/parents of an item.
#[derive(Clone, Copy, PartialEq, Eq, Debug, Hash, Structural)]
pub enum InheritFallback {
    Override,
    Merge,
}

impl InheritFallback {
    /// The default inheriting fallback: overriding.
    pub fn default() -> (r: Self)
        ensures
            r == InheritFallback::Override,
    {
        InheritFallback::Override
    }
}

/// Fallbacks that source missing data by looking at the descendants/children of an item.
#[derive(Clone, Copy, PartialEq, Eq, Debug, Hash, Structural)]
pub enum HarvestFallback {
    Collect,
    First,
}

impl HarvestFallback {
    /// The default harvesting fallback: collecting.
    pub fn default() -> (r: Self)
        ensures
            r == HarvestFallback::Collect,
    {
        HarvestFallback::Collect
    }
}

/// A fallback of either kind.
#[derive(Clone, Copy, PartialEq, Eq, Debug, Hash, Structural)]
pub enum Fallback {
    Inherit(InheritFallback),
    Harvest(HarvestFallback),
}

impl Fallback {
    /// The default fallback: inheriting by overriding.
    pub fn default() -> (r: Self)
        ensures
            r == Fallback::Inherit(InheritFallback::Override),
    {
        Fallback::Inherit(InheritFallback::default())
    }
}

/// Node type for the tree representation of fallback methods: a fallback
/// for the value at a key, fallbacks for the keys under it, or both. The
/// children are in increasing key order, each key once.
#[derive(Debug, PartialEq, Eq)]
pub enum FallbackSpecNode {
    Leaf(Option<Fallback>),
    Pass(Vec<(MetaKey, FallbackSpecNode)>),
    Both(Option<Fallback>, Vec<(MetaKey, FallbackSpecNode)>),
}

} // verus!
