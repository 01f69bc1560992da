//! Ways to aggregate the metadata of child items.

use vstd::prelude::*;

use crate::metadata::types::MetaVal;

verus! {

/// Different ways to process child metadata into desired outputs.
#[derive(Clone, Copy, PartialEq, Eq, Debug, Hash, Structural)]
pub enum AggMethod {
    Collect,
    First,
}

impl AggMethod {
    /// Aggregates values: `First` keeps the first value (null if there is
    /// none), `Collect` gathers all of them into a sequence, in order.
    pub fn aggregate(&self, mvs: Vec<MetaVal>) -> (r: MetaVal)
        ensures
            *self == AggMethod::First ==> r == (if mvs@.len() > 0 {
                mvs@[0]
            } else {
                MetaVal::Nil
            }),
            *self == AggMethod::Collect ==> r == MetaVal::Sequence(mvs),
    {
        match self {
            AggMethod::First => {
                let mut mvs = mvs;
                if mvs.len() > 0 {
                    mvs.remove(0)
                } else {
                    MetaVal::Nil
                }
            },
            AggMethod::Collect => MetaVal::Sequence(mvs),
        }
    }
}

} // verus!
