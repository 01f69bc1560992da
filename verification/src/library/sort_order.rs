//! The order in which the items of a library are listed.

use vstd::prelude::*;

use core::cmp::Ordering;

use crate::config::sorter::sort_by::{ItemPath, SortBy, ordering_sign, path_order};

verus! {

/// Orders item paths by file name or by modification time.
#[derive(Debug, Copy, Clone, PartialEq, Eq, Structural)]
pub enum SortOrder {
    Name,
    ModTime,
}

/// The criterion of a library sort order.
pub open spec fn order_criterion(o: SortOrder) -> SortBy {
    match o {
        SortOrder::Name => SortBy::Name,
        SortOrder::ModTime => SortBy::ModTime,
    }
}

impl SortOrder {
    /// Compares two item paths: by their file names (a path without one
    /// first), or by their modification times (a path without one first).
    pub fn path_sort_cmp(&self, abs_item_path_a: &ItemPath, abs_item_path_b: &ItemPath) -> (r: Ordering)
        ensures
            ordering_sign(r) == path_order(order_criterion(*self), *abs_item_path_a, *abs_item_path_b),
    {
        let by = match self {
            SortOrder::Name => SortBy::Name,
            SortOrder::ModTime => SortBy::ModTime,
        };
        by.cmp_paths(abs_item_path_a, abs_item_path_b)
    }
}

} // verus!
