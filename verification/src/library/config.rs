//! The configuration of a library: which item paths it selects, how it
//! sorts them, and the names of its metadata files.

use vstd::prelude::*;

use crate::config::selection::glob::{glob_valid, globs_buildable};
use crate::library::selection::filter::Selection;
use crate::library::selection::matcher::Matcher;
use crate::library::sort_order::SortOrder;

verus! {

/// The ways in which reading a directory of a library can fail.
#[derive(Clone, Copy, Debug, PartialEq, Eq, Structural)]
pub enum ErrorKind {
    CannotReadDir,
    CannotReadDirEntry,
}

impl ErrorKind {
    /// The message that describes the error.
    pub fn message(&self) -> (r: &'static str)
        ensures
            *self == ErrorKind::CannotReadDir ==> r@ == "cannot read directory"@,
            *self == ErrorKind::CannotReadDirEntry ==> r@ == "cannot read directory entry"@,
    {
        match self {
            ErrorKind::CannotReadDir => "cannot read directory",
            ErrorKind::CannotReadDirEntry => "cannot read directory entry",
        }
    }
}

/// The configuration of a library.
pub struct Config {
    pub selection: Selection,
    pub sort_order: SortOrder,
    pub item_fn: String,
    pub self_fn: String,
}

impl Config {
    /// The default configuration: the pattern `*` less the metadata files
    /// (`*.yml`), sorted by name, with the metadata in `item.yml` and
    /// `self.yml`. Should `globset` ever refuse the pattern `*.yml`, nothing
    /// is excluded.
    pub fn default() -> (r: Self)
        ensures
            r.sort_order == SortOrder::Name,
            r.item_fn@ == "item.yml"@,
            r.self_fn@ == "self.yml"@,
            r.selection.inclusion() == seq!["*"@],
            glob_valid("*.yml"@) && globs_buildable(seq!["*.yml"@]) ==> r.selection.exclusion() == seq![
                "*.yml"@,
            ],
    {
        let ymls: [&str; 1] = ["*.yml"];
        let exclusion = match Matcher::from_patterns(&ymls) {
            Ok(m) => m,
            Err(_) => Matcher::empty(),
        };
        proof {
            assert(crate::config::selection::matcher::patterns_view(ymls@) =~= seq!["*.yml"@]);
            assert(seq!["*.yml"@][0] == "*.yml"@);
        }
        Config {
            selection: Selection::from_matchers(Matcher::any(), exclusion),
            sort_order: SortOrder::Name,
            item_fn: String::from_str("item.yml"),
            self_fn: String::from_str("self.yml"),
        }
    }
}

} // verus!
