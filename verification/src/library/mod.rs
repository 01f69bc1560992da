//! A library is an instance of a metadata hierarchy: how its items are
//! ordered and selected.

pub mod config;
pub mod pattern;
pub mod selection;
pub mod sort_order;

use vstd::prelude::*;

use core::cmp::Ordering;

use crate::config::sorter::sort_by::{ItemPath, SortBy, ordering_sign, path_order};
use crate::config::sorter::sort_by::{file_name_of, path_file_name};
use self::pattern::{Pattern, regex_matches};

verus! {

/// Orders item paths by file name or by modification time.
#[derive(Debug, Copy, Clone, PartialEq, Eq, Structural)]
pub enum ItemSortOrdering {
    Name,
    ModTime,
}

/// The criterion of an item ordering.
pub open spec fn ordering_criterion(o: ItemSortOrdering) -> SortBy {
    match o {
        ItemSortOrdering::Name => SortBy::Name,
        ItemSortOrdering::ModTime => SortBy::ModTime,
    }
}

impl ItemSortOrdering {
    /// Compares two item paths: by their file names (a path without one
    /// first), or by their modification times (a path without one first).
    pub fn path_sort_cmp(&self, abs_item_path_a: &ItemPath, abs_item_path_b: &ItemPath) -> (r: Ordering)
        ensures
            ordering_sign(r) == path_order(
                ordering_criterion(*self),
                *abs_item_path_a,
                *abs_item_path_b,
            ),
    {
        let by = match self {
            ItemSortOrdering::Name => SortBy::Name,
            ItemSortOrdering::ModTime => SortBy::ModTime,
        };
        by.cmp_paths(abs_item_path_a, abs_item_path_b)
    }
}

/// The extension of a path, as `std::path::Path::extension` gives it: the
/// part of the file name after its last dot, if the name has a dot that is
/// not its first character. It depends on the characters of the path alone.
pub uninterp spec fn path_extension(path: Seq<char>) -> Option<Seq<char>>;

/// The extension of a path, from `std::path::Path::extension`. An
/// extension taken from a string is made of valid characters, so its
/// conversion back to a string always succeeds. The result is the name
/// given to the function's result on the same characters.
#[verifier::external_body]
fn extension_of(path: &str) -> (r: Option<String>)
    ensures
        match r {
            Some(e) => path_extension(path@) == Some(e@),
            None => path_extension(path@) == None::<Seq<char>>,
        },
{
    match std::path::Path::new(path).extension() {
        Some(ext) => ext.to_str().map(String::from),
        None => None,
    }
}

/// What selecting reads of an item path on disk: the path, whether it
/// exists, and whether it is a file or a directory.
#[derive(Debug, Clone, PartialEq, Eq)]
pub struct PathInfo {
    pub path: String,
    pub exists: bool,
    pub is_file: bool,
    pub is_dir: bool,
}

/// Rules that select item paths, combined as a boolean formula.
#[derive(Debug)]
pub enum ItemSelection {
    Ext(String),
    Regex(Pattern),
    IsFile,
    IsDir,
    And(Box<ItemSelection>, Box<ItemSelection>),
    Or(Box<ItemSelection>, Box<ItemSelection>),
    Xor(Box<ItemSelection>, Box<ItemSelection>),
    Not(Box<ItemSelection>),
    True,
    False,
}

/// Whether a rule takes a path that exists.
pub open spec fn rule_takes(s: ItemSelection, p: PathInfo) -> bool
    decreases s, 0nat,
{
    match s {
        ItemSelection::Ext(e) => path_extension(p.path@) == Some(e@),
        ItemSelection::Regex(r) => match path_file_name(p.path@) {
            None => false,
            Some(name) => regex_matches(r.source(), name),
        },
        ItemSelection::IsFile => p.is_file,
        ItemSelection::IsDir => p.is_dir,
        ItemSelection::And(a, b) => path_selected(*a, p) && path_selected(*b, p),
        ItemSelection::Or(a, b) => path_selected(*a, p) || path_selected(*b, p),
        ItemSelection::Xor(a, b) => path_selected(*a, p) != path_selected(*b, p),
        ItemSelection::Not(a) => !path_selected(*a, p),
        ItemSelection::True => true,
        ItemSelection::False => false,
    }
}

/// Whether a rule selects a path: never one that does not exist.
pub open spec fn path_selected(s: ItemSelection, p: PathInfo) -> bool
    decreases s, 1nat,
{
    p.exists && rule_takes(s, p)
}

impl ItemSelection {
    /// Whether this rule selects the path: a path that does not exist never
    /// is; an extension must equal the path's; an expression must match the
    /// path's file name; the combinations follow their boolean operators.
    pub fn is_selected_path(&self, abs_item_path: &PathInfo) -> (r: bool)
        ensures
            r == path_selected(*self, *abs_item_path),
        decreases self,
    {
        if !abs_item_path.exists {
            return false;
        }
        match self {
            ItemSelection::Ext(e_ext) => match extension_of(abs_item_path.path.as_str()) {
                Some(ext) => crate::config::format::str_eq(ext.as_str(), e_ext.as_str()),
                None => false,
            },
            ItemSelection::Regex(r_exp) => match file_name_of(abs_item_path.path.as_str()) {
                Some(name) => r_exp.is_match(name.as_str()),
                None => false,
            },
            ItemSelection::IsFile => abs_item_path.is_file,
            ItemSelection::IsDir => abs_item_path.is_dir,
            ItemSelection::And(sel_a, sel_b) => sel_a.is_selected_path(abs_item_path)
                && sel_b.is_selected_path(abs_item_path),
            ItemSelection::Or(sel_a, sel_b) => sel_a.is_selected_path(abs_item_path)
                || sel_b.is_selected_path(abs_item_path),
            ItemSelection::Xor(sel_a, sel_b) => sel_a.is_selected_path(abs_item_path)
                != sel_b.is_selected_path(abs_item_path),
            ItemSelection::Not(sel) => !sel.is_selected_path(abs_item_path),
            ItemSelection::True => true,
            ItemSelection::False => false,
        }
    }

    /// The selected entries of a directory, in their order; entries that
    /// could not be read are left out.
    pub fn selected_items_in_dir<E>(&self, entries: Vec<Result<PathInfo, E>>) -> (r: Vec<PathInfo>)
        ensures
            r@ == selected_infos(*self, entries@),
    {
        let ghost es = entries@;
        let mut rest = entries;
        let mut out: Vec<PathInfo> = Vec::new();
        let ghost mut i: int = 0;
        proof {
            assert(es.skip(0) =~= es);
            assert(es.take(0) =~= Seq::<Result<PathInfo, E>>::empty());
        }
        while rest.len() > 0
            invariant
                es == entries@,
                0 <= i <= es.len(),
                rest@ == es.skip(i),
                out@ == selected_infos(*self, es.take(i)),
            decreases rest.len(),
        {
            let ghost before = rest@;
            let entry = rest.remove(0);
            proof {
                assert(rest@ =~= es.skip(i + 1));
                assert(before[0] == es[i]);
                assert(es.take(i + 1).drop_last() =~= es.take(i));
                assert(es.take(i + 1).last() == es[i]);
            }
            match entry {
                Ok(info) => {
                    if self.is_selected_path(&info) {
                        out.push(info);
                    }
                },
                Err(_) => {},
            }
            proof {
                i = i + 1;
            }
        }
        proof {
            assert(es.take(i) =~= es);
        }
        out
    }
}

/// The selected entries of a directory, in their order, without the
/// entries that could not be read.
pub open spec fn selected_infos<E>(s: ItemSelection, es: Seq<Result<PathInfo, E>>) -> Seq<PathInfo>
    decreases es.len(),
{
    if es.len() == 0 {
        Seq::empty()
    } else {
        let rest = selected_infos(s, es.drop_last());
        match es.last() {
            Ok(p) => if path_selected(s, p) {
                rest.push(p)
            } else {
                rest
            },
            Err(_) => rest,
        }
    }
}

} // verus!
