//! Criteria for ordering item paths.

use vstd::prelude::*;

use core::cmp::Ordering;

use crate::metadata::types::{chars_order, lemma_chars_order_antisymmetric, lemma_chars_order_sign, str_order};

verus! {

/// What sorting reads of an item path: the path itself, and the
/// modification time of the item, in nanoseconds from the Unix epoch, when
/// it could be read.
pub struct ItemPath {
    pub path: String,
    pub mtime: Option<i128>,
}

/// The final component of a path, as `std::path::Path::file_name` gives it:
/// `None` for a path that ends in `..` or is a root or a prefix. It depends
/// on the characters of the path alone.
pub uninterp spec fn path_file_name(path: Seq<char>) -> Option<Seq<char>>;

/// The file name of a path, from `std::path::Path::file_name`. A path built
/// from a string has a name made of valid characters, so its conversion
/// back to a string always succeeds. The result is the name given to the
/// function's result on the same characters; nothing more is stated of it.
#[verifier::external_body]
pub(crate) fn file_name_of(path: &str) -> (r: Option<String>)
    ensures
        match r {
            Some(n) => path_file_name(path@) == Some(n@),
            None => path_file_name(path@) == None::<Seq<char>>,
        },
{
    match std::path::Path::new(path).file_name() {
        Some(name) => name.to_str().map(String::from),
        None => None,
    }
}

/// -1, 0 or 1 as an ordering is less, equal or greater.
pub open spec fn ordering_sign(o: Ordering) -> int {
    match o {
        Ordering::Less => -1,
        Ordering::Equal => 0,
        Ordering::Greater => 1,
    }
}

/// The ordering with a sign of -1, 0 or 1.
pub fn ordering_from_sign(s: i8) -> (r: Ordering)
    requires
        -1 <= s <= 1,
    ensures
        ordering_sign(r) == s,
{
    if s < 0 {
        Ordering::Less
    } else if s == 0 {
        Ordering::Equal
    } else {
        Ordering::Greater
    }
}

/// The order of optional names: no name first, then names in
/// lexicographic order.
pub open spec fn name_order(a: Option<Seq<char>>, b: Option<Seq<char>>) -> int {
    match (a, b) {
        (None, None) => 0,
        (None, Some(_)) => -1,
        (Some(_), None) => 1,
        (Some(x), Some(y)) => chars_order(x, y),
    }
}

/// The order of optional times: no time first, then earlier before later.
pub open spec fn time_order(a: Option<i128>, b: Option<i128>) -> int {
    match (a, b) {
        (None, None) => 0,
        (None, Some(_)) => -1,
        (Some(_), None) => 1,
        (Some(x), Some(y)) => if x < y {
            -1
        } else if x == y {
            0
        } else {
            1
        },
    }
}

/// Represents all criteria that can be used for sorting item files.
#[derive(Debug, Copy, Clone, PartialEq, Eq, Hash, Structural)]
pub enum SortBy {
    Name,
    ModTime,
}

/// The order of two item paths by a criterion: by file name, or by
/// modification time.
pub open spec fn path_order(by: SortBy, a: ItemPath, b: ItemPath) -> int {
    match by {
        SortBy::Name => name_order(path_file_name(a.path@), path_file_name(b.path@)),
        SortBy::ModTime => time_order(a.mtime, b.mtime),
    }
}

/// The order of item paths is -1, 0 or 1.
pub proof fn lemma_path_order_sign(by: SortBy, a: ItemPath, b: ItemPath)
    ensures
        -1 <= path_order(by, a, b) <= 1,
{
    match (path_file_name(a.path@), path_file_name(b.path@)) {
        (Some(x), Some(y)) => lemma_chars_order_sign(x, y),
        _ => {},
    }
}

/// Swapping two item paths negates their order.
pub proof fn lemma_path_order_antisymmetric(by: SortBy, a: ItemPath, b: ItemPath)
    ensures
        path_order(by, a, b) == -path_order(by, b, a),
{
    match (path_file_name(a.path@), path_file_name(b.path@)) {
        (Some(x), Some(y)) => lemma_chars_order_antisymmetric(x, y),
        _ => {},
    }
}

/// Compares the file names of two paths: -1, 0 or 1.
fn name_cmp(a: &ItemPath, b: &ItemPath) -> (r: i8)
    ensures
        r == path_order(SortBy::Name, *a, *b),
{
    match (file_name_of(a.path.as_str()), file_name_of(b.path.as_str())) {
        (None, None) => 0,
        (None, Some(_)) => -1,
        (Some(_), None) => 1,
        (Some(x), Some(y)) => str_order(x.as_str(), y.as_str()),
    }
}

/// Compares the modification times of two paths: -1, 0 or 1.
fn mtime_cmp(a: &ItemPath, b: &ItemPath) -> (r: i8)
    ensures
        r == path_order(SortBy::ModTime, *a, *b),
{
    match (a.mtime, b.mtime) {
        (None, None) => 0,
        (None, Some(_)) => -1,
        (Some(_), None) => 1,
        (Some(x), Some(y)) => if x < y {
            -1
        } else if x == y {
            0
        } else {
            1
        },
    }
}

impl SortBy {
    /// The default criterion: by name.
    pub fn default() -> (r: Self)
        ensures
            r == SortBy::Name,
    {
        SortBy::Name
    }

    /// Compares two item paths by this criterion: -1, 0 or 1.
    pub fn order_paths(&self, a: &ItemPath, b: &ItemPath) -> (r: i8)
        ensures
            r == path_order(*self, *a, *b),
    {
        match self {
            SortBy::Name => name_cmp(a, b),
            SortBy::ModTime => mtime_cmp(a, b),
        }
    }

    /// Compares two item paths by this criterion.
    pub fn cmp_paths(&self, abs_path_a: &ItemPath, abs_path_b: &ItemPath) -> (r: Ordering)
        ensures
            ordering_sign(r) == path_order(*self, *abs_path_a, *abs_path_b),
    {
        proof {
            lemma_path_order_sign(*self, *abs_path_a, *abs_path_b);
        }
        ordering_from_sign(self.order_paths(abs_path_a, abs_path_b))
    }

    /// Compares two results holding item paths: errors come before paths,
    /// two errors are equal, two paths compare by this criterion.
    pub fn cmp_path_results<E>(&self, res_a: &Result<ItemPath, E>, res_b: &Result<ItemPath, E>) -> (r:
        Ordering)
        ensures
            ordering_sign(r) == path_result_order(*self, *res_a, *res_b),
    {
        match (res_a, res_b) {
            (Ok(a), Ok(b)) => self.cmp_paths(a, b),
            (Err(_), Ok(_)) => Ordering::Less,
            (Ok(_), Err(_)) => Ordering::Greater,
            (Err(_), Err(_)) => Ordering::Equal,
        }
    }
}

/// The order of results holding item paths: errors first.
pub open spec fn path_result_order<E>(by: SortBy, a: Result<ItemPath, E>, b: Result<ItemPath, E>) -> int {
    match (a, b) {
        (Ok(x), Ok(y)) => path_order(by, x, y),
        (Err(_), Ok(_)) => -1,
        (Ok(_), Err(_)) => 1,
        (Err(_), Err(_)) => 0,
    }
}

} // verus!
