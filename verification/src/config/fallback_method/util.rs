//! Walking the ancestors of an item, and its descendants.

use vstd::prelude::*;

verus! {

/// The parent of a path, as `std::path::Path::parent` gives it: `None` for
/// a path that ends in a root or a prefix, or for the empty path. It depends
/// on the characters of the path alone.
pub uninterp spec fn path_parent(path: Seq<char>) -> Option<Seq<char>>;

/// The parent of a path, from `std::path::Path::parent`. A parent taken
/// from a string is made of valid characters, so its conversion back to a
/// string always succeeds. The result is the name given to the function's
/// result on the same characters; nothing more is stated of it.
#[verifier::external_body]
fn parent_of(path: &str) -> (r: Option<String>)
    ensures
        match r {
            Some(p) => path_parent(path@) == Some(p@),
            None => path_parent(path@) == None::<Seq<char>>,
        },
{
    match std::path::Path::new(path).parent() {
        Some(parent) => parent.to_str().map(String::from),
        None => None,
    }
}

/// The view of an optional path.
pub open spec fn opt_path_view(p: Option<String>) -> Option<Seq<char>> {
    match p {
        Some(s) => Some(s@),
        None => None,
    }
}

/// Visits the ancestors of an item, nearest first.
pub struct AncestorItemVisitor(pub Option<String>);

impl AncestorItemVisitor {
    /// A visitor that starts at the parent of the item.
    pub fn new(origin_item_path: &str) -> (r: Self)
        ensures
            opt_path_view(r.0) == path_parent(origin_item_path@),
    {
        AncestorItemVisitor(parent_of(origin_item_path))
    }

    /// The next ancestor, if any; the visitor moves on to its parent.
    pub fn next(&mut self) -> (r: Option<String>)
        ensures
            old(self).0 is None ==> r is None && final(self).0 is None,
            old(self).0 matches Some(p) ==> (r matches Some(q) && q@ == p@ && opt_path_view(
                final(self).0,
            ) == path_parent(p@)),
    {
        match self.0.take() {
            Some(p) => {
                self.0 = parent_of(p.as_str());
                Some(p)
            },
            None => None,
        }
    }
}

/// The items that a listing of a directory puts on a frontier: its
/// selected sub-items in order, or its error.
pub open spec fn listed<E>(children: Result<Vec<String>, E>) -> Seq<Result<String, E>> {
    match children {
        Ok(v) => Seq::new(v@.len(), |i: int| Ok(v@[i])),
        Err(e) => seq![Err(e)],
    }
}

/// Visits the descendants of an item depth first, in the order of the
/// listings of their directories. The directory reads are the caller's: it
/// hands over the selected, sorted sub-items of the origin, and, after an
/// item, those of that item when it is a directory to delve into.
pub struct ChildrenItemVisitor<E> {
    frontier: Vec<Result<String, E>>,
    last_processed_path: Option<String>,
}

impl<E> ChildrenItemVisitor<E> {
    /// The items still to visit, the next first.
    pub closed spec fn frontier(&self) -> Seq<Result<String, E>> {
        self.frontier@
    }

    /// The last item path visited, if it was not delved into yet.
    pub closed spec fn last_processed(&self) -> Option<Seq<char>> {
        opt_path_view(self.last_processed_path)
    }

    /// A visitor that starts with the sub-items of the origin, or with the
    /// error of listing them.
    pub fn new(children: Result<Vec<String>, E>) -> (r: Self)
        ensures
            r.frontier() == listed(children),
            r.last_processed() is None,
    {
        let mut frontier: Vec<Result<String, E>> = Vec::new();
        match children {
            Err(err) => {
                frontier.push(Err(err));
                proof {
                    assert(frontier@ =~= listed(Err::<Vec<String>, E>(err)));
                }
            },
            Ok(sub_item_paths) => {
                let ghost v = sub_item_paths@;
                let mut rest = sub_item_paths;
                let ghost mut i: int = 0;
                proof {
                    assert(v.skip(0) =~= v);
                }
                while rest.len() > 0
                    invariant
                        0 <= i <= v.len(),
                        rest@ == v.skip(i),
                        frontier@ == Seq::new(i as nat, |k: int| Ok::<String, E>(v[k])),
                    decreases rest.len(),
                {
                    let p = rest.remove(0);
                    proof {
                        assert(v.skip(i)[0] == v[i]);
                        assert(rest@ =~= v.skip(i + 1));
                    }
                    frontier.push(Ok(p));
                    proof {
                        assert(frontier@ =~= Seq::new((i + 1) as nat, |k: int| Ok::<String, E>(v[k])));
                        i = i + 1;
                    }
                }
                proof {
                    assert(frontier@ =~= Seq::new(v.len(), |k: int| Ok::<String, E>(v[k])));
                }
            },
        }
        ChildrenItemVisitor { frontier, last_processed_path: None }
    }

    /// The next item, value or error; the path of a value is kept as the one
    /// to delve into.
    pub fn next(&mut self) -> (r: Option<Result<String, E>>)
        ensures
            old(self).frontier().len() == 0 ==> r is None && final(self).frontier() == old(self).frontier()
                && final(self).last_processed() == old(self).last_processed(),
            old(self).frontier().len() > 0 ==> r == Some(old(self).frontier()[0]) && final(self).frontier()
                == old(self).frontier().drop_first() && final(self).last_processed() == match old(
                self,
            ).frontier()[0] {
                Ok(p) => Some(p@),
                Err(_) => old(self).last_processed(),
            },
    {
        if self.frontier.len() == 0 {
            return None;
        }
        let item = self.frontier.remove(0);
        if let Ok(p) = &item {
            self.last_processed_path = Some(p.clone());
        }
        Some(item)
    }

    /// Takes the last item path visited, to delve into it when it is a
    /// directory; it is delved into once at most.
    pub fn take_last_processed(&mut self) -> (r: Option<String>)
        ensures
            opt_path_view(r) == old(self).last_processed(),
            final(self).last_processed() is None,
            final(self).frontier() == old(self).frontier(),
    {
        self.last_processed_path.take()
    }

    /// Adds the sub-items of the directory delved into: before the rest of
    /// the frontier, in order, or the error of listing them after it.
    pub fn delve(&mut self, children: Result<Vec<String>, E>)
        ensures
            children is Ok ==> final(self).frontier() == listed(children) + old(self).frontier(),
            children is Err ==> final(self).frontier() == old(self).frontier() + listed(children),
            final(self).last_processed() == old(self).last_processed(),
    {
        match children {
            Err(err) => {
                self.frontier.push(Err(err));
                proof {
                    assert(self.frontier@ =~= old(self).frontier@ + listed(Err::<Vec<String>, E>(err)));
                }
            },
            Ok(sub_item_paths) => {
                let ghost v = sub_item_paths@;
                let ghost f = self.frontier@;
                let mut rest = sub_item_paths;
                while rest.len() > 0
                    invariant
                        rest@.len() <= v.len(),
                        rest@ == v.take(rest@.len() as int),
                        self.frontier@ == Seq::new((v.len() - rest@.len()) as nat, |k: int| Ok::<String, E>(v[k + rest@.len()])) + f,
                        self.last_processed_path == old(self).last_processed_path,
                    decreases rest.len(),
                {
                    let ghost n = rest@.len() as int;
                    let p = rest.pop().unwrap();
                    proof {
                        assert(rest@ =~= v.take(n - 1));
                        assert(p == v[n - 1]);
                    }
                    self.frontier.insert(0, Ok(p));
                    proof {
                        assert(self.frontier@ =~= Seq::new((v.len() - (n - 1)) as nat, |k: int| Ok::<String, E>(v[k + (n - 1)])) + f);
                    }
                }
                proof {
                    assert(self.frontier@ =~= Seq::new(v.len(), |k: int| Ok::<String, E>(v[k])) + f);
                }
            },
        }
    }
}

} // verus!