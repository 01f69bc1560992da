//! Composing the metadata of an item from several sources.

use vstd::prelude::*;

use crate::source::{Anchor, Source};

verus! {

/// The sources of metadata, in the order in which they were added.
pub struct Compositor(pub Vec<Source>);

/// A source as its name and anchor.
pub open spec fn source_view(s: Source) -> (Seq<char>, Anchor) {
    (s.file_name@, s.anchor)
}

impl Compositor {
    /// The sources of this compositor, in order.
    pub open spec fn sources(&self) -> Seq<(Seq<char>, Anchor)> {
        Seq::new(self.0@.len(), |i: int| source_view(self.0@[i]))
    }

    /// A compositor without sources.
    pub fn new() -> (r: Self)
        ensures
            r.sources() == Seq::<(Seq<char>, Anchor)>::empty(),
    {
        Compositor(Vec::new())
    }

    /// Adds a source with a file name and an anchor.
    fn add_source(&mut self, file_name: String, anchor: Anchor) -> (r: &mut Self)
        ensures
            r.sources() == old(self).sources().push((file_name@, anchor)),
            *final(self) == *final(r),
    {
        let src = Source { file_name, anchor };
        self.0.push(src);
        proof {
            assert(self.sources() =~= old(self).sources().push((file_name@, anchor)));
        }
        self
    }

    /// Adds a source beside the item.
    pub fn external(&mut self, file_name: String) -> (r: &mut Self)
        ensures
            r.sources() == old(self).sources().push((file_name@, Anchor::External)),
            *final(self) == *final(r),
    {
        self.add_source(file_name, Anchor::External)
    }

    /// Adds a source inside the item.
    pub fn internal(&mut self, file_name: String) -> (r: &mut Self)
        ensures
            r.sources() == old(self).sources().push((file_name@, Anchor::Internal)),
            *final(self) == *final(r),
    {
        self.add_source(file_name, Anchor::Internal)
    }

    /// Composes the metadata of the item at a path: nothing is composed yet,
    /// and the compositor is left as it is.
    pub fn compose(&self, item_path: &str) {
    }
}

} // verus!
