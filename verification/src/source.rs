//! Where the metadata of an item is read from: files beside the item or
//! inside it.

use vstd::prelude::*;

verus! {

/// Where a metadata file stands relative to the item it describes.
#[derive(Clone, Copy, Debug, PartialEq, Eq, Hash, Structural)]
pub enum Anchor {
    /// Beside the item, in its parent directory.
    External,
    /// Inside the item, which is a directory.
    Internal,
}

/// A metadata file name with its anchor.
#[derive(Clone, Debug, PartialEq, Eq, Hash)]
pub struct Source {
    pub file_name: String,
    pub anchor: Anchor,
}

impl Source {
    /// The source of a file name with an anchor.
    pub fn from_name(name: String, anchor: Anchor) -> (r: Source)
        ensures
            r.file_name@ == name@,
            r.anchor == anchor,
    {
        Source { file_name: name, anchor }
    }
}

/// The view of a source: its file name and anchor.
pub open spec fn source_pair(s: Source) -> (Seq<char>, Anchor) {
    (s.file_name@, s.anchor)
}

/// The sources of metadata that a library reads, in order.
pub struct Sourcer(pub Vec<Source>);

impl Sourcer {
    /// The sources, in order.
    pub open spec fn sources(&self) -> Seq<(Seq<char>, Anchor)> {
        Seq::new(self.0@.len(), |i: int| source_pair(self.0@[i]))
    }

    /// The sources, in order.
    pub fn as_sources(&self) -> (r: &Vec<Source>)
        ensures
            r@ == self.0@,
    {
        &self.0
    }
}

} // verus!
