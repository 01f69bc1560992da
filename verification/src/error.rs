//! Errors of working with the items of a library.

use vstd::prelude::*;

verus! {

/// The ways in which working with item paths can fail, with the path
/// concerned where there is one.
#[derive(Clone, Eq, PartialEq, Debug, Hash)]
pub enum ErrorKind {
    InvalidDirPath(String),
    InvalidFilePath(String),
    NonexistentPath(String),
    NoPathParent(String),
    CannotReadDir(String),
    CannotReadDirEntry,
    MalformedMetadata(String),
}

/// An error of working with the items of a library.
#[derive(Clone, Eq, PartialEq, Debug, Hash)]
pub struct Error {
    kind: ErrorKind,
}

impl Error {
    /// The kind of this error, in specifications.
    pub closed spec fn spec_kind(self) -> ErrorKind {
        self.kind
    }

    /// The error of a kind.
    pub fn from_kind(kind: ErrorKind) -> (r: Error)
        ensures
            r.spec_kind() == kind,
    {
        Error { kind }
    }

    /// The kind of this error.
    pub fn kind(&self) -> (r: &ErrorKind)
        ensures
            *r == self.spec_kind(),
    {
        &self.kind
    }
}

} // verus!
