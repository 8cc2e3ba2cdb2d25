//! The error that stands for a broken invariant of the library itself.
use vstd::prelude::*;

verus! {

/// What went wrong inside the library.
#[derive(Clone, Copy, Debug, PartialEq, Eq)]
pub enum InternalErrorKind {
    NonTerminalIndexBeyondBoundaries,
}

/// A failure that no input should provoke: it reports a bug, not bad data.
#[derive(Clone, Copy, Debug, PartialEq, Eq)]
pub struct InternalError(InternalErrorKind);

impl InternalError {
    /// An internal error of the given kind.
    pub fn new(kind: InternalErrorKind) -> (r: InternalError)
        ensures
            r.kind() == kind,
    {
        InternalError(kind)
    }

    /// The kind of the error.
    pub closed spec fn kind(&self) -> InternalErrorKind {
        self.0
    }
}

} // verus!
