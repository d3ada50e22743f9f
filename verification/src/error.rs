//! Error taxonomy of the storage engine.

use vstd::prelude::*;

verus! {

/// Failure categories surfaced by the engine.
///
/// `NotFound`: a reference resolves to no item. `AmbiguousReference`: a
/// partial reference matches more than one item. `AlreadyExists`: a
/// create or rename destination collides after retries are exhausted.
/// `InvalidState`: the operation is not permitted in the item's current
/// status. `ValidationError`: an input is empty after trimming or
/// otherwise ill-formed. `IoError`: a file system failure reported by
/// the caller. `ParseError`: a malformed metadata header.
#[derive(Debug, Clone, Copy, PartialEq, Eq, Structural)]
pub enum Error {
    NotFound,
    AmbiguousReference,
    AlreadyExists,
    InvalidState,
    ValidationError,
    IoError,
    ParseError,
}

impl Error {
    /// Short description of the failure, for presentation by callers.
    pub fn describe(&self) -> (r: &'static str)
        ensures
            r@.len() > 0,
    {
        proof {
            reveal_strlit("reference does not resolve to any item");
            reveal_strlit("reference matches more than one item");
            reveal_strlit("destination already exists");
            reveal_strlit("operation not permitted in current status");
            reveal_strlit("invalid input");
            reveal_strlit("file system failure");
            reveal_strlit("malformed metadata header");
        }
        match self {
            Error::NotFound => "reference does not resolve to any item",
            Error::AmbiguousReference => "reference matches more than one item",
            Error::AlreadyExists => "destination already exists",
            Error::InvalidState => "operation not permitted in current status",
            Error::ValidationError => "invalid input",
            Error::IoError => "file system failure",
            Error::ParseError => "malformed metadata header",
        }
    }
}

} // verus!
