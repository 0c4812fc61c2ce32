//! Error taxonomy of the library.

use vstd::prelude::*;

verus! {

/// The classes of failure the library reports.
#[derive(Clone, Copy, Debug, PartialEq, Eq, Structural)]
pub enum ErrorKind {
    /// A required environment value is absent.
    Config,
    /// A requested catalog entry has no backing file.
    NotFound,
    /// A filesystem read or write failed.
    Io,
    /// The compositor socket could not be used.
    Protocol,
    /// A response could not be decoded.
    Decode,
    /// An input value was rejected at the boundary.
    Validation,
}

/// An error with its class and a human-readable message.
#[derive(Clone, Debug)]
pub struct VelaError {
    pub kind: ErrorKind,
    pub message: String,
}

impl VelaError {
    pub fn new(kind: ErrorKind, message: String) -> (r: VelaError)
        ensures
            r.kind == kind,
            r.message@ == message@,
    {
        VelaError { kind, message }
    }

    pub fn kind(&self) -> (k: ErrorKind)
        ensures
            k == self.kind,
    {
        self.kind
    }

    /// The message, for callers that must report the failure.
    pub fn message(&self) -> (m: String)
        ensures
            m@ == self.message@,
    {
        self.message.clone()
    }
}

} // verus!
