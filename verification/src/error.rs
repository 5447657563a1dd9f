//! Errors of network operations.
use vstd::prelude::*;
use crate::text::owned;

verus! {

/// What kind of error it is.
#[derive(Clone, Copy, Debug, PartialEq, Eq, Structural)]
pub enum ErrorKind {
    AddrInUse,
    BrokenPipe,
    ConnectionRefused,
    InvalidData,
    InvalidInput,
    Other,
    PermissionDenied,
    TimedOut,
    UnexpectedEof,
    Unsupported,
}

/// An error of a network operation.
#[derive(Debug)]
pub struct NetError {
    pub kind: ErrorKind,
    pub message: String,
}

impl NetError {
    /// Whether the error has this kind and message.
    pub open spec fn says(&self, kind: ErrorKind, message: Seq<char>) -> bool {
        self.kind == kind && self.message@ == message
    }

    /// An error with a message.
    pub fn new(kind: ErrorKind, message: &str) -> (r: Self)
        ensures
            r.says(kind, message@),
    {
        NetError { kind, message: owned(message) }
    }
}

} // verus!
