//! The error taxonomy: structural validation failures, capacity limits and
//! unsupported requests, each with a human-readable message.

use vstd::prelude::*;

verus! {

/// The class of a failure.
#[derive(Clone, Copy, PartialEq, Eq, Structural, Debug)]
pub enum ErrorKind {
    /// A structural problem detected before touching native storage:
    /// duplicate entry, missing required entry, mutually exclusive options,
    /// or a qualifier that cannot be translated.
    Validation,
    /// The entry count exceeds the platform's supported bound.
    CapacityExceeded,
    /// The request is structurally impossible on this platform or object.
    NotSupported,
}

/// An error returned by the library, carrying its class and a message that
/// identifies the offending entry and the violated invariant.
#[derive(Debug)]
pub struct AclError {
    /// The class of the failure.
    pub kind: ErrorKind,
    /// The human-readable description.
    pub message: String,
}

impl AclError {
    /// An error of the given class with the given message.
    pub fn new(kind: ErrorKind, message: String) -> (r: AclError)
        ensures
            r.kind == kind,
            r.message@ == message@,
    {
        AclError { kind, message }
    }

    /// The message text.
    pub fn text(&self) -> (r: &str)
        ensures
            r@ == self.message@,
    {
        self.message.as_str()
    }
}

} // verus!
