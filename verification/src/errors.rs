//! The error values that the engine's fallible operations return.

use vstd::prelude::*;

verus! {

/// The distinct failure classes of the engine. Every fallible operation
/// reports exactly one of these.
#[derive(Clone, Copy, Debug, PartialEq, Eq, Structural)]
pub enum ErrorKind {
    /// The type grammar text could not be parsed.
    TypeParse,
    /// A value's shape does not match the declared data type.
    TypeMismatch,
    /// A binary blob is malformed: bad tag, truncated buffer, unknown
    /// enum ordinal, or wrong struct arity.
    CodecDecode,
    /// A registry id, node id, or parent id does not exist.
    NotFound,
    /// The operation is not valid in the current state, such as popping
    /// from an empty list or inserting a duplicate node id.
    InvalidOperation,
    /// The stream was destroyed before the operation.
    Destroyed,
    /// The guest entry point reported a failure.
    GuestFailed,
    /// The observer was cancelled.
    Cancelled,
}

/// An error: a failure class together with a human-readable message.
#[derive(Clone, Debug)]
pub struct CommanderError {
    pub kind: ErrorKind,
    pub message: String,
}

impl CommanderError {
    /// Builds an error of the given class.
    pub fn new(kind: ErrorKind, message: String) -> (r: CommanderError)
        ensures
            r.kind == kind,
            r.message@ == message@,
    {
        CommanderError { kind, message }
    }

    /// The failure class of this error.
    pub fn kind(&self) -> (k: ErrorKind)
        ensures
            k == self.kind,
    {
        self.kind
    }

    /// The human-readable message of this error.
    pub fn message(&self) -> (m: &str)
        ensures
            m@ == self.message@,
    {
        self.message.as_str()
    }
}

} // verus!
