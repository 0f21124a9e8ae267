//! Outcomes of the pollable operations.

use vstd::prelude::*;

verus! {

/// What kind of failure an I/O operation met.
#[derive(Clone, Copy, Debug, PartialEq, Eq, Structural)]
pub enum ErrorKind {
    AlreadyExists,
    BrokenPipe,
    Interrupted,
    InvalidInput,
    Other,
    WouldBlock,
}

/// A failed I/O operation: its kind and the message that describes it.
#[derive(Debug)]
pub struct IoError {
    pub kind: ErrorKind,
    pub message: String,
}

impl IoError {
    /// The kind and the text of the error.
    pub open spec fn describes(&self, kind: ErrorKind, message: Seq<char>) -> bool {
        self.kind == kind && self.message@ == message
    }

    /// An error with a fixed message.
    pub fn new(kind: ErrorKind, message: &str) -> (error: Self)
        ensures
            error.describes(kind, message@),
    {
        IoError { kind, message: message.to_owned() }
    }
}

/// The state of an operation that may have to wait.
#[derive(Debug, PartialEq, Eq)]
pub enum Poll<T> {
    Ready(T),
    Pending,
}

} // verus!
