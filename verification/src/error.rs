//! The errors of the library.

use vstd::prelude::*;
use vstd::string::*;

use crate::mutex::AtomicMutexErr;
use crate::text;
use crate::text::append_signed;

verus! {

/// What can go wrong in setting up or configuring a stack.
#[derive(Debug)]
pub enum Error {
    /// The stack answered with an error code.
    LwIP(i8),
    /// A lock was held.
    AtomicMutexErr(AtomicMutexErr),
    /// A runtime setting is not valid.
    RuntimeConfig(String),
}

impl Error {
    /// The text of the error.
    pub open spec fn text(&self) -> Seq<char> {
        match self {
            Error::LwIP(code) => "LwIP error ("@ + text::signed_decimal(*code as int) + ")"@,
            Error::AtomicMutexErr(_) => "AtomicMutexErr AtomicMutexErr"@,
            Error::RuntimeConfig(message) => "runtime configuration error: "@ + message@,
        }
    }

    /// Whether this is a configuration error with the given message.
    pub open spec fn configures(&self, message: Seq<char>) -> bool {
        self matches Error::RuntimeConfig(text) && text@ == message
    }

    /// The message of the error.
    pub fn message(&self) -> (message: String)
        ensures
            message@ == self.text(),
    {
        match self {
            Error::LwIP(code) => {
                let mut message = "LwIP error (".to_owned();
                append_signed(&mut message, *code);
                message.append(")");
                message
            },
            Error::AtomicMutexErr(_) => "AtomicMutexErr AtomicMutexErr".to_owned(),
            Error::RuntimeConfig(text) => {
                let mut message = "runtime configuration error: ".to_owned();
                message.append(text.as_str());
                message
            },
        }
    }
}

impl From<AtomicMutexErr> for Error {
    fn from(error: AtomicMutexErr) -> (converted: Self) {
        Error::AtomicMutexErr(error)
    }
}

impl vstd::std_specs::convert::FromSpecImpl<AtomicMutexErr> for Error {
    open spec fn obeys_from_spec() -> bool {
        true
    }

    open spec fn from_spec(error: AtomicMutexErr) -> Self {
        Error::AtomicMutexErr(error)
    }
}

} // verus!
