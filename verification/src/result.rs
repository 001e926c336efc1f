//! Error taxonomy shared by every operation of the broker.

use vstd::prelude::*;

verus! {

/// What can go wrong in an operation of the broker.
#[derive(Clone, Copy, Debug, PartialEq, Eq, Structural)]
pub enum JasmineError {
    /// An outbound connection to a subscriber or to a peer could not be opened.
    ConnectionError,
    /// Any other failure of the transport underneath.
    UnknownError,
}

/// The result of an operation of the broker.
pub type JasmineResult<T> = Result<T, JasmineError>;

impl JasmineError {
    /// The text shown to a caller for this error.
    pub fn message(&self) -> (text: &'static str)
        ensures
            text@ == (match *self {
                JasmineError::ConnectionError => "connection error"@,
                JasmineError::UnknownError => "unknown error"@,
            }),
    {
        match self {
            JasmineError::ConnectionError => "connection error",
            JasmineError::UnknownError => "unknown error",
        }
    }
}

} // verus!
