//! Errors that a call to the store can end in.

use vstd::prelude::*;
use vstd::string::StringExecFns;

verus! {

/// What went wrong with a store call.
#[derive(Debug, Clone, Copy, PartialEq, Eq, Structural)]
pub enum ErrorKind {
    /// The connection could not be made or was lost.
    Connectivity,
    /// The store answered with something that could not be understood.
    Protocol,
    /// The thing asked for does not exist.
    NotFound,
}

/// A failed store call: its kind and the text to show for it.
#[derive(Debug, Clone, PartialEq, Eq)]
pub struct Error {
    pub kind: ErrorKind,
    pub message: String,
}

/// The mathematical value of an [`Error`].
pub ghost struct ErrorView {
    pub kind: ErrorKind,
    pub message: Seq<char>,
}

impl View for Error {
    type V = ErrorView;

    open spec fn view(&self) -> ErrorView {
        ErrorView { kind: self.kind, message: self.message@ }
    }
}

impl Error {
    /// An error of the given kind with the given text.
    pub fn new(kind: ErrorKind, message: &str) -> (r: Error)
        ensures
            r@ == (ErrorView { kind, message: message@ }),
    {
        Error { kind, message: String::from_str(message) }
    }
}

} // verus!
