//! The error type shared by every fallible function of the library.

use vstd::prelude::*;

verus! {

/// Why an operation failed.
#[derive(Clone, Copy, Debug, PartialEq, Eq, Structural)]
pub enum ErrorKind {
    /// A path without any component was given.
    EmptyPath,
    /// The environment reported a failure; the message carries its cause.
    Os,
    /// An assumption about how paths split and resolve was violated.
    Inconsistent,
    /// Any other failure, described by its message alone.
    Other,
}

/// A failure, with a message meant for the user.
#[derive(Debug)]
pub struct Error {
    kind: ErrorKind,
    message: String,
}

/// What an [`Error`] holds, as plain values.
pub struct ErrorView {
    pub kind: ErrorKind,
    pub message: Seq<char>,
}

impl View for Error {
    type V = ErrorView;

    closed spec fn view(&self) -> ErrorView {
        ErrorView { kind: self.kind, message: self.message@ }
    }
}

/// The message of the error for a path without components.
pub open spec fn empty_path_message() -> Seq<char> {
    "Empty file path provided as an argument"@
}

/// The message that attaches a cause reported by the environment to the
/// text of the path it was reported for.
pub open spec fn os_message(path: Seq<char>, cause: Seq<char>) -> Seq<char> {
    path + ": "@ + cause
}

/// The message of an internal inconsistency met while processing a path.
pub open spec fn inconsistent_message(path: Seq<char>) -> Seq<char> {
    path + ": an unknown error occurred while processing this path"@
}

/// The failure for a path without components.
pub open spec fn empty_path_failure() -> ErrorView {
    ErrorView { kind: ErrorKind::EmptyPath, message: empty_path_message() }
}

/// The failure for a cause that the environment reported for the path with
/// the given text.
pub open spec fn os_failure(path: Seq<char>, cause: Seq<char>) -> ErrorView {
    ErrorView { kind: ErrorKind::Os, message: os_message(path, cause) }
}

/// The failure for an internal inconsistency met while processing the path
/// with the given text.
pub open spec fn inconsistent_failure(path: Seq<char>) -> ErrorView {
    ErrorView { kind: ErrorKind::Inconsistent, message: inconsistent_message(path) }
}

impl Error {
    /// An error of kind [`ErrorKind::Other`] with the given message.
    pub fn new(message: String) -> (e: Error)
        ensures
            e@ == (ErrorView { kind: ErrorKind::Other, message: message@ }),
    {
        Error { kind: ErrorKind::Other, message }
    }

    /// The error for a path without components.
    pub fn empty_path() -> (e: Error)
        ensures
            e@ == empty_path_failure(),
    {
        Error {
            kind: ErrorKind::EmptyPath,
            message: String::from_str("Empty file path provided as an argument"),
        }
    }

    /// The error for a failure that the environment reported for `path`.
    pub fn os(path: &str, cause: &str) -> (e: Error)
        ensures
            e@ == os_failure(path@, cause@),
    {
        let mut message = String::from_str(path);
        message.append(": ");
        message.append(cause);
        Error { kind: ErrorKind::Os, message }
    }

    /// The error for an internal inconsistency met while processing `path`.
    pub fn inconsistent(path: &str) -> (e: Error)
        ensures
            e@ == inconsistent_failure(path@),
    {
        let mut message = String::from_str(path);
        message.append(": an unknown error occurred while processing this path");
        Error { kind: ErrorKind::Inconsistent, message }
    }

    /// Why the operation failed.
    pub fn kind(&self) -> (kind: ErrorKind)
        ensures
            kind == self@.kind,
    {
        self.kind
    }

    /// The message for the user.
    pub fn message(&self) -> (message: &str)
        ensures
            message@ == self@.message,
    {
        self.message.as_str()
    }
}

} // verus!
