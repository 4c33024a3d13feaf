//! The errors that the services answer with.

use vstd::prelude::*;

verus! {

#[derive(Clone, Copy, Debug, PartialEq, Eq, Structural)]
pub enum ErrorKind {
    /// The caller has not shown who they are.
    Unauthorized,
    /// Something failed on this side.
    Internal,
    /// The body of a request cannot be read.
    BodyParsing,
    /// The path of a request cannot be read.
    PathParsing,
    /// A store that this side relies on failed.
    Storage,
}

/// What went wrong: its kind, what caused it and what else there is to say.
#[derive(Debug, PartialEq, Eq)]
pub struct Error {
    pub kind: ErrorKind,
    pub cause: Option<String>,
    pub details: Option<String>,
}

pub struct ErrorView {
    pub kind: ErrorKind,
    pub cause: Option<Seq<char>>,
    pub details: Option<Seq<char>>,
}

/// What an optional string holds.
pub open spec fn optional_text(text: Option<String>) -> Option<Seq<char>> {
    match text {
        Some(text) => Some(text@),
        None => None,
    }
}

impl View for Error {
    type V = ErrorView;

    open spec fn view(&self) -> ErrorView {
        ErrorView {
            kind: self.kind,
            cause: optional_text(self.cause),
            details: optional_text(self.details),
        }
    }
}

/// What an optional error holds.
pub open spec fn optional_error(error: Option<Error>) -> Option<ErrorView> {
    match error {
        Some(error) => Some(error@),
        None => None,
    }
}

/// An error with a cause.
pub open spec fn error_from(kind: ErrorKind, cause: Seq<char>) -> ErrorView {
    ErrorView { kind, cause: Some(cause), details: None }
}

/// An error with details and no cause.
pub open spec fn error_with_details(kind: ErrorKind, details: Seq<char>) -> ErrorView {
    ErrorView { kind, cause: None, details: Some(details) }
}

impl Error {
    pub fn internal(cause: String) -> (error: Self)
        ensures
            error@ == error_from(ErrorKind::Internal, cause@),
            error == (Error { kind: ErrorKind::Internal, cause: Some(cause), details: None }),
    {
        Error { kind: ErrorKind::Internal, cause: Some(cause), details: None }
    }

    pub fn internal_with_details(details: String) -> (error: Self)
        ensures
            error@ == error_with_details(ErrorKind::Internal, details@),
            error == (Error { kind: ErrorKind::Internal, cause: None, details: Some(details) }),
    {
        Error { kind: ErrorKind::Internal, cause: None, details: Some(details) }
    }

    pub fn unauthorized(cause: String, details: String) -> (error: Self)
        ensures
            error@ == (ErrorView {
                kind: ErrorKind::Unauthorized,
                cause: Some(cause@),
                details: Some(details@),
            }),
            error == (Error { kind: ErrorKind::Unauthorized, cause: Some(cause), details: Some(details) }),
    {
        Error { kind: ErrorKind::Unauthorized, cause: Some(cause), details: Some(details) }
    }

    pub fn unauthorized_with_details(details: String) -> (error: Self)
        ensures
            error@ == error_with_details(ErrorKind::Unauthorized, details@),
            error == (Error { kind: ErrorKind::Unauthorized, cause: None, details: Some(details) }),
    {
        Error { kind: ErrorKind::Unauthorized, cause: None, details: Some(details) }
    }

    pub fn body_parsing(cause: String) -> (error: Self)
        ensures
            error@ == error_from(ErrorKind::BodyParsing, cause@),
            error == (Error { kind: ErrorKind::BodyParsing, cause: Some(cause), details: None }),
    {
        Error { kind: ErrorKind::BodyParsing, cause: Some(cause), details: None }
    }

    pub fn path_parsing(cause: String) -> (error: Self)
        ensures
            error@ == error_from(ErrorKind::PathParsing, cause@),
            error == (Error { kind: ErrorKind::PathParsing, cause: Some(cause), details: None }),
    {
        Error { kind: ErrorKind::PathParsing, cause: Some(cause), details: None }
    }

    pub fn storage(cause: String) -> (error: Self)
        ensures
            error@ == error_from(ErrorKind::Storage, cause@),
            error == (Error { kind: ErrorKind::Storage, cause: Some(cause), details: None }),
    {
        Error { kind: ErrorKind::Storage, cause: Some(cause), details: None }
    }
}

/// An error shows its kind, its cause and its details as they are.
pub proof fn law_errors_show_what_they_hold(error: Error)
    ensures
        error@.kind == error.kind,
        match (error@.cause, error.cause) {
            (Some(shown), Some(held)) => shown == held@,
            (None, None) => true,
            _ => false,
        },
        match (error@.details, error.details) {
            (Some(shown), Some(held)) => shown == held@,
            (None, None) => true,
            _ => false,
        },
        optional_error(Some(error)) == Some(error@),
        optional_error(None) is None,
{
}

/// An error that is made from a cause tells the cause and no more; one that is
/// made from details tells these and no cause.
pub proof fn law_errors_tell_their_reason(kind: ErrorKind, reason: Seq<char>)
    ensures
        error_from(kind, reason).kind == kind,
        error_from(kind, reason).cause == Some(reason),
        error_from(kind, reason).details is None,
        error_with_details(kind, reason).kind == kind,
        error_with_details(kind, reason).cause is None,
        error_with_details(kind, reason).details == Some(reason),
{
}

} // verus!
