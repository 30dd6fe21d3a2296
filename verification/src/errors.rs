//! The error taxonomy of the service and its mapping to HTTP status codes.

use crate::text::join2;
use vstd::prelude::*;

verus! {

/// Everything that can go wrong while serving a request.
#[derive(Debug, PartialEq, Eq)]
pub enum ServiceError {
    /// The store failed in a way the operation did not anticipate.
    DatabaseError(String),
    /// A value did not have the expected textual form.
    FormatError(String),
    /// The entity that the request refers to does not exist.
    NotFound,
    /// The request carries no valid principal.
    Unauthorized,
    /// A fault of the service itself.
    InternalServerError,
    /// The request is not acceptable as it stands.
    BadRequest(String),
    /// The request would create a duplicate of an existing entity.
    AlreadyExists(String),
}

/// The mathematical content of a [`ServiceError`]: the kind and the message
/// as a sequence of characters.
pub enum ErrorView {
    DatabaseError(Seq<char>),
    FormatError(Seq<char>),
    NotFound,
    Unauthorized,
    InternalServerError,
    BadRequest(Seq<char>),
    AlreadyExists(Seq<char>),
}

impl Clone for ServiceError {
    fn clone(&self) -> (copy: Self)
        ensures
            copy == *self,
    {
        match self {
            ServiceError::DatabaseError(m) => ServiceError::DatabaseError(m.clone()),
            ServiceError::FormatError(m) => ServiceError::FormatError(m.clone()),
            ServiceError::NotFound => ServiceError::NotFound,
            ServiceError::Unauthorized => ServiceError::Unauthorized,
            ServiceError::InternalServerError => ServiceError::InternalServerError,
            ServiceError::BadRequest(m) => ServiceError::BadRequest(m.clone()),
            ServiceError::AlreadyExists(m) => ServiceError::AlreadyExists(m.clone()),
        }
    }
}

impl View for ServiceError {
    type V = ErrorView;

    open spec fn view(&self) -> ErrorView {
        match self {
            ServiceError::DatabaseError(m) => ErrorView::DatabaseError(m@),
            ServiceError::FormatError(m) => ErrorView::FormatError(m@),
            ServiceError::NotFound => ErrorView::NotFound,
            ServiceError::Unauthorized => ErrorView::Unauthorized,
            ServiceError::InternalServerError => ErrorView::InternalServerError,
            ServiceError::BadRequest(m) => ErrorView::BadRequest(m@),
            ServiceError::AlreadyExists(m) => ErrorView::AlreadyExists(m@),
        }
    }
}

/// The HTTP status code that answers an error of the given kind.
pub open spec fn status_of(e: ErrorView) -> int {
    match e {
        ErrorView::DatabaseError(_) => 500,
        ErrorView::FormatError(_) => 400,
        ErrorView::NotFound => 404,
        ErrorView::Unauthorized => 401,
        ErrorView::InternalServerError => 500,
        ErrorView::BadRequest(_) => 400,
        ErrorView::AlreadyExists(_) => 409,
    }
}

/// The line that describes an error to a reader of the log.
pub open spec fn message_of(e: ErrorView) -> Seq<char> {
    match e {
        ErrorView::DatabaseError(m) => "Database error: "@ + m,
        ErrorView::FormatError(m) => "Format error: "@ + m,
        ErrorView::NotFound => "Not found"@,
        ErrorView::Unauthorized => "Unauthorized"@,
        ErrorView::InternalServerError => "Internal server error"@,
        ErrorView::BadRequest(m) => "Bad request: "@ + m,
        ErrorView::AlreadyExists(m) => "Already exists: "@ + m,
    }
}

impl ServiceError {
    /// The HTTP status code of the response that reports this error.
    pub fn status(&self) -> (code: u16)
        ensures
            code == status_of(self@),
    {
        match self {
            ServiceError::DatabaseError(_) => 500,
            ServiceError::FormatError(_) => 400,
            ServiceError::NotFound => 404,
            ServiceError::Unauthorized => 401,
            ServiceError::InternalServerError => 500,
            ServiceError::BadRequest(_) => 400,
            ServiceError::AlreadyExists(_) => 409,
        }
    }

    /// The text of this error, as it is written to the log.
    pub fn message(&self) -> (text: String)
        ensures
            text@ == message_of(self@),
    {
        match self {
            ServiceError::DatabaseError(m) => join2("Database error: ", m.as_str()),
            ServiceError::FormatError(m) => join2("Format error: ", m.as_str()),
            ServiceError::NotFound => "Not found".to_owned(),
            ServiceError::Unauthorized => "Unauthorized".to_owned(),
            ServiceError::InternalServerError => "Internal server error".to_owned(),
            ServiceError::BadRequest(m) => join2("Bad request: ", m.as_str()),
            ServiceError::AlreadyExists(m) => join2("Already exists: ", m.as_str()),
        }
    }
}

} // verus!
