//! Requests, answers and failures.

use crate::value::PostcardValue;
use vstd::prelude::*;
use vstd::string::StringExecFns;

verus! {

/// A request: a statement and the values for its placeholders, in order.
#[derive(Debug, PartialEq, Eq)]
pub struct QueryRequest {
    pub sql: String,
    pub params: Vec<PostcardValue>,
}

/// An answer: the rows, each an object whose fields are the row's columns in
/// their order.
#[derive(Debug, PartialEq, Eq)]
pub struct QueryResponse {
    pub rows: Vec<PostcardValue>,
}

/// Why a request fails.
#[derive(Debug, PartialEq, Eq)]
pub enum QueryError {
    /// A parameter is of no kind that can be bound.
    BadRequest,
    /// The database failed; its message.
    Upstream(String),
    /// A payload of the cache is not the byte form of a list of rows.
    Serialization,
}

/// The content of a [`QueryError`].
pub ghost enum ErrorView {
    BadRequest,
    Upstream(Seq<char>),
    Serialization,
}

impl View for QueryError {
    type V = ErrorView;

    open spec fn view(&self) -> ErrorView {
        match self {
            QueryError::BadRequest => ErrorView::BadRequest,
            QueryError::Upstream(message) => ErrorView::Upstream(message@),
            QueryError::Serialization => ErrorView::Serialization,
        }
    }
}

/// The HTTP status that reports a failure: 400 for a bad request, 500 for
/// every other.
pub open spec fn status_of(error: ErrorView) -> u16 {
    if error is BadRequest {
        400
    } else {
        500
    }
}

impl QueryError {
    /// The HTTP status that reports this failure: 400 for a bad request, 500
    /// for every other.
    pub fn status_code(&self) -> (code: u16)
        ensures
            code == status_of(self@),
    {
        match self {
            QueryError::BadRequest => 400,
            _ => 500,
        }
    }

    /// The plain text that reports this failure. For a failure of the
    /// database it is the database's own message.
    pub fn message(&self) -> (text: String)
        ensures
            text@ == match self@ {
                ErrorView::BadRequest => "Unsupported parameter type"@,
                ErrorView::Upstream(message) => message,
                ErrorView::Serialization => "Malformed cache payload"@,
            },
    {
        match self {
            QueryError::BadRequest => String::from_str("Unsupported parameter type"),
            QueryError::Upstream(message) => message.clone(),
            QueryError::Serialization => String::from_str("Malformed cache payload"),
        }
    }
}

} // verus!
