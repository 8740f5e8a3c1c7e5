//! Error taxonomy of the core and its mapping onto HTTP statuses.

use vstd::prelude::*;

verus! {

/// The kinds of failure the core reports.  Each carries a human-readable
/// message; the HTTP surface maps the kind onto a status code.
#[derive(Debug)]
pub enum CoreError {
    NotFound(String),
    AlreadyExists(String),
    Unauthorized(String),
    Forbidden(String),
    Validation(String),
    Database(String),
    Internal(String),
}

/// The HTTP status that each error kind maps to.
pub open spec fn spec_status_of(e: CoreError) -> int {
    match e {
        CoreError::NotFound(_) => 404,
        CoreError::AlreadyExists(_) => 409,
        CoreError::Unauthorized(_) => 401,
        CoreError::Forbidden(_) => 403,
        CoreError::Validation(_) => 400,
        CoreError::Database(_) => 500,
        CoreError::Internal(_) => 500,
    }
}

/// The message an error surfaces over the wire.  Database errors are
/// scrubbed: the stored message is internal detail and must not leak.
pub open spec fn spec_message_of(e: CoreError) -> Seq<char> {
    match e {
        CoreError::NotFound(m) => m@,
        CoreError::AlreadyExists(m) => m@,
        CoreError::Unauthorized(m) => m@,
        CoreError::Forbidden(m) => m@,
        CoreError::Validation(m) => m@,
        CoreError::Database(_) => "Internal database error"@,
        CoreError::Internal(m) => m@,
    }
}

/// An error as the HTTP surface reports it: a status code and the message
/// placed in the response body.
pub struct ApiError {
    pub status: u16,
    pub message: String,
}

impl ApiError {
    /// Map a core error onto its wire form: the status of its kind and its
    /// message, with database detail scrubbed.
    pub fn from_core(e: CoreError) -> (r: ApiError)
        ensures
            r.status as int == spec_status_of(e),
            r.message@ == spec_message_of(e),
    {
        match e {
            CoreError::NotFound(m) => ApiError { status: 404, message: m },
            CoreError::AlreadyExists(m) => ApiError { status: 409, message: m },
            CoreError::Unauthorized(m) => ApiError { status: 401, message: m },
            CoreError::Forbidden(m) => ApiError { status: 403, message: m },
            CoreError::Validation(m) => ApiError { status: 400, message: m },
            CoreError::Database(_) => ApiError {
                status: 500,
                message: String::from_str("Internal database error"),
            },
            CoreError::Internal(m) => ApiError { status: 500, message: m },
        }
    }
}

} // verus!
