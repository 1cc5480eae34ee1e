//! The admin surface's error type: which status a failure answers with and
//! what the caller is told.  Turning this into an HTTP response happens
//! outside this crate.

use vstd::prelude::*;

use vstd::string::{StringExecFns, StrSliceExecFns};

verus! {

/// A failure the admin surface reports.
#[derive(Debug)]
pub enum AppError {
    DbError(String),
    NotFound,
}

impl AppError {
    /// The status code the failure answers with.
    pub fn status_code(&self) -> (r: u16)
        ensures
            r == match self {
                AppError::DbError(_) => 500u16,
                AppError::NotFound => 404u16,
            },
    {
        match self {
            AppError::DbError(_) => 500,
            AppError::NotFound => 404,
        }
    }

    /// The text the caller sees: the store's error verbatim, or the plain
    /// not-found line.
    pub fn message(&self) -> (r: String)
        ensures
            match self {
                AppError::DbError(e) => r@ == e@,
                AppError::NotFound => r@ == "Resource not found"@,
            },
    {
        match self {
            AppError::DbError(e) => String::from_str(e.as_str()),
            AppError::NotFound => String::from_str("Resource not found"),
        }
    }
}

} // verus!
