//! Errors of the explorer service.
use vstd::prelude::*;

verus! {

/// Application error type
#[derive(Debug)]
pub enum AppError {
    /// The request is malformed.
    BadRequest(String),
    /// The requested record does not exist.
    NotFound(String),
    /// The service failed.
    Internal(String),
}

/// The HTTP status code answered for `e`.
pub open spec fn status_of(e: AppError) -> u16 {
    match e {
        AppError::BadRequest(_) => 400,
        AppError::NotFound(_) => 404,
        AppError::Internal(_) => 500,
    }
}

/// The message carried by `e`.
pub open spec fn message_of(e: AppError) -> Seq<char> {
    match e {
        AppError::BadRequest(m) => m@,
        AppError::NotFound(m) => m@,
        AppError::Internal(m) => m@,
    }
}

impl AppError {
    /// The HTTP status code of the error response.
    pub fn status_code(&self) -> (code: u16)
        ensures
            code == status_of(*self),
    {
        match self {
            AppError::BadRequest(_) => 400,
            AppError::NotFound(_) => 404,
            AppError::Internal(_) => 500,
        }
    }

    /// The message of the error response.
    pub fn message(&self) -> (message: &str)
        ensures
            message@ == message_of(*self),
    {
        match self {
            AppError::BadRequest(m) => m.as_str(),
            AppError::NotFound(m) => m.as_str(),
            AppError::Internal(m) => m.as_str(),
        }
    }
}

} // verus!
