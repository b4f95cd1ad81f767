//! One error type for every request handler, with the status and stable code
//! each failure is answered with.
use vstd::prelude::*;

verus! {

/// Why a request failed.
#[derive(Debug)]
pub enum AppError {
    /// No such share, or it expired.
    NotFound,
    /// The presented capability was missing or wrong.
    Unauthorized,
    /// Signed in, but not allowed.
    Forbidden,
    /// The request itself was malformed; the message says how.
    BadRequest(String),
    /// The upload exceeded the configured size limit.
    TooLarge,
    /// The share has no downloads left.
    Exhausted,
    /// Something failed inside the server; the message is for the log only.
    Internal(String),
}

/// The HTTP status and the stable error code for each kind of failure.
pub open spec fn status_and_code(e: AppError) -> (u16, Seq<char>) {
    match e {
        AppError::NotFound => (404, "not_found"@),
        AppError::Unauthorized => (401, "unauthorized"@),
        AppError::Forbidden => (403, "forbidden"@),
        AppError::BadRequest(_) => (400, "bad_request"@),
        AppError::TooLarge => (413, "too_large"@),
        AppError::Exhausted => (410, "exhausted"@),
        AppError::Internal(_) => (500, "internal"@),
    }
}

/// The message a client is shown for each kind of failure. Internal
/// failures are reported opaquely: the client never learns about storage
/// topology or backend errors.
pub open spec fn client_message(e: AppError) -> Seq<char> {
    match e {
        AppError::NotFound => "not found"@,
        AppError::Unauthorized => "unauthorized"@,
        AppError::Forbidden => "forbidden"@,
        AppError::BadRequest(m) => m@,
        AppError::TooLarge => "file is larger than the configured limit"@,
        AppError::Exhausted => "this link has no downloads left"@,
        AppError::Internal(_) => "internal server error"@,
    }
}

impl AppError {
    /// The HTTP status and the stable error code.
    pub fn parts(&self) -> (r: (u16, &'static str))
        ensures
            r.0 == status_and_code(*self).0,
            r.1@ == status_and_code(*self).1,
    {
        match self {
            AppError::NotFound => (404, "not_found"),
            AppError::Unauthorized => (401, "unauthorized"),
            AppError::Forbidden => (403, "forbidden"),
            AppError::BadRequest(_) => (400, "bad_request"),
            AppError::TooLarge => (413, "too_large"),
            AppError::Exhausted => (410, "exhausted"),
            AppError::Internal(_) => (500, "internal"),
        }
    }

    /// The message the response body carries.
    pub fn client_message(&self) -> (m: String)
        ensures
            m@ == client_message(*self),
    {
        match self {
            AppError::NotFound => "not found".to_owned(),
            AppError::Unauthorized => "unauthorized".to_owned(),
            AppError::Forbidden => "forbidden".to_owned(),
            AppError::BadRequest(m) => m.clone(),
            AppError::TooLarge => "file is larger than the configured limit".to_owned(),
            AppError::Exhausted => "this link has no downloads left".to_owned(),
            AppError::Internal(_) => "internal server error".to_owned(),
        }
    }
}

} // verus!
