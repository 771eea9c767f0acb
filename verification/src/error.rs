//! Errors of the API and the HTTP answer each one gets.
use vstd::prelude::*;
use crate::text::push_str;

verus! {

/// An error of the API. `Worker` and `SerdeJson` carry the text of an error of
/// the Workers runtime or of the JSON codec.
#[derive(Debug)]
pub enum ApiError {
    NotFound(String),
    BadRequest(String),
    Unauthorized(String),
    RateLimited(String),
    OAuth(String),
    Internal(String),
    Worker(String),
    SerdeJson(String),
}

impl ApiError {
    /// An internal error with the given message.
    pub fn internal(msg: &str) -> (e: ApiError)
        ensures
            e matches ApiError::Internal(m) && m@ == msg@,
    {
        ApiError::Internal(String::from_str(msg))
    }
}

/// The HTTP status of an error: 404, 400, 401, 429, 502 for OAuth failures,
/// and 500 for the rest.
pub open spec fn status_of(e: ApiError) -> u16 {
    match e {
        ApiError::NotFound(_) => 404,
        ApiError::BadRequest(_) => 400,
        ApiError::Unauthorized(_) => 401,
        ApiError::RateLimited(_) => 429,
        ApiError::OAuth(_) => 502,
        ApiError::Internal(_) => 500,
        ApiError::Worker(_) => 500,
        ApiError::SerdeJson(_) => 500,
    }
}

/// The body text of an error: its message, with `worker error: ` or
/// `json error: ` before the text of a runtime or codec error.
pub open spec fn body_of(e: ApiError) -> Seq<char> {
    match e {
        ApiError::NotFound(m) => m@,
        ApiError::BadRequest(m) => m@,
        ApiError::Unauthorized(m) => m@,
        ApiError::RateLimited(m) => m@,
        ApiError::OAuth(m) => m@,
        ApiError::Internal(m) => m@,
        ApiError::Worker(m) => "worker error: "@ + m@,
        ApiError::SerdeJson(m) => "json error: "@ + m@,
    }
}

/// The status code and body text an error is answered with.
pub fn error_response(e: ApiError) -> (r: (u16, String))
    ensures
        r.0 == status_of(e),
        r.1@ == body_of(e),
{
    match e {
        ApiError::NotFound(m) => (404, m),
        ApiError::BadRequest(m) => (400, m),
        ApiError::Unauthorized(m) => (401, m),
        ApiError::RateLimited(m) => (429, m),
        ApiError::OAuth(m) => (502, m),
        ApiError::Internal(m) => (500, m),
        ApiError::Worker(m) => {
            let mut s = String::from_str("worker error: ");
            push_str(&mut s, m.as_str());
            (500, s)
        },
        ApiError::SerdeJson(m) => {
            let mut s = String::from_str("json error: ");
            push_str(&mut s, m.as_str());
            (500, s)
        },
    }
}

} // verus!
