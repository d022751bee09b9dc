//! The envelope in which every command answers its caller.

use crate::text::{contains, occurs_in};
use vstd::prelude::*;

verus! {

/// An answer to a command: a status code and a message, and then either the
/// payload of a success or the text of the failure behind it.
#[derive(Debug)]
pub struct ApiResponse<T> {
    pub code: u16,
    pub message: String,
    pub data: Option<T>,
    pub error: Option<String>,
}

impl<T> ApiResponse<T> {
    /// Whether this is the answer `200 OK` that carries `data`.
    pub open spec fn is_success(self, data: T) -> bool {
        &&& self.code == 200
        &&& self.message@ == "OK"@
        &&& self.data == Some(data)
        &&& self.error is None
    }

    /// Whether this is the failure with the given code, message and error
    /// text, carrying no payload.
    pub open spec fn is_error(self, code: u16, message: Seq<char>, error: Seq<char>) -> bool {
        &&& self.code == code
        &&& self.message@ == message
        &&& self.data is None
        &&& self.error matches Some(e) && e@ == error
    }

    /// The answer to a command that succeeded with `data`.
    pub fn success(data: T) -> (r: Self)
        ensures
            r.is_success(data),
    {
        ApiResponse { code: 200, message: "OK".to_owned(), data: Some(data), error: None }
    }

    /// The answer to a command that failed.
    pub fn error(code: u16, message: &str, error: &str) -> (r: Self)
        ensures
            r.is_error(code, message@, error@),
    {
        ApiResponse { code, message: message.to_owned(), data: None, error: Some(error.to_owned()) }
    }
}

impl<T> ApiResponse<T> {
    /// The answer for the outcome of a command: a success carries its value;
    /// a failure whose text speaks of a `connection` is answered with 503,
    /// any other with 500.
    pub fn from_result(result: Result<T, String>) -> (r: Self)
        ensures
            match result {
                Ok(data) => r.is_success(data),
                Err(text) => if occurs_in("connection"@, text@) {
                    r.is_error(503, "Service Unavailable"@, text@)
                } else {
                    r.is_error(500, "Internal Server Error"@, text@)
                },
            },
    {
        match result {
            Ok(data) => ApiResponse::success(data),
            Err(text) => {
                if contains(text.as_str(), "connection") {
                    ApiResponse::error(503, "Service Unavailable", text.as_str())
                } else {
                    ApiResponse::error(500, "Internal Server Error", text.as_str())
                }
            },
        }
    }
}

impl<T> From<Result<T, String>> for ApiResponse<T> {
    /// The same as `ApiResponse::from_result`.
    fn from(result: Result<T, String>) -> (r: Self)
        ensures
            match result {
                Ok(data) => r.is_success(data),
                Err(text) => if occurs_in("connection"@, text@) {
                    r.is_error(503, "Service Unavailable"@, text@)
                } else {
                    r.is_error(500, "Internal Server Error"@, text@)
                },
            },
    {
        ApiResponse::from_result(result)
    }
}

impl<T> vstd::std_specs::convert::FromSpecImpl<Result<T, String>> for ApiResponse<T> {
    open spec fn obeys_from_spec() -> bool {
        false
    }

    open spec fn from_spec(result: Result<T, String>) -> Self {
        arbitrary()
    }
}

} // verus!
