//! The errors the API answers with, and the HTTP status and body of each.

use vstd::prelude::*;
use crate::server::schema::{ErrorResponse, opt_view, opt_str_view};

verus! {

/// An error answered to an API client.  The two optional fields of
/// `BadRequest` and `NotFound` are the offending parameter and an error code.
#[derive(Debug, Clone)]
pub enum AppError {
    BadRequest(String, Option<&'static str>, Option<&'static str>),
    Unauthorized(String),
    NotFound(String, Option<&'static str>, Option<&'static str>),
    RateLimit(String),
    Internal(String),
}

/// The message an error carries.
pub open spec fn error_message(e: AppError) -> Seq<char> {
    match e {
        AppError::BadRequest(m, _, _) => m@,
        AppError::Unauthorized(m) => m@,
        AppError::NotFound(m, _, _) => m@,
        AppError::RateLimit(m) => m@,
        AppError::Internal(m) => m@,
    }
}

/// The HTTP status an error is answered with.
pub open spec fn error_status(e: AppError) -> u16 {
    match e {
        AppError::BadRequest(..) => 400,
        AppError::Unauthorized(..) => 401,
        AppError::NotFound(..) => 404,
        AppError::RateLimit(..) => 429,
        AppError::Internal(..) => 500,
    }
}

/// The `type` field of the body an error is answered with.
pub open spec fn error_type(e: AppError) -> Seq<char> {
    match e {
        AppError::RateLimit(..) => "rate_limit_error"@,
        AppError::Internal(..) => "api_error"@,
        _ => "invalid_request_error"@,
    }
}

/// The `param` field of the body an error is answered with.
pub open spec fn error_param(e: AppError) -> Option<Seq<char>> {
    match e {
        AppError::BadRequest(_, p, _) => opt_str_view(p),
        AppError::NotFound(_, p, _) => opt_str_view(p),
        _ => None,
    }
}

/// The `code` field of the body an error is answered with.
pub open spec fn error_code(e: AppError) -> Option<Seq<char>> {
    match e {
        AppError::BadRequest(_, _, c) => opt_str_view(c),
        AppError::NotFound(_, _, c) => opt_str_view(c),
        AppError::Unauthorized(..) => Some("invalid_api_key"@),
        AppError::RateLimit(..) => Some("rate_limit_exceeded"@),
        AppError::Internal(..) => Some("internal_error"@),
    }
}

/// The prefix of an error's one-line description.
pub open spec fn error_label(e: AppError) -> Seq<char> {
    match e {
        AppError::BadRequest(..) => "Bad Request: "@,
        AppError::Unauthorized(..) => "Unauthorized: "@,
        AppError::NotFound(..) => "Not Found: "@,
        AppError::RateLimit(..) => "Rate Limit Exceeded: "@,
        AppError::Internal(..) => "Internal Server Error: "@,
    }
}

impl AppError {
    /// The HTTP status code of the response.
    pub fn status_code(&self) -> (r: u16)
        ensures
            r == error_status(*self),
    {
        match self {
            AppError::BadRequest(..) => 400,
            AppError::Unauthorized(..) => 401,
            AppError::NotFound(..) => 404,
            AppError::RateLimit(..) => 429,
            AppError::Internal(..) => 500,
        }
    }

    /// The message the error carries.
    pub fn message(&self) -> (r: &String)
        ensures
            r@ == error_message(*self),
    {
        match self {
            AppError::BadRequest(m, _, _) => m,
            AppError::Unauthorized(m) => m,
            AppError::NotFound(m, _, _) => m,
            AppError::RateLimit(m) => m,
            AppError::Internal(m) => m,
        }
    }

    /// The JSON body of the response.
    pub fn to_error_response(&self) -> (r: ErrorResponse)
        ensures
            r.error.message@ == error_message(*self),
            r.error.type_@ == error_type(*self),
            opt_view(r.error.param) == error_param(*self),
            opt_view(r.error.code) == error_code(*self),
    {
        match self {
            AppError::BadRequest(msg, param, code) => ErrorResponse::new(
                msg.as_str(),
                "invalid_request_error",
                *param,
                *code,
            ),
            AppError::Unauthorized(msg) => ErrorResponse::new(
                msg.as_str(),
                "invalid_request_error",
                None,
                Some("invalid_api_key"),
            ),
            AppError::NotFound(msg, param, code) => ErrorResponse::new(
                msg.as_str(),
                "invalid_request_error",
                *param,
                *code,
            ),
            AppError::RateLimit(msg) => ErrorResponse::new(
                msg.as_str(),
                "rate_limit_error",
                None,
                Some("rate_limit_exceeded"),
            ),
            AppError::Internal(msg) => ErrorResponse::new(
                msg.as_str(),
                "api_error",
                None,
                Some("internal_error"),
            ),
        }
    }

    /// A one-line description: a label for the kind of error, then the
    /// message, as in `Not Found: Voice 'x' not found in voice presets.`.
    pub fn display_text(&self) -> (r: String)
        ensures
            r@ == error_label(*self) + error_message(*self),
    {
        let label = match self {
            AppError::BadRequest(..) => "Bad Request: ",
            AppError::Unauthorized(..) => "Unauthorized: ",
            AppError::NotFound(..) => "Not Found: ",
            AppError::RateLimit(..) => "Rate Limit Exceeded: ",
            AppError::Internal(..) => "Internal Server Error: ",
        };
        let mut r = label.to_owned();
        r.append(self.message().as_str());
        r
    }
}

} // verus!
