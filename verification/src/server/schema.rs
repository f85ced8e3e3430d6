//! The request and response bodies of the OpenAI-compatible speech API.

use vstd::prelude::*;

verus! {

/// How a synthesised result is delivered.
#[derive(Debug, Clone, Copy, PartialEq, Eq, Structural)]
pub enum StreamFormat {
    /// The encoded audio file as the response body.
    Audio,
    /// The encoded audio as a stream of server-sent events.
    Sse,
}

impl Default for StreamFormat {
    fn default() -> (f: Self)
        ensures
            f == StreamFormat::Audio,
    {
        StreamFormat::Audio
    }
}

/// The body of every error response: `{"error": {...}}`.
#[derive(Debug, Clone)]
pub struct ErrorResponse {
    pub error: ErrorDetail,
}

/// What went wrong, in the fields an OpenAI client reads.
#[derive(Debug, Clone)]
pub struct ErrorDetail {
    pub message: String,
    /// Serialised under the key `type`.
    pub type_: String,
    pub param: Option<String>,
    pub code: Option<String>,
}

/// The characters of an optional string.
pub open spec fn opt_view(o: Option<String>) -> Option<Seq<char>> {
    match o {
        Some(s) => Some(s@),
        None => None,
    }
}

/// The characters of an optional string slice.
pub open spec fn opt_str_view(o: Option<&str>) -> Option<Seq<char>> {
    match o {
        Some(s) => Some(s@),
        None => None,
    }
}

fn owned_opt(o: Option<&str>) -> (r: Option<String>)
    ensures
        opt_view(r) == opt_str_view(o),
{
    match o {
        Some(s) => Some(s.to_owned()),
        None => None,
    }
}

impl ErrorResponse {
    /// An error body with the given message, type, parameter and code.
    pub fn new(message: &str, type_: &str, param: Option<&str>, code: Option<&str>) -> (r: Self)
        ensures
            r.error.message@ == message@,
            r.error.type_@ == type_@,
            opt_view(r.error.param) == opt_str_view(param),
            opt_view(r.error.code) == opt_str_view(code),
    {
        ErrorResponse {
            error: ErrorDetail {
                message: message.to_owned(),
                type_: type_.to_owned(),
                param: owned_opt(param),
                code: owned_opt(code),
            },
        }
    }
}

/// One entry of the model list.
#[derive(Debug, Clone)]
pub struct ModelObject {
    pub id: String,
    pub object: String,
    pub created: u64,
    pub owned_by: String,
}

/// The body of `GET /v1/models`.
#[derive(Debug, Clone)]
pub struct ModelListResponse {
    pub object: String,
    pub data: Vec<ModelObject>,
}

/// One entry of the voice list.
#[derive(Debug, Clone)]
pub struct VoiceObject {
    pub id: String,
    pub name: String,
    pub model_version: String,
    pub prompt_lang: String,
    pub text_lang: String,
}

/// The body of `GET /v1/voices`.
#[derive(Debug, Clone)]
pub struct VoiceListResponse {
    pub object: String,
    pub data: Vec<VoiceObject>,
}

/// A service status report.
#[derive(Debug, Clone)]
pub struct HealthResponse {
    pub status: String,
    pub engine: String,
    pub version: String,
    pub available_permits: usize,
}

} // verus!
