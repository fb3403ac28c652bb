//! The error body that every failed request is answered with.

use vstd::prelude::*;
use vstd::string::StringExecFns;

verus! {

/// The body of a failed request: the HTTP status and a message.
#[derive(Debug)]
pub struct ApiError {
    pub status: u16,
    pub message: String,
}

/// What an `ApiError` holds, as plain values.
pub struct ApiErrorView {
    pub status: u16,
    pub message: Seq<char>,
}

impl View for ApiError {
    type V = ApiErrorView;

    open spec fn view(&self) -> ApiErrorView {
        ApiErrorView { status: self.status, message: self.message@ }
    }
}

/// The reason phrase that the HTTP registry gives for a status, such as
/// `Not Found` for 404; `None` for a status that has none.
pub uninterp spec fn reason_phrase(status: u16) -> Option<Seq<char>>;

/// `http::StatusCode::from_u16` followed by `StatusCode::canonical_reason`.
///
/// Trusted: the result is the phrase that the `http` crate's table holds for
/// the status, and `None` where the table has no entry or the number is no
/// status code at all. Nothing is claimed about which phrases the table holds.
#[verifier::external_body]
fn canonical_reason(status: u16) -> (r: Option<&'static str>)
    ensures
        match r {
            Some(phrase) => reason_phrase(status) == Some(phrase@),
            None => reason_phrase(status) is None,
        },
{
    match axum::http::StatusCode::from_u16(status) {
        Ok(code) => code.canonical_reason(),
        Err(_) => None,
    }
}

/// The message that stands for a status: its reason phrase where the registry
/// has one for it, `Unknown error` otherwise.
pub open spec fn status_message(phrase: Option<Seq<char>>) -> Seq<char> {
    match phrase {
        Some(text) => text,
        None => "Unknown error"@,
    }
}

/// The error body for a status and the reason phrase found for it.
pub fn error_with_reason(status: u16, phrase: Option<&str>) -> (r: ApiError)
    ensures
        r.status == status,
        r.message@ == status_message(
            match phrase {
                Some(text) => Some(text@),
                None => None,
            },
        ),
{
    let message = match phrase {
        Some(text) => String::from_str(text),
        None => String::from_str("Unknown error"),
    };
    ApiError { status, message }
}

/// The error body for a status and a message of the caller's.
pub fn api_error(status: u16, message: &str) -> (r: ApiError)
    ensures
        r@ == (ApiErrorView { status, message: message@ }),
{
    ApiError { status, message: String::from_str(message) }
}

impl From<u16> for ApiError {
    /// The error body that a bare status stands for: the status and its
    /// reason phrase.
    fn from(status: u16) -> (r: ApiError)
        ensures
            r.status == status,
            r.message@ == status_message(reason_phrase(status)),
    {
        error_with_reason(status, canonical_reason(status))
    }
}

impl vstd::std_specs::convert::FromSpecImpl<u16> for ApiError {
    open spec fn obeys_from_spec() -> bool {
        false
    }

    open spec fn from_spec(status: u16) -> ApiError {
        arbitrary()
    }
}

} // verus!
