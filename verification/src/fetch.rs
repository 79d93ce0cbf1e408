//! How a failed download of the pricing catalog is reported.

use vstd::prelude::*;

use crate::text::{chars_of, string_from_chars};

verus! {

/// Seconds allowed for connecting to the catalog server.
pub const CONNECT_TIMEOUT_SECS: u64 = 10;

/// Seconds allowed for the whole request.
pub const REQUEST_TIMEOUT_SECS: u64 = 30;

/// What went wrong while fetching a JSON document, as the HTTP client
/// reported it.
#[derive(Clone, Copy, Debug, PartialEq, Eq, Structural)]
pub enum FetchFailure {
    /// The client could not be built.
    Build,
    /// Sending the request failed; `timed_out` when a timeout expired.
    Send { timed_out: bool },
    /// The server answered with an error status, absent when unknown.
    BadStatus { status: Option<u16> },
    /// The body was not a JSON document.
    Decode,
}

/// Why a JSON document could not be fetched.
#[derive(Debug)]
pub enum FetchError {
    /// The HTTP client could not be built.
    ClientBuild,
    /// The request to `url` timed out.
    Timeout { url: String },
    /// The request to `url` failed.
    Fetch { url: String },
    /// `url` answered with an error status (0 when unknown).
    Status { url: String, status: u16 },
    /// The body from `url` was not a JSON document.
    JsonDecode { url: String },
}

/// The error reported for `failure` while fetching `url`: a send failure is
/// a timeout exactly when a timeout expired, and an unknown error status is
/// reported as 0.
pub fn fetch_error(url: &str, failure: FetchFailure) -> (r: FetchError)
    ensures
        match failure {
            FetchFailure::Build => r is ClientBuild,
            FetchFailure::Send { timed_out } => if timed_out {
                r matches FetchError::Timeout { url: u } && u@ == url@
            } else {
                r matches FetchError::Fetch { url: u } && u@ == url@
            },
            FetchFailure::BadStatus { status } => r matches FetchError::Status { url: u, status: s }
                && u@ == url@ && s == match status {
                Some(code) => code,
                None => 0u16,
            },
            FetchFailure::Decode => r matches FetchError::JsonDecode { url: u } && u@ == url@,
        },
{
    let owned = string_from_chars(chars_of(url).as_slice());
    match failure {
        FetchFailure::Build => FetchError::ClientBuild,
        FetchFailure::Send { timed_out } => {
            if timed_out {
                FetchError::Timeout { url: owned }
            } else {
                FetchError::Fetch { url: owned }
            }
        },
        FetchFailure::BadStatus { status } => {
            let code = match status {
                Some(c) => c,
                None => 0,
            };
            FetchError::Status { url: owned, status: code }
        },
        FetchFailure::Decode => FetchError::JsonDecode { url: owned },
    }
}

} // verus!
