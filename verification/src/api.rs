//! The API half's client-visible error shape: every failure is structured
//! JSON with a stable `errors[].detail` form, so client tooling can parse
//! failures uniformly.

use vstd::prelude::*;

use crate::RegistryError;

pub mod publish;

verus! {

/// One error detail.
#[derive(Debug)]
pub struct ErrorResponseInner {
    pub detail: String,
}

/// A client-visible error: the HTTP status and the details.
#[derive(Debug)]
pub struct ErrorResponse {
    pub status_code: u16,
    pub errors: Vec<ErrorResponseInner>,
}

impl ErrorResponse {
    /// Build the uniform error body for a status code and a registry error.
    pub fn from_error(err: (u16, RegistryError)) -> (r: ErrorResponse)
        ensures
            r.status_code == err.0,
            r.errors@.len() == 1,
            r.errors@[0].detail@ == err.1.spec_message(),
    {
        let (status_code, e) = err;
        let mut errors: Vec<ErrorResponseInner> = Vec::new();
        errors.push(ErrorResponseInner { detail: e.message() });
        ErrorResponse { status_code, errors }
    }
}

} // verus!
