//! Error kinds surfaced by the library.

use vstd::prelude::*;

verus! {

/// The failure conditions of token issuance, token verification, and
/// authentication attempts.
///
/// `Unauthorized` never carries detail about why a check failed, so a caller
/// cannot be used as an oracle. `IssuanceFailed` reports an internal failure
/// while minting a token (such as an expiry computation overflowing the
/// representable time range) behind a generic message. `MalformedRequest`
/// reports parameters that do not match the expected shape of any stage.
#[derive(Clone, Copy, Debug, PartialEq, Eq, Structural)]
pub enum APIError {
    Unauthorized,
    IssuanceFailed,
    MalformedRequest,
}

impl APIError {
    /// A generic, opaque message for the client; detail never leaves the server.
    pub fn message(&self) -> (r: &'static str)
        ensures
            self is Unauthorized ==> r@ == "unauthorized"@,
            self is IssuanceFailed ==> r@ == "issuance failed"@,
            self is MalformedRequest ==> r@ == "malformed request"@,
    {
        match self {
            APIError::Unauthorized => "unauthorized",
            APIError::IssuanceFailed => "issuance failed",
            APIError::MalformedRequest => "malformed request",
        }
    }
}

} // verus!
