//! User access tokens.

use vstd::prelude::*;
use vstd::utf8::encode_utf8;
use crate::error::APIError;
use crate::token::{create_macaroon, issued_data};
use crate::transport::b64_chars_of;
use crate::wire::token_bytes;

verus! {

/// A User access token, as persisted by the storage collaborator.
#[derive(Debug)]
pub struct AccessToken {
    /// The access token's ID, generated by storage.
    pub id: i64,
    /// The ID of the user who owns the access token.
    pub user_id: String,
    /// The value of the access token: a Base64-encoded macaroon.
    pub value: String,
    /// The time the access token was created, in storage's clock units.
    pub created_at: i64,
}

/// A new access token, not yet saved.
#[derive(Debug)]
pub struct NewAccessToken {
    /// The ID of the user who owns the access token.
    pub user_id: String,
    /// The value of the access token: a Base64-encoded macaroon.
    pub value: String,
}

/// Builds a new access token record for the given user, minting a macaroon
/// that expires one hour after `now`. Persisting the record is the storage
/// collaborator's part.
pub fn create_access_token(user_id: &str, macaroon_secret_key: &Vec<u8>, now: u64) -> (r: Result<
    NewAccessToken,
    APIError,
>)
    ensures
        (r is Ok) == (now + 3600 <= u64::MAX && encode_utf8(user_id@).len() <= 0xFFFF),
        r matches Ok(t) ==> t.user_id@ == user_id@ && t.value@ == b64_chars_of(
            token_bytes(
                issued_data(macaroon_secret_key@, encode_utf8(user_id@), (now + 3600) as nat),
            ),
        ) && (forall|b: Seq<u8>|
            b64_chars_of(b) == t.value@ ==> b == token_bytes(
                issued_data(macaroon_secret_key@, encode_utf8(user_id@), (now + 3600) as nat),
            )),
        r is Ok ==> crate::wire::wf_data(
            issued_data(macaroon_secret_key@, encode_utf8(user_id@), (now + 3600) as nat),
        ),
        r matches Err(e) ==> e == APIError::IssuanceFailed,
{
    let value = create_macaroon(macaroon_secret_key, user_id, now);
    match value {
        Err(_) => Err(APIError::IssuanceFailed),
        Ok(value) => Ok(NewAccessToken { user_id: user_id.to_owned(), value }),
    }
}

} // verus!
