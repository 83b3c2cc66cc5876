//! The computation behind the login endpoint: minting an access token for
//! an authenticated principal and assembling the completion response.

use vstd::prelude::*;
use vstd::utf8::encode_utf8;
use crate::access_token::create_access_token;
use crate::error::APIError;
use crate::token::issued_data;
use crate::transport::b64_chars_of;
use crate::wire::token_bytes;

verus! {

/// The /login endpoint.
pub struct Login;

/// The negotiation completion response handed back to the client.
#[derive(Debug)]
pub struct LoginResponse {
    /// The transport encoding of the freshly minted token.
    pub access_token: String,
    /// The home server's identifier, from process configuration.
    pub home_server: String,
    /// The authenticated principal's id.
    pub user_id: String,
}

impl Login {
    /// Handles one successfully negotiated login: mints an access token for
    /// the principal and assembles the response. The caller persists the
    /// token record and sends the response.
    pub fn handle(user_id: &str, home_server: &str, macaroon_secret_key: &Vec<u8>, now: u64) -> (r:
        Result<LoginResponse, APIError>)
        ensures
            (r is Ok) == (now + 3600 <= u64::MAX && encode_utf8(user_id@).len() <= 0xFFFF),
            r matches Ok(resp) ==> resp.user_id@ == user_id@ && resp.home_server@ == home_server@
                && resp.access_token@ == b64_chars_of(
                token_bytes(
                    issued_data(macaroon_secret_key@, encode_utf8(user_id@), (now + 3600) as nat),
                ),
            ),
            r matches Err(e) ==> e == APIError::IssuanceFailed,
    {
        let access_token = create_access_token(user_id, macaroon_secret_key, now);
        match access_token {
            Err(_) => Err(APIError::IssuanceFailed),
            Ok(access_token) => Ok(
                LoginResponse {
                    access_token: access_token.value,
                    home_server: home_server.to_owned(),
                    user_id: access_token.user_id,
                },
            ),
        }
    }
}

} // verus!
