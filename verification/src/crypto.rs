//! Trusted bindings to the cryptographic primitives: a keyed MAC for the
//! token's signature chain and a one-way hash for stored passwords.
//!
//! Both results are functions of their arguments alone; the library never
//! states what the bytes are, only that equal inputs give equal outputs.

use vstd::prelude::*;

verus! {

/// The HMAC-SHA-256 tag of `msg` under `key`.
pub uninterp spec fn mac_of(key: Seq<u8>, msg: Seq<u8>) -> Seq<u8>;

/// The SHA-256 digest of `msg`.
pub uninterp spec fn hash_of(msg: Seq<u8>) -> Seq<u8>;

/// Relies on `hmac::Hmac<sha2::Sha256>` (`KeyInit::new_from_slice`,
/// `Mac::update`, `Mac::finalize`): the tag is a deterministic function of
/// key and message and is 32 bytes long. `new_from_slice` accepts keys of
/// any length for HMAC, so the `expect` never fires.
#[verifier::external_body]
pub(crate) fn hmac_sha256(key: &Vec<u8>, msg: &Vec<u8>) -> (r: Vec<u8>)
    ensures
        r@ == mac_of(key@, msg@),
        r@.len() == 32,
{
    let mut m = <hmac::Hmac<sha2::Sha256> as hmac::KeyInit>::new_from_slice(key.as_slice())
        .expect("HMAC accepts keys of any length");
    hmac::Mac::update(&mut m, msg.as_slice());
    hmac::Mac::finalize(m).into_bytes().to_vec()
}

/// Relies on `sha2::Sha256` (`Digest::digest`): the digest is a
/// deterministic function of the message and is 32 bytes long.
#[verifier::external_body]
pub(crate) fn sha256(msg: &Vec<u8>) -> (r: Vec<u8>)
    ensures
        r@ == hash_of(msg@),
        r@.len() == 32,
{
    <sha2::Sha256 as sha2::Digest>::digest(msg.as_slice()).to_vec()
}

} // verus!
