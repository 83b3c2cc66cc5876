//! Trusted bindings to the text-safe transport encoding of token bytes.

use vstd::prelude::*;

verus! {

/// The base64 (standard alphabet, padded) text of a byte string.
pub uninterp spec fn b64_chars_of(b: Seq<u8>) -> Seq<char>;

/// Relies on `base64::engine::general_purpose::STANDARD` (`Engine::encode`):
/// the text is a deterministic function of the bytes, and the encoding is
/// injective — `Engine::decode` recovers the bytes from it, so no other byte
/// string yields the same text.
#[verifier::external_body]
pub(crate) fn b64_encode(b: &Vec<u8>) -> (r: String)
    ensures
        r@ == b64_chars_of(b@),
        forall|b2: Seq<u8>| b64_chars_of(b2) == r@ ==> b2 == b@,
{
    base64::Engine::encode(&base64::engine::general_purpose::STANDARD, b.as_slice())
}

/// Relies on `base64::engine::general_purpose::STANDARD` (`Engine::decode`):
/// the engine requires canonical padding and rejects non-zero trailing bits,
/// so it accepts exactly the canonical encodings and inverts
/// `Engine::encode`. Decoding failure means no byte string encodes to the
/// input.
#[verifier::external_body]
pub(crate) fn b64_decode(s: &str) -> (r: Option<Vec<u8>>)
    ensures
        r is Some ==> b64_chars_of(r->Some_0@) == s@,
        forall|b: Seq<u8>| s@ == b64_chars_of(b) ==> r is Some && r->Some_0@ == b,
{
    match base64::Engine::decode(&base64::engine::general_purpose::STANDARD, s.as_bytes()) {
        Ok(d) => Some(d),
        Err(_) => None,
    }
}

} // verus!
