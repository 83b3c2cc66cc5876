use capauth::caveat::VerificationContext;
use hmac::Mac;
use capauth::error::APIError;
use capauth::token::{create, create_macaroon, parse_capability_token, serialize_token, verify};

fn ctx(user: &str, typ: &str, now: u64) -> VerificationContext {
    VerificationContext {
        expected_user_id: user.to_string(),
        expected_type: typ.to_string(),
        now,
    }
}

fn key() -> Vec<u8> {
    b"macaroon-secret-key".to_vec()
}

#[test]
fn round_trip() {
    let token = create_macaroon(&key(), "carl", 1000).unwrap();
    assert!(verify(&key(), &token, &ctx("carl", "access", 1500)).is_ok());
}

#[test]
fn round_trip_empty_user() {
    let token = create_macaroon(&key(), "", 1000).unwrap();
    assert!(verify(&key(), &token, &ctx("", "access", 1500)).is_ok());
}

#[test]
fn decoded_token_carries_expected_caveats() {
    let token = create_macaroon(&key(), "carl", 1000).unwrap();
    let bytes = base64::Engine::decode(
        &base64::engine::general_purpose::STANDARD,
        token.as_bytes(),
    )
    .unwrap();
    let parsed = parse_capability_token(&bytes).unwrap();
    assert_eq!(parsed.identifier, b"key".to_vec());
    assert_eq!(parsed.caveats.len(), 3);
    assert_eq!(parsed.caveats[0].predicate, b"user_id = carl".to_vec());
    assert_eq!(parsed.caveats[1].predicate, b"type = access".to_vec());
    assert_eq!(parsed.caveats[2].predicate, b"time < 4600".to_vec());
    assert_eq!(parsed.signature.len(), 32);
    let reserialized = serialize_token(&parsed);
    assert_eq!(reserialized, bytes);
}

#[test]
fn tamper_any_byte_fails() {
    let token = create_macaroon(&key(), "carl", 1000).unwrap();
    let bytes = base64::Engine::decode(
        &base64::engine::general_purpose::STANDARD,
        token.as_bytes(),
    )
    .unwrap();
    for i in 0..bytes.len() {
        let mut flipped = bytes.clone();
        flipped[i] ^= 0x01;
        let forged =
            base64::Engine::encode(&base64::engine::general_purpose::STANDARD, &flipped);
        assert_eq!(
            verify(&key(), &forged, &ctx("carl", "access", 1500)),
            Err(APIError::Unauthorized),
            "flipping byte {} must invalidate the token",
            i
        );
    }
}

#[test]
fn wrong_key_fails() {
    let token = create_macaroon(&key(), "carl", 1000).unwrap();
    let other = b"a-different-secret".to_vec();
    assert_eq!(
        verify(&other, &token, &ctx("carl", "access", 1500)),
        Err(APIError::Unauthorized)
    );
}

#[test]
fn expiry_boundary() {
    // Created at 1000 with a one-hour budget: expires at 4600.
    let token = create_macaroon(&key(), "carl", 1000).unwrap();
    assert!(verify(&key(), &token, &ctx("carl", "access", 1000 + 3599)).is_ok());
    assert_eq!(
        verify(&key(), &token, &ctx("carl", "access", 1000 + 3600)),
        Err(APIError::Unauthorized)
    );
    assert_eq!(
        verify(&key(), &token, &ctx("carl", "access", 1000 + 3601)),
        Err(APIError::Unauthorized)
    );
}

#[test]
fn cross_subject_fails() {
    let token = create_macaroon(&key(), "carl", 1000).unwrap();
    assert_eq!(
        verify(&key(), &token, &ctx("bob", "access", 1500)),
        Err(APIError::Unauthorized)
    );
}

#[test]
fn wrong_purpose_fails() {
    let token = create_macaroon(&key(), "carl", 1000).unwrap();
    assert_eq!(
        verify(&key(), &token, &ctx("carl", "refresh", 1500)),
        Err(APIError::Unauthorized)
    );
}

#[test]
fn malformed_transport_fails() {
    assert_eq!(
        verify(&key(), "!!!not-base64!!!", &ctx("carl", "access", 1500)),
        Err(APIError::Unauthorized)
    );
    assert_eq!(
        verify(&key(), "", &ctx("carl", "access", 1500)),
        Err(APIError::Unauthorized)
    );
    // Valid base64 of garbage bytes: the layout parse must fail.
    let garbage = base64::Engine::encode(&base64::engine::general_purpose::STANDARD, b"xyz");
    assert_eq!(
        verify(&key(), &garbage, &ctx("carl", "access", 1500)),
        Err(APIError::Unauthorized)
    );
}

#[test]
fn expiry_overflow_is_issuance_failure() {
    assert_eq!(
        create_macaroon(&key(), "carl", u64::MAX),
        Err(APIError::IssuanceFailed)
    );
    assert_eq!(
        create(&key(), &b"carl".to_vec(), u64::MAX - 100, 101).map(|_| ()),
        Err(APIError::IssuanceFailed)
    );
}

#[test]
fn unknown_caveat_fails_closed() {
    // Hand-build a token whose single caveat is unrecognized but whose
    // chain is correctly signed: verification must still refuse it.
    let k = key();
    let mac = |mk: &[u8], msg: &[u8]| -> Vec<u8> {
        let mut m = <hmac::Hmac<sha2::Sha256> as hmac::KeyInit>::new_from_slice(mk).unwrap();
        m.update(msg);
        m.finalize().into_bytes().to_vec()
    };
    let base = mac(&k, b"key");
    let s0 = mac(&base, b"quota = 3");
    let mut bytes: Vec<u8> = Vec::new();
    bytes.extend_from_slice(&0u32.to_be_bytes()); // empty location
    bytes.extend_from_slice(&3u32.to_be_bytes());
    bytes.extend_from_slice(b"key");
    bytes.extend_from_slice(&1u32.to_be_bytes()); // one caveat
    bytes.extend_from_slice(&9u32.to_be_bytes());
    bytes.extend_from_slice(b"quota = 3");
    bytes.extend_from_slice(&s0);
    bytes.extend_from_slice(&s0); // final signature
    let forged = base64::Engine::encode(&base64::engine::general_purpose::STANDARD, &bytes);
    assert_eq!(
        verify(&k, &forged, &ctx("carl", "access", 1500)),
        Err(APIError::Unauthorized)
    );
}
