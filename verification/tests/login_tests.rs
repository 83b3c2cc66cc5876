use capauth::authentication::{
    AuthParams, AuthSession, AuthType, Flow, InteractiveAuth, PasswordAuthParams,
    UserIdPasswordAuthParams, UserStore,
};
use capauth::access_token::create_access_token;
use capauth::caveat::VerificationContext;
use capauth::error::APIError;
use capauth::login::Login;
use capauth::token::verify;

fn key() -> Vec<u8> {
    b"macaroon-secret-key".to_vec()
}

#[test]
fn valid_credentials() {
    // Register the principal, then negotiate a login with matching
    // credentials and check the completion response end to end.
    let mut store = UserStore::new();
    assert!(store.register("carl", "secret"));

    let auth = InteractiveAuth::new(vec![Flow::new(vec![AuthType::Password])]);
    let mut session = AuthSession::new("s1".to_string());
    let params = AuthParams::Password(PasswordAuthParams::UserId(UserIdPasswordAuthParams {
        auth_type: AuthType::Password,
        password: "secret".to_string(),
        user: "carl".to_string(),
    }));
    let (user, done) = auth
        .process_attempt(&mut session, &params, &store)
        .unwrap();
    assert!(done);

    let response = Login::handle(&user.id, "ruma.test", &key(), 1000).unwrap();
    assert!(!response.access_token.is_empty());
    assert_eq!(response.home_server, "ruma.test");
    assert_eq!(response.user_id, "carl");
    let context = VerificationContext {
        expected_user_id: "carl".to_string(),
        expected_type: "access".to_string(),
        now: 1500,
    };
    assert!(verify(&key(), &response.access_token, &context).is_ok());

    // The same login with a wrong password is rejected and the fresh
    // session does not advance.
    let mut fresh = AuthSession::new("s2".to_string());
    let wrong = AuthParams::Password(PasswordAuthParams::UserId(UserIdPasswordAuthParams {
        auth_type: AuthType::Password,
        password: "hunter2".to_string(),
        user: "carl".to_string(),
    }));
    assert_eq!(
        auth.process_attempt(&mut fresh, &wrong, &store).map(|_| ()),
        Err(APIError::Unauthorized)
    );
    assert!(!auth.is_satisfied(&fresh));
}

#[test]
fn access_token_record_carries_the_minted_value() {
    let record = create_access_token("carl", &key(), 1000).unwrap();
    assert_eq!(record.user_id, "carl");
    let context = VerificationContext {
        expected_user_id: "carl".to_string(),
        expected_type: "access".to_string(),
        now: 2000,
    };
    assert!(verify(&key(), &record.value, &context).is_ok());
}

#[test]
fn issuance_failure_reports_a_generic_message() {
    let err = create_access_token("carl", &key(), u64::MAX).unwrap_err();
    assert_eq!(err, APIError::IssuanceFailed);
    assert_eq!(err.message(), "issuance failed");
    assert_eq!(APIError::Unauthorized.message(), "unauthorized");
    assert_eq!(APIError::MalformedRequest.message(), "malformed request");
}
