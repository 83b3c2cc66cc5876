use capauth::authentication::{
    AuthParams, AuthSession, AuthType, EmailAuthType, Flow, InteractiveAuth, PasswordAuthParams,
    UserIdPasswordAuthParams, UserStore, hash_password,
};
use capauth::error::APIError;

fn password_params(user: &str, password: &str, auth_type: AuthType) -> AuthParams {
    AuthParams::Password(PasswordAuthParams::UserId(UserIdPasswordAuthParams {
        auth_type,
        password: password.to_string(),
        user: user.to_string(),
    }))
}

#[test]
fn wire_names_are_fixed() {
    assert_eq!(AuthType::Dummy.wire_name(), "m.login.dummy");
    assert_eq!(
        AuthType::Email(EmailAuthType::Identity).wire_name(),
        "m.login.email.identity"
    );
    assert_eq!(AuthType::OAuth2.wire_name(), "m.login.oauth2");
    assert_eq!(AuthType::Password.wire_name(), "m.login.password");
    assert_eq!(AuthType::ReCaptcha.wire_name(), "m.login.recaptcha");
    assert_eq!(AuthType::Token.wire_name(), "m.login.token");
}

#[test]
fn wire_names_round_trip() {
    let all = vec![
        AuthType::Dummy,
        AuthType::Email(EmailAuthType::Identity),
        AuthType::OAuth2,
        AuthType::Password,
        AuthType::ReCaptcha,
        AuthType::Token,
    ];
    for t in all {
        assert_eq!(AuthType::from_wire_name(t.wire_name()), Some(t));
    }
    assert_eq!(AuthType::from_wire_name("m.login.sms"), None);
    assert_eq!(AuthType::from_wire_name(""), None);
}

#[test]
fn negotiator_completeness() {
    let auth = InteractiveAuth::new(vec![Flow::new(vec![AuthType::Password])]);
    let mut session = AuthSession::new("s1".to_string());
    assert!(!auth.is_satisfied(&session));

    let mut store = UserStore::new();
    assert!(store.register("carl", "secret"));
    let params = password_params("carl", "secret", AuthType::Password);
    let (user, done) = auth
        .process_attempt(&mut session, &params, &store)
        .unwrap();
    assert_eq!(user.id, "carl");
    assert!(done);
    assert!(auth.is_satisfied(&session));
}

#[test]
fn negotiator_alternatives() {
    let auth = InteractiveAuth::new(vec![
        Flow::new(vec![AuthType::Password]),
        Flow::new(vec![AuthType::Dummy]),
    ]);
    let mut session = AuthSession::new("s2".to_string());
    assert!(!auth.is_satisfied(&session));
    session.complete_stage(AuthType::Dummy);
    assert!(auth.is_satisfied(&session));
}

#[test]
fn completing_a_stage_twice_is_idempotent() {
    let mut session = AuthSession::new("s3".to_string());
    session.complete_stage(AuthType::Dummy);
    session.complete_stage(AuthType::Dummy);
    assert_eq!(session.completed_stages().len(), 1);
}

#[test]
fn multi_stage_flow_needs_every_stage() {
    let auth = InteractiveAuth::new(vec![Flow::new(vec![
        AuthType::Password,
        AuthType::ReCaptcha,
    ])]);
    let mut session = AuthSession::new("s4".to_string());
    session.complete_stage(AuthType::Password);
    assert!(!auth.is_satisfied(&session));
    // Order is not enforced: completing the remaining stage suffices.
    session.complete_stage(AuthType::ReCaptcha);
    assert!(auth.is_satisfied(&session));
}

#[test]
fn validate_checks_configured_stages() {
    let auth = InteractiveAuth::new(vec![Flow::new(vec![AuthType::Password])]);
    let good = password_params("carl", "secret", AuthType::Password);
    assert!(auth.validate(&good));
    let dummy_only = InteractiveAuth::new(vec![Flow::new(vec![AuthType::Dummy])]);
    assert!(!dummy_only.validate(&good));
    assert!(std::ptr::eq(auth.with_auth_params(&good), &auth));
}

#[test]
fn authenticate_rejects_bad_credentials() {
    let mut store = UserStore::new();
    assert!(store.register("carl", "secret"));
    assert!(!store.register("carl", "other"));

    let wrong_password = password_params("carl", "guess", AuthType::Password);
    assert_eq!(
        wrong_password.authenticate(&store).map(|_| ()),
        Err(APIError::Unauthorized)
    );

    let unknown_user = password_params("mallory", "secret", AuthType::Password);
    assert_eq!(
        unknown_user.authenticate(&store).map(|_| ()),
        Err(APIError::Unauthorized)
    );

    // The declared stage must be the password stage, checked before lookup.
    let wrong_stage = password_params("carl", "secret", AuthType::Dummy);
    assert_eq!(
        wrong_stage.authenticate(&store).map(|_| ()),
        Err(APIError::Unauthorized)
    );

    let good = password_params("carl", "secret", AuthType::Password);
    let user = good.authenticate(&store).unwrap();
    assert_eq!(user.id, "carl");
    assert_eq!(user.password_hash, hash_password("secret"));
}

#[test]
fn password_hash_is_a_real_digest() {
    let h = hash_password("secret");
    assert_eq!(h.len(), 32);
    assert_ne!(h, b"secret".to_vec());
    assert_eq!(h, hash_password("secret"));
    assert_ne!(h, hash_password("Secret"));
}

#[test]
fn rejected_attempt_does_not_advance_session() {
    let auth = InteractiveAuth::new(vec![Flow::new(vec![AuthType::Password])]);
    let mut store = UserStore::new();
    assert!(store.register("carl", "secret"));
    let mut session = AuthSession::new("s5".to_string());
    let bad = password_params("carl", "wrong", AuthType::Password);
    assert!(auth.process_attempt(&mut session, &bad, &store).is_err());
    assert!(!auth.is_satisfied(&session));
    assert_eq!(session.completed_stages().len(), 0);
}
