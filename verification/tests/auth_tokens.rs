//! Exercises the authentication boundary with the real token library.

use portfolio_api::auth::{
    authenticate_user, decode_claims, encode_claims, require_admin, AdminConfig, AuthMiddleware,
    AuthenticatedUser, Claims, User,
};
use portfolio_api::error::AppError;
use portfolio_api::routes::auth::{login, LoginRequest};

fn user() -> User {
    User { id: "1".to_string(), name: "Admin".to_string(), role: "admin".to_string() }
}

fn cfg() -> AdminConfig {
    AdminConfig {
        username: "admin".to_string(),
        password: "SECRET-REDACTED".to_string(),
        display_name: "Admin".to_string(),
    }
}

#[test]
fn token_round_trip() {
    let secret = "test secret";
    let token = AuthMiddleware::generate_token(&user(), secret, chrono::Utc::now().timestamp()).unwrap();
    let claims = AuthMiddleware::validate_token(&token, secret).unwrap();
    assert_eq!(claims.sub, "1");
    assert_eq!(claims.name, "Admin");
    assert_eq!(claims.role, "admin");
    assert_eq!(claims.exp, claims.iat + 86400);
}

#[test]
fn token_under_other_secret_is_rejected() {
    let token = AuthMiddleware::generate_token(&user(), "secret one", chrono::Utc::now().timestamp()).unwrap();
    match AuthMiddleware::validate_token(&token, "secret two") {
        Err(AppError::UnauthorizedError(_)) => {},
        other => panic!("expected an unauthorized error, got {:?}", other),
    }
}

#[test]
fn expired_token_is_rejected() {
    // a token issued far enough in the past is past its day-long validity
    let issued = chrono::Utc::now().timestamp() - 200_000;
    let token = AuthMiddleware::generate_token(&user(), "secret", issued).unwrap();
    match AuthMiddleware::validate_token(&token, "secret") {
        Err(AppError::UnauthorizedError(_)) => {},
        other => panic!("expected an unauthorized error, got {:?}", other),
    }
}

#[test]
fn request_without_header_is_unauthorized() {
    match AuthenticatedUser::from_request(None, "secret") {
        Err(AppError::UnauthorizedError(_)) => {},
        other => panic!("expected an unauthorized error, got {:?}", other),
    }
}

#[test]
fn request_with_malformed_scheme_is_unauthorized() {
    let basic = "Basic dXNlcjpwYXNz".to_string();
    match AuthenticatedUser::from_request(Some(&basic), "secret") {
        Err(AppError::UnauthorizedError(_)) => {},
        other => panic!("expected an unauthorized error, got {:?}", other),
    }
    let garbage = "Bear".to_string();
    match AuthenticatedUser::from_request(Some(&garbage), "secret") {
        Err(AppError::UnauthorizedError(_)) => {},
        other => panic!("expected an unauthorized error, got {:?}", other),
    }
}

#[test]
fn auth_failures_are_indistinguishable() {
    // missing header, malformed scheme, and a bad token all yield the same
    // error kind and the same message, leaking nothing about the cause
    let cases = [
        AuthenticatedUser::from_request(None, "secret"),
        AuthenticatedUser::from_request(Some(&"Basic dXNlcjpwYXNz".to_string()), "secret"),
        AuthenticatedUser::from_request(Some(&"Bearer not.a.token".to_string()), "secret"),
    ];
    for outcome in cases {
        match outcome {
            Err(AppError::UnauthorizedError(m)) => assert_eq!(m, "Invalid token"),
            other => panic!("expected an unauthorized error, got {:?}", other),
        }
    }
}

#[test]
fn request_with_garbage_token_is_unauthorized() {
    let h = "Bearer not.a.token".to_string();
    match AuthenticatedUser::from_request(Some(&h), "secret") {
        Err(AppError::UnauthorizedError(_)) => {},
        other => panic!("expected an unauthorized error, got {:?}", other),
    }
}

#[test]
fn valid_bearer_header_yields_the_principal() {
    let secret = "round trip secret";
    let token = AuthMiddleware::generate_token(&user(), secret, chrono::Utc::now().timestamp()).unwrap();
    let header = format!("Bearer {}", token);
    let got = AuthenticatedUser::from_request(Some(&header), secret).unwrap();
    assert_eq!(got.0, user());
}

#[test]
fn tokens_carry_timestamps_past_two_thousand_thirty_eight() {
    // an issue time beyond the 32-bit epoch range still round-trips;
    // the expiry check passes because the expiry is in the far future
    let issued: i64 = 3_000_000_000;
    let token = AuthMiddleware::generate_token(&user(), "secret", issued).unwrap();
    let claims = AuthMiddleware::validate_token(&token, "secret").unwrap();
    assert_eq!(claims.iat, issued);
    assert_eq!(claims.exp, issued + 86400);
}

#[test]
fn claims_text_round_trips() {
    let c = Claims {
        sub: "1".to_string(),
        name: "Ada \"the\" admin".to_string(),
        role: "admin".to_string(),
        exp: 1_700_086_400,
        iat: 1_700_000_000,
    };
    let text = encode_claims(&c);
    assert_eq!(
        text,
        "{\"sub\":\"1\",\"name\":\"Ada \\\"the\\\" admin\",\"role\":\"admin\",\"exp\":1700086400,\"iat\":1700000000}"
    );
    assert_eq!(decode_claims(&text), Some(c));
}

#[test]
fn admin_role_is_a_plain_equality_check() {
    let ok = require_admin(AuthenticatedUser(user())).unwrap();
    assert_eq!(ok.0.role, "admin");
    let visitor = User {
        id: "2".to_string(),
        name: "Visitor".to_string(),
        role: "user".to_string(),
    };
    match require_admin(AuthenticatedUser(visitor)) {
        Err(AppError::ForbiddenError(_)) => {},
        other => panic!("expected a forbidden error, got {:?}", other),
    }
}

#[test]
fn credentials_must_both_match() {
    let c = cfg();
    assert!(authenticate_user("admin", "SECRET-REDACTED", &c).is_some());
    assert!(authenticate_user("admin", "wrong", &c).is_none());
    assert!(authenticate_user("root", "SECRET-REDACTED", &c).is_none());
}

#[test]
fn login_issues_a_verifiable_token() {
    let c = cfg();
    let req = LoginRequest {
        username: "admin".to_string(),
        password: "SECRET-REDACTED".to_string(),
    };
    let resp = login(&req, &c, "the signing secret").unwrap();
    assert!(resp.success);
    assert_eq!(resp.user.role, "admin");
    let claims = AuthMiddleware::validate_token(&resp.token, "the signing secret").unwrap();
    assert_eq!(claims.name, "Admin");

    let bad = LoginRequest { username: "admin".to_string(), password: "nope".to_string() };
    match login(&bad, &c, "the signing secret") {
        Err(AppError::UnauthorizedError(_)) => {},
        other => panic!("expected an unauthorized error, got {:?}", other),
    }
}
