//! The error taxonomy: status codes, the envelope, and the inputs that
//! produce each variant.

use portfolio_api::auth::{AuthMiddleware, User};
use portfolio_api::error::{AppError, ErrorResponse};
use portfolio_api::validation::validate_contact;

#[test]
fn every_variant_maps_to_its_status() {
    let m = "m".to_string();
    assert_eq!(AppError::DatabaseError(m.clone()).status_code(), 500);
    assert_eq!(AppError::NotFoundError(m.clone()).status_code(), 404);
    assert_eq!(AppError::ValidationError(m.clone()).status_code(), 400);
    assert_eq!(AppError::InternalError(m.clone()).status_code(), 500);
    assert_eq!(AppError::UnauthorizedError(m.clone()).status_code(), 401);
    assert_eq!(AppError::ForbiddenError(m.clone()).status_code(), 403);
    assert_eq!(AppError::BadRequestError(m.clone()).status_code(), 400);
}

#[test]
fn the_envelope_carries_the_message_and_code() {
    let e = AppError::NotFoundError("nothing here".to_string());
    let env = ErrorResponse::of_error(&e);
    assert!(!env.success);
    assert_eq!(env.message, "Not found: nothing here");
    assert_eq!(env.error_code, 404);
    assert_eq!(
        AppError::ValidationError("bad".to_string()).rendered(),
        "Validation error: bad"
    );
}

#[test]
fn clock_out_of_range_is_an_internal_error() {
    let user = User {
        id: "1".to_string(),
        name: "Admin".to_string(),
        role: "admin".to_string(),
    };
    match AuthMiddleware::generate_token(&user, "secret", i64::MAX) {
        Err(AppError::InternalError(_)) => {},
        other => panic!("expected an internal error, got {:?}", other),
    }
    match AuthMiddleware::generate_token(&user, "secret", -1) {
        Err(AppError::InternalError(_)) => {},
        other => panic!("expected an internal error, got {:?}", other),
    }
}

#[test]
fn field_length_bounds_are_inclusive() {
    let name_100 = "n".repeat(100);
    let name_101 = "n".repeat(101);
    let msg_5000 = "m".repeat(5000);
    let msg_5001 = "m".repeat(5001);
    assert!(validate_contact(&name_100, "a@b.co", &msg_5000).is_ok());
    assert!(validate_contact(&name_101, "a@b.co", &msg_5000).is_err());
    assert!(validate_contact(&name_100, "a@b.co", &msg_5001).is_err());
    assert!(validate_contact("ab", "a@b.co", "exactly 10".repeat(1).as_str()).is_ok());
    assert!(validate_contact("ab", "a@b.co", "too short").is_err());
}
