//! Exercises request validation and the contact endpoints.

use portfolio_api::contact_repository::ContactRepository;
use portfolio_api::auth::{AuthenticatedUser, User};
use portfolio_api::error::AppError;
use portfolio_api::routes::contact::{
    delete_message, get_all_messages, get_message_by_id, submit_contact_form,
};
use portfolio_api::validation::{validate_contact, validate_email};

fn admin() -> AuthenticatedUser {
    AuthenticatedUser(User {
        id: "1".to_string(),
        name: "Admin".to_string(),
        role: "admin".to_string(),
    })
}

#[test]
fn email_shapes() {
    assert!(validate_email("user@example.com").is_ok());
    assert!(validate_email("first.last+tag@sub-domain.example.org").is_ok());
    assert!(validate_email("a@b.co").is_ok());

    assert!(validate_email("").is_err());
    assert!(validate_email("no-at-sign").is_err());
    assert!(validate_email("user@").is_err());
    assert!(validate_email("@example.com").is_err());
    assert!(validate_email(".user@example.com").is_err());
    assert!(validate_email("user.@example.com").is_err());
    assert!(validate_email("user@example").is_err());
    assert!(validate_email("user@exa..mple.com").is_err());
    assert!(validate_email("user@example.c").is_err());
    assert!(validate_email("user@example.abcdefg").is_err());
    assert!(validate_email("User@example.com").is_err());
}

#[test]
fn contact_validation_enumerates_failing_fields() {
    match validate_contact("A", "not-an-email", "short") {
        Err(AppError::ValidationError(m)) => {
            assert_eq!(
                m,
                "Validation failed: Name must be between 2 and 100 characters for field 'name'; \
                 Invalid email format for field 'email'; \
                 Message must be between 10 and 5000 characters for field 'message'; "
            );
        },
        other => panic!("expected a validation error, got {:?}", other),
    }
    assert!(validate_contact("Al", "a@b.co", "a long enough message").is_ok());
}

#[test]
fn one_character_name_is_rejected_and_nothing_stored() {
    let mut repo = ContactRepository::new();
    match submit_contact_form(&mut repo, "A", "user@example.com", "a long enough message", 1_000) {
        Err(AppError::ValidationError(m)) => {
            assert!(m.contains("Name must be between 2 and 100 characters"));
        },
        other => panic!("expected a validation error, got {:?}", other),
    }
    assert_eq!(repo.table.rows.len(), 0);
}

#[test]
fn valid_submission_is_stored_and_acknowledged() {
    let mut repo = ContactRepository::new();
    let resp = submit_contact_form(
        &mut repo,
        "Someone",
        "someone@example.com",
        "I would like to talk about a project.",
        1_234,
    )
    .unwrap();
    assert!(resp.success);
    assert_eq!(resp.message, "Message sent successfully");
    assert_eq!(repo.table.rows.len(), 1);

    let user = admin();
    let all = get_all_messages(&repo, &user);
    assert_eq!(all.len(), 1);
    assert_eq!(all[0].name, "Someone");
    assert_eq!(all[0].created_at, 1_234);

    let id = all[0].id.clone();
    let one = get_message_by_id(&repo, &id, &user).unwrap();
    assert_eq!(one, all[0]);

    let ack = delete_message(&mut repo, &id, &user).unwrap();
    assert!(ack.success);
    match get_message_by_id(&repo, &id, &user) {
        Err(AppError::NotFoundError(_)) => {},
        other => panic!("expected a not-found error, got {:?}", other),
    }
    match delete_message(&mut repo, &id, &user) {
        Err(AppError::NotFoundError(_)) => {},
        other => panic!("expected a not-found error, got {:?}", other),
    }
}
