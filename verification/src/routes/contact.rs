//! The contact endpoints: the public validated submission and the
//! authenticated administration of stored messages.

use vstd::prelude::*;
use crate::auth::AuthenticatedUser;
use crate::contact_repository::{contact_of_row, ContactRepository};
use crate::error::AppError;
use crate::models::{ContactMessage, ContactResponse};
use crate::order::is_reordering;
use crate::validation::{contact_error_msg, contact_ok, valid_email, validate_contact};

verus! {

/// Accepts a validated submission and stores it stamped with the given
/// clock reading; an invalid submission is a structured validation error
/// naming each failing field, and inserts nothing.
pub fn submit_contact_form(
    repo: &mut ContactRepository,
    name: &str,
    email: &str,
    message: &str,
    now: i64,
) -> (r: Result<ContactResponse, AppError>)
    requires
        old(repo).wf(),
    ensures
        final (repo).wf(),
        !contact_ok(name@, email@, message@) ==> ({
            &&& r matches Err(e) && e is ValidationError && e.spec_message() == contact_error_msg(
                2 <= name@.len() <= 100,
                valid_email(email@),
                10 <= message@.len() <= 5000,
            )
            &&& final (repo).table@ == old(repo).table@
        }),
        contact_ok(name@, email@, message@) ==> match r {
            Ok(resp) => {
                &&& resp.success
                &&& final (repo).table@.len() == old(repo).table@.len() + 1
                &&& contact_of_row(
                    final (repo).table@.last().0,
                    final (repo).table@.last().1@,
                ).name == name@
                &&& contact_of_row(
                    final (repo).table@.last().0,
                    final (repo).table@.last().1@,
                ).email == email@
                &&& contact_of_row(
                    final (repo).table@.last().0,
                    final (repo).table@.last().1@,
                ).message == message@
                &&& contact_of_row(
                    final (repo).table@.last().0,
                    final (repo).table@.last().1@,
                ).created_at == now
            },
            Err(e) => {
                &&& e is DatabaseError
                &&& old(repo).table@.len() > 0
                &&& final (repo).table@ == old(repo).table@
            },
        },
{
    match validate_contact(name, email, message) {
        Ok(_) => {},
        Err(e) => { return Err(e); },
    }
    let contact = ContactMessage::new(name.to_owned(), email.to_owned(), message.to_owned(), now);
    match repo.create(contact) {
        Ok(stored) => Ok(ContactResponse::success()),
        Err(e) => Err(e),
    }
}

/// Lists every stored message, newest first. Needs an authenticated caller.
pub fn get_all_messages(repo: &ContactRepository, _user: &AuthenticatedUser) -> (r: Vec<
    ContactMessage,
>)
    ensures
        r@.len() == repo.table@.len(),
        exists|perm: Seq<int>|
            #[trigger] is_reordering(perm, repo.table@.len() as int) && forall|i: int|
                0 <= i < r@.len() ==> (#[trigger] r@[i])@ == contact_of_row(
                    repo.table@[perm[i]].0,
                    repo.table@[perm[i]].1@,
                ),
        forall|i: int, j: int|
            0 <= i <= j < r@.len() ==> (#[trigger] r@[i])@.created_at >= (
            #[trigger] r@[j])@.created_at,
{
    repo.get_all()
}

/// Fetches one message; an absent id is a not-found response. Needs an
/// authenticated caller.
pub fn get_message_by_id(repo: &ContactRepository, id: &String, _user: &AuthenticatedUser) -> (r:
    Result<ContactMessage, AppError>)
    ensures
        match r {
            Ok(m) => repo.spec_find(id@) == Some(m@),
            Err(e) => repo.spec_find(id@) is None && e is NotFoundError,
        },
{
    repo.get_by_id(id)
}

/// Deletes one message; an absent id is a not-found response and changes
/// nothing. Needs an authenticated caller.
pub fn delete_message(repo: &mut ContactRepository, id: &String, _user: &AuthenticatedUser) -> (r:
    Result<ContactResponse, AppError>)
    requires
        old(repo).wf(),
    ensures
        final (repo).wf(),
        match r {
            Ok(resp) => {
                &&& resp.success
                &&& old(repo).spec_find(id@) is Some
                &&& final (repo).spec_find(id@) is None
                &&& forall|k: Seq<char>|
                    k != id@ ==> #[trigger] final (repo).spec_find(k) == old(repo).spec_find(k)
            },
            Err(e) => {
                &&& e is NotFoundError
                &&& old(repo).spec_find(id@) is None
                &&& final (repo).table@ == old(repo).table@
            },
        },
{
    match repo.delete(id) {
        Ok(_) => Ok(ContactResponse::success()),
        Err(e) => Err(e),
    }
}

} // verus!
