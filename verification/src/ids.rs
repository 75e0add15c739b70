//! Identifier generation for stored entities.

use vstd::prelude::*;

verus! {

/// Relies on `uuid::Uuid::new_v4` and its hyphenated `Display` form: a fresh
/// random UUID rendered as 36 characters. Nothing else is assumed of the
/// value; in particular two calls may collide, and every caller handles a
/// duplicate key.
#[verifier::external_body]
pub fn generate_id() -> (r: String)
    ensures
        r@.len() == 36,
{
    uuid::Uuid::new_v4().to_string()
}

} // verus!
