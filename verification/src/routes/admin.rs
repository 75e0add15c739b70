//! The administrator dashboard endpoint: a protected greeting.

use vstd::prelude::*;
use crate::auth::AuthenticatedUser;

verus! {

pub struct AdminResponse {
    pub message: String,
    pub user: String,
}

/// Greets the authenticated principal by name.
pub fn admin_dashboard(user: &AuthenticatedUser) -> (r: AdminResponse)
    ensures
        r.message@ == "Welcome to the admin dashboard"@,
        r.user@ == user.0.name@,
{
    AdminResponse {
        message: "Welcome to the admin dashboard".to_owned(),
        user: user.0.name.clone(),
    }
}

} // verus!
