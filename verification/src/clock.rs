//! The wall clock.

use vstd::prelude::*;

verus! {

/// Relies on `chrono::Utc::now`: the current time as whole seconds since the
/// Unix epoch, on a platform whose clock reads at or after the epoch.
/// Nothing is assumed of the value; the logic that needs time takes it as an
/// argument and is verified for every reading.
#[verifier::external_body]
pub(crate) fn now_unix() -> i64 {
    chrono::Utc::now().timestamp()
}

} // verus!
