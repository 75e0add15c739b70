//! The liveness endpoint: always answers, reporting the store's reachability
//! in the body.

use vstd::prelude::*;
use crate::models::HealthResponse;

verus! {

/// Builds the health report: status `ok` exactly when the store is
/// reachable, `degraded` otherwise; always a successful response.
pub fn health_check(database: bool, version: String, timestamp: u64) -> (r: HealthResponse)
    ensures
        r.database == database,
        database ==> r.status@ == "ok"@,
        !database ==> r.status@ == "degraded"@,
        r.version@ == version@,
        r.timestamp == timestamp,
{
    HealthResponse {
        status: if database { "ok".to_owned() } else { "degraded".to_owned() },
        version,
        timestamp,
        database,
    }
}

} // verus!
