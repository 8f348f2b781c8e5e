//! The liveness answer.

use vstd::prelude::*;
use vstd::string::StringExecFns;

verus! {

/// The body of the answer to a health check.
#[derive(Debug, PartialEq, Eq)]
pub struct HealthResponse {
    pub status: String,
}

/// Answers a health check. The answer depends on nothing: not on the
/// database, not on the cache.
pub fn health_handler() -> (response: HealthResponse)
    ensures
        response.status@ == "OK"@,
{
    HealthResponse { status: String::from_str("OK") }
}

} // verus!
