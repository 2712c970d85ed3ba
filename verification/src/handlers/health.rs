use vstd::prelude::*;

verus! {

/// Version of this server.
pub const PKG_VERSION: &'static str = "0.1.0";

/// The answer of the liveness check.
#[derive(Debug, Clone, PartialEq, Eq)]
pub struct HealthResponse {
    pub status: String,
    pub version: String,
}

/// The liveness answer: status `ok` and the server's version.
pub fn health_response() -> (r: HealthResponse)
    ensures
        r.status@ == "ok"@,
        r.version@ == PKG_VERSION@,
{
    HealthResponse { status: String::from_str("ok"), version: String::from_str(PKG_VERSION) }
}

} // verus!
