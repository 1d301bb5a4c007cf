//! The proxy's error taxonomy. Backend-local failures are absorbed into the
//! failover loop; only `AllUpstreamsFailed` reaches a client, as the internal
//! JSON-RPC error.

use vstd::prelude::*;

verus! {

/// Why a request or probe could not be served.
#[derive(Debug)]
pub enum RpcProxyError {
    /// Every backend, then the last-resort retry, failed.
    AllUpstreamsFailed,
    /// One backend's transport-level failure.
    UpstreamRequest(String),
    /// One backend answered with this non-success HTTP status.
    UpstreamHttp(u16),
    /// A body was not the JSON the proxy expected.
    Json(String),
    /// A response body could not be read to completion.
    BodyRead(String),
    /// A health probe failed for the given reason.
    HealthProbe(String),
}

} // verus!
