//! Payloads of the cache's HTTP API.
use vstd::prelude::*;

verus! {

/// The body of a request to set a key: the key, its value and an optional
/// time-to-live in seconds.
#[derive(Debug)]
pub struct SetKeyRequest {
    pub key: String,
    pub value: String,
    pub ttl_seconds: Option<u64>,
}

/// The answer to a set request.
#[derive(Debug)]
pub struct SetKeyResponse {
    pub success: bool,
    pub time_to_live: Option<u64>,
}

/// The answer to a get request: the live value of the key, if any.
#[derive(Debug)]
pub struct GetKeyResponse {
    pub value: Option<String>,
}

/// The query of a get request: the key to read.
#[derive(Debug)]
pub struct GetKeyRequest {
    pub key: String,
}

} // verus!
