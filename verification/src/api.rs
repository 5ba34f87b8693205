//! What the cache's HTTP endpoints do with a request, once it is decoded.
use vstd::prelude::*;

use crate::memcache::get_state;
use crate::memcache::lookup;
use crate::memcache::opt_view;
use crate::memcache::set_state;
use crate::memcache::MemCache;
use crate::memcache::CLOCK_LIMIT;
use crate::requests::GetKeyRequest;
use crate::requests::GetKeyResponse;
use crate::requests::SetKeyRequest;
use crate::requests::SetKeyResponse;

verus! {

/// `POST /api/set`: stores the key with its value and optional time-to-live,
/// and answers with success and the time-to-live it was given.
pub fn handle_set_key(cache: &mut MemCache, payload: SetKeyRequest) -> (r: SetKeyResponse)
    ensures
        r.success,
        r.time_to_live == payload.ttl_seconds,
        exists|now: u128|
            old(cache).last_reading() <= now < CLOCK_LIMIT && final(cache).last_reading() == now
                && final(cache)@ == set_state(
                old(cache)@,
                payload.key@,
                payload.value@,
                payload.ttl_seconds,
                now,
            ),
{
    let ttl = payload.ttl_seconds;
    cache.set(payload.key, payload.value, ttl);
    SetKeyResponse { success: true, time_to_live: ttl }
}

/// `GET /api/get`: answers with the live value of the key, if any.
pub fn handle_get_key(cache: &mut MemCache, params: &GetKeyRequest) -> (r: GetKeyResponse)
    ensures
        exists|now: u128|
            old(cache).last_reading() <= now < CLOCK_LIMIT && final(cache).last_reading() == now
                && opt_view(r.value) == lookup(old(cache)@, params.key@, now as int)
                && final(cache)@ == get_state(old(cache)@, params.key@, now as int),
{
    GetKeyResponse { value: cache.get(params.key.as_str()) }
}

} // verus!
