//! Redis access through the host's `host_redis_get` and `host_redis_set`
//! imports. Keys live in the plugin's own namespace.

use crate::host::{not_found, not_found_text, HostCall, HostImport};
use crate::proto::{
    redis_get_request_wire, redis_get_response_or_default, redis_set_request_wire,
    RedisGetRequest, RedisGetResponse, RedisSetRequest,
};
use vstd::prelude::*;

verus! {

/// The call that reads `key`.
pub fn get(key: &str) -> (call: HostCall)
    ensures
        call.import == HostImport::RedisGet,
        call.request@ == redis_get_request_wire(key@),
{
    let req = RedisGetRequest { key: key.to_owned() };
    HostCall { import: HostImport::RedisGet, request: req.encode_to_vec() }
}

/// Reads the reply to a get: the value where the key exists, else the
/// error `not found`.
pub fn get_reply(reply: &[u8]) -> (res: Result<String, String>)
    ensures
        redis_get_response_or_default(reply@).exists ==> (res matches Ok(v) && v@
            == redis_get_response_or_default(reply@).value),
        !redis_get_response_or_default(reply@).exists ==> (res matches Err(e) && e@
            == not_found_text()),
{
    let resp = RedisGetResponse::decode_or_default(reply);
    if resp.exists {
        Ok(resp.value)
    } else {
        Err(not_found())
    }
}

/// The call that stores `value` under `key` for `ttl_seconds`. The reply is
/// a `BoolResult`, read by `host::bool_reply`.
pub fn set(key: &str, value: &str, ttl_seconds: i64) -> (call: HostCall)
    ensures
        call.import == HostImport::RedisSet,
        call.request@ == redis_set_request_wire(key@, value@, ttl_seconds),
{
    let req = RedisSetRequest { key: key.to_owned(), value: value.to_owned(), ttl_seconds };
    HostCall { import: HostImport::RedisSet, request: req.encode_to_vec() }
}

} // verus!
