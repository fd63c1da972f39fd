//! Host configuration through the `host_config_get` import.

use crate::host::{not_found, not_found_text, HostCall, HostImport};
use crate::proto::{
    config_get_request_wire, config_get_response_or_default, ConfigGetRequest, ConfigGetResponse,
};
use vstd::prelude::*;

verus! {

/// The call that reads the configuration key `key`.
pub fn get(key: &str) -> (call: HostCall)
    ensures
        call.import == HostImport::ConfigGet,
        call.request@ == config_get_request_wire(key@),
{
    let req = ConfigGetRequest { key: key.to_owned() };
    HostCall { import: HostImport::ConfigGet, request: req.encode_to_vec() }
}

/// Reads the reply to a config read: the value where the key exists, else
/// the error `not found`.
pub fn get_reply(reply: &[u8]) -> (res: Result<String, String>)
    ensures
        config_get_response_or_default(reply@).exists ==> (res matches Ok(v) && v@
            == config_get_response_or_default(reply@).value),
        !config_get_response_or_default(reply@).exists ==> (res matches Err(e) && e@
            == not_found_text()),
{
    let resp = ConfigGetResponse::decode_or_default(reply);
    if resp.exists {
        Ok(resp.value)
    } else {
        Err(not_found())
    }
}

} // verus!
