//! Outbound HTTP through the `host_http_request` import, waiting for the
//! host's answer.

use crate::host::{HostCall, HostImport};
use crate::proto::{
    http_request_request_wire, http_request_response_or_default, HttpRequestRequest,
    HttpRequestResponse,
};
use vstd::prelude::*;
use vstd::slice::slice_to_vec;

verus! {

/// The call that sends a `method` request to `url` with `headers` (in the
/// order given) and `body`.
pub fn request(method: &str, url: &str, headers: Vec<(String, String)>, body: &[u8]) -> (call:
    HostCall)
    ensures
        call.import == HostImport::HttpRequest,
        call.request@ == http_request_request_wire(method@, url@, headers.deep_view(), body@),
{
    let req = HttpRequestRequest {
        method: method.to_owned(),
        url: url.to_owned(),
        headers,
        body: slice_to_vec(body),
    };
    HostCall { import: HostImport::HttpRequest, request: req.encode_to_vec() }
}

/// Reads the reply to a request: always `Ok`, with the default response
/// where the reply does not decode.
pub fn request_reply(reply: &[u8]) -> (res: Result<HttpRequestResponse, String>)
    ensures
        res matches Ok(r) && r@ == http_request_response_or_default(reply@),
{
    Ok(HttpRequestResponse::decode_or_default(reply))
}

} // verus!
