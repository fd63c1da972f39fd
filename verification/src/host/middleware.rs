//! Middleware registration through the `host_register_middleware` import.
//! The reply is a `BoolResult`, read by `host::bool_reply`.

use crate::host::{HostCall, HostImport};
use crate::proto::{register_middleware_request_wire, RegisterMiddlewareRequest};
use vstd::prelude::*;

verus! {

/// The call that registers the export `handler` as the middleware `name`.
pub fn register(name: &str, handler: &str) -> (call: HostCall)
    ensures
        call.import == HostImport::RegisterMiddleware,
        call.request@ == register_middleware_request_wire(name@, handler@),
{
    let req = RegisterMiddlewareRequest { name: name.to_owned(), handler: handler.to_owned() };
    HostCall { import: HostImport::RegisterMiddleware, request: req.encode_to_vec() }
}

} // verus!
