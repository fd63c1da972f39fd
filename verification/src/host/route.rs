//! Route registration through the host's `host_register_route` import. The
//! reply is a `BoolResult`, read by `host::bool_reply`.

use crate::host::{HostCall, HostImport};
use crate::proto::{register_route_request_wire, RegisterRouteRequest};
use vstd::prelude::*;

verus! {

/// The call that registers `handler` (an export name) for `method` and
/// `path`, with no middleware.
pub fn register(method: &str, path: &str, handler: &str) -> (call: HostCall)
    ensures
        call.import == HostImport::RegisterRoute,
        call.request@ == register_route_request_wire(method@, path@, handler@, Seq::empty()),
{
    let none: Vec<String> = Vec::new();
    assert(none.deep_view() =~= Seq::<Seq<char>>::empty());
    internal(method, path, handler, none)
}

/// The call that registers `handler` for `method` and `path` behind the
/// middleware named `middleware`.
pub fn register_with_middleware(method: &str, path: &str, middleware: &str, handler: &str) -> (call:
    HostCall)
    ensures
        call.import == HostImport::RegisterRoute,
        call.request@ == register_route_request_wire(method@, path@, handler@, seq![middleware@]),
{
    let mut chain: Vec<String> = Vec::new();
    chain.push(middleware.to_owned());
    assert(chain.deep_view() =~= seq![middleware@]);
    internal(method, path, handler, chain)
}

fn internal(method: &str, path: &str, handler: &str, middleware: Vec<String>) -> (call: HostCall)
    ensures
        call.import == HostImport::RegisterRoute,
        call.request@ == register_route_request_wire(
            method@,
            path@,
            handler@,
            middleware.deep_view(),
        ),
{
    let req = RegisterRouteRequest {
        method: method.to_owned(),
        path: path.to_owned(),
        handler: handler.to_owned(),
        middleware,
    };
    HostCall { import: HostImport::RegisterRoute, request: req.encode_to_vec() }
}

} // verus!
