//! Events through the `host_emit_event` and `host_subscribe_event` imports.
//! Both replies are `BoolResult`s, read by `host::bool_reply`.

use crate::host::{HostCall, HostImport};
use crate::proto::{
    emit_event_request_wire, subscribe_event_request_wire, EmitEventRequest,
    SubscribeEventRequest,
};
use vstd::prelude::*;
use vstd::slice::slice_to_vec;

verus! {

/// The call that publishes `event` with `payload`, the encoded
/// `google.protobuf.Struct` of the event's data.
pub fn emit(event: &str, payload: &[u8]) -> (call: HostCall)
    ensures
        call.import == HostImport::EmitEvent,
        call.request@ == emit_event_request_wire(event@, Some(payload@)),
{
    let req = EmitEventRequest { event: event.to_owned(), payload: Some(slice_to_vec(payload)) };
    HostCall { import: HostImport::EmitEvent, request: req.encode_to_vec() }
}

/// The call that subscribes the export `handler` to `event`.
pub fn subscribe(event: &str, handler: &str) -> (call: HostCall)
    ensures
        call.import == HostImport::SubscribeEvent,
        call.request@ == subscribe_event_request_wire(event@, handler@),
{
    let req = SubscribeEventRequest { event: event.to_owned(), handler: handler.to_owned() };
    HostCall { import: HostImport::SubscribeEvent, request: req.encode_to_vec() }
}

} // verus!
