//! Logging through the host's `host_log` import.

use crate::host::{HostCall, HostImport};
use crate::proto::{log_request_wire, LogRequest};
use vstd::prelude::*;

verus! {

/// The call that logs `msg` at level `info`. The host's reply carries
/// nothing that the plugin reads.
pub fn info(msg: &str) -> (call: HostCall)
    ensures
        call.import == HostImport::Log,
        call.request@ == log_request_wire("info"@, msg@, Seq::empty()),
{
    write("info", msg)
}

/// The call that logs `msg` at level `warn`.
pub fn warn(msg: &str) -> (call: HostCall)
    ensures
        call.import == HostImport::Log,
        call.request@ == log_request_wire("warn"@, msg@, Seq::empty()),
{
    write("warn", msg)
}

/// The call that logs `msg` at level `error`.
pub fn error(msg: &str) -> (call: HostCall)
    ensures
        call.import == HostImport::Log,
        call.request@ == log_request_wire("error"@, msg@, Seq::empty()),
{
    write("error", msg)
}

fn write(level: &str, msg: &str) -> (call: HostCall)
    ensures
        call.import == HostImport::Log,
        call.request@ == log_request_wire(level@, msg@, Seq::empty()),
{
    let req = LogRequest { level: level.to_owned(), message: msg.to_owned(), fields: Vec::new() };
    assert(req.fields.deep_view() =~= Seq::<(Seq<char>, Seq<char>)>::empty());
    HostCall { import: HostImport::Log, request: req.encode_to_vec() }
}

} // verus!
