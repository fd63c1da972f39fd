//! Cron tasks through the `host_schedule_task` import. The reply is a
//! `BoolResult`, read by `host::bool_reply`.

use crate::host::{HostCall, HostImport};
use crate::proto::{schedule_task_request_wire, ScheduleTaskRequest};
use vstd::prelude::*;

verus! {

/// The call that runs the export `handler` on the schedule `cron`, as the
/// task `name`.
pub fn register(name: &str, cron: &str, handler: &str) -> (call: HostCall)
    ensures
        call.import == HostImport::ScheduleTask,
        call.request@ == schedule_task_request_wire(name@, cron@, handler@),
{
    let req = ScheduleTaskRequest {
        name: name.to_owned(),
        cron: cron.to_owned(),
        handler: handler.to_owned(),
    };
    HostCall { import: HostImport::ScheduleTask, request: req.encode_to_vec() }
}

} // verus!
