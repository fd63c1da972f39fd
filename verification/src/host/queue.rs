//! The host queue through the `host_enqueue_task` import. The reply is a
//! `BoolResult`, read by `host::bool_reply`.

use crate::host::{HostCall, HostImport};
use crate::proto::{enqueue_task_request_wire, EnqueueTaskRequest};
use vstd::prelude::*;
use vstd::slice::slice_to_vec;

verus! {

/// The call that queues the task `task_name` with `payload`, the encoded
/// `google.protobuf.Struct` of its data.
pub fn enqueue(task_name: &str, payload: &[u8]) -> (call: HostCall)
    ensures
        call.import == HostImport::EnqueueTask,
        call.request@ == enqueue_task_request_wire(task_name@, Some(payload@)),
{
    let req = EnqueueTaskRequest {
        task_name: task_name.to_owned(),
        payload: Some(slice_to_vec(payload)),
    };
    HostCall { import: HostImport::EnqueueTask, request: req.encode_to_vec() }
}

} // verus!
