//! The three async host imports: submit a task, resolve a task, wait for
//! any task.

use crate::host::{HostCall, HostImport};
use crate::proto::{
    async_resolve_request_wire, async_resolve_response_or_default, async_submit_request_wire,
    async_submit_response_or_default, async_wait_any_request_wire,
    async_wait_any_response_or_default, AsyncResolveRequest, AsyncResolveResponse,
    AsyncSubmitRequest, AsyncSubmitResponse, AsyncWaitAnyRequest, AsyncWaitAnyResponse,
};
use crate::runtime::{resolve_effect, submit_effect, PendingTasks};
use vstd::prelude::*;
use vstd::slice::slice_to_vec;
use vstd::string::*;

verus! {

/// The error text of a resolve whose task still runs.
pub open spec fn pending_text() -> Seq<char> {
    "pending"@
}

/// Whether what a resolve gave says that the task still runs: the error
/// text `pending`.
pub open spec fn still_running(resolved: Result<Vec<u8>, String>) -> bool {
    resolved matches Err(e) && e@ == pending_text()
}

/// How many polls of a run give the future's output, each poll given what
/// its resolve returned.
pub open spec fn ready_polls(rs: Seq<Result<Vec<u8>, String>>) -> nat
    decreases rs.len(),
{
    if rs.len() == 0 {
        0
    } else {
        ready_polls(rs.drop_last()) + if still_running(rs.last()) {
            0nat
        } else {
            1nat
        }
    }
}

/// Whether a future, not yet polled, can be polled with each of `rs` in
/// turn: a poll is made only while the future is unfinished, and a future
/// stays unfinished exactly while its polls find the task still running.
pub open spec fn polls_admitted(rs: Seq<Result<Vec<u8>, String>>) -> bool {
    forall|i: int| 0 <= i < rs.len() - 1 ==> still_running(#[trigger] rs[i])
}

/// A future gives its output at most once: in every run of polls that can
/// be made on it, all polls but the last are pending, and the last gives
/// the output exactly when the host no longer reports the task running.
pub proof fn lemma_ready_at_most_once(rs: Seq<Result<Vec<u8>, String>>)
    requires
        polls_admitted(rs),
    ensures
        ready_polls(rs) <= 1,
        ready_polls(rs) == 1 <==> (rs.len() > 0 && !still_running(rs.last())),
    decreases rs.len(),
{
    if rs.len() > 0 {
        let prev = rs.drop_last();
        assert forall|i: int| 0 <= i < prev.len() - 1 implies still_running(#[trigger] prev[i]) by {
            assert(prev[i] == rs[i]);
        }
        lemma_ready_at_most_once(prev);
        if prev.len() > 0 {
            assert(still_running(rs[prev.len() - 1]));
            assert(prev.last() == rs[prev.len() - 1]);
        }
    }
}

/// The error text that stands for a task that still runs.
pub fn pending_marker() -> (res: String)
    ensures
        res@ == pending_text(),
{
    String::from_str("pending")
}

/// The call that submits an async task of kind `op` with the encoded
/// request `params` to the host's goroutine pool.
pub fn async_submit(op: &str, params: &[u8]) -> (call: HostCall)
    ensures
        call.import == HostImport::AsyncSubmit,
        call.request@ == async_submit_request_wire(op@, params@),
{
    let req = AsyncSubmitRequest { op_type: op.to_owned(), params: slice_to_vec(params) };
    HostCall { import: HostImport::AsyncSubmit, request: req.encode_to_vec() }
}

/// Reads the reply to a submit: the task id, 0 where the host refused the
/// task. An accepted task is counted as pending.
pub fn async_submit_reply(pending: &mut PendingTasks, reply: &[u8]) -> (task_id: u64)
    ensures
        task_id == async_submit_response_or_default(reply@).task_id,
        final(pending)@ == submit_effect(old(pending)@, task_id),
{
    let resp = AsyncSubmitResponse::decode_or_default(reply);
    if resp.task_id != 0 {
        pending.inc_pending();
    }
    resp.task_id
}

/// The call that asks for the outcome of task `task_id`.
pub fn async_resolve(task_id: u64) -> (call: HostCall)
    ensures
        call.import == HostImport::AsyncResolve,
        call.request@ == async_resolve_request_wire(task_id),
{
    let req = AsyncResolveRequest { task_id };
    HostCall { import: HostImport::AsyncResolve, request: req.encode_to_vec() }
}

/// The outcome that a resolve reply stands for: the task's encoded result,
/// the host's error, or the pending marker where the task still runs.
pub open spec fn resolve_outcome(reply: Seq<u8>) -> Result<Seq<u8>, Seq<char>> {
    let r = async_resolve_response_or_default(reply);
    if !r.done {
        Err(pending_text())
    } else if r.error.len() == 0 {
        Ok(r.result)
    } else {
        Err(r.error)
    }
}

/// Reads the reply to a resolve of task `task_id`. A completed task is no
/// longer pending; its outcome is its encoded result, or the host's error
/// where there is one. A task that still runs gives the error text
/// `pending` and stays counted. Task 0, which a refused submit gives, was
/// never counted, and its resolve leaves the count as it was.
pub fn async_resolve_reply(pending: &mut PendingTasks, task_id: u64, reply: &[u8]) -> (res: Result<
    Vec<u8>,
    String,
>)
    ensures
        match resolve_outcome(reply@) {
            Ok(v) => res matches Ok(b) && b@ == v,
            Err(e) => res matches Err(s) && s@ == e,
        },
        final(pending)@ == resolve_effect(
            old(pending)@,
            task_id,
            async_resolve_response_or_default(reply@).done,
        ),
{
    let resp = AsyncResolveResponse::decode_or_default(reply);
    if resp.done {
        if task_id != 0 {
            pending.dec_pending();
        }
        if resp.error.as_str().is_empty() {
            Ok(resp.result)
        } else {
            Err(resp.error)
        }
    } else {
        Err(pending_marker())
    }
}

/// The call that blocks until any pending async task completes. Only to be
/// made while a task is pending: otherwise the host never answers.
pub fn async_wait_any() -> (call: HostCall)
    ensures
        call.import == HostImport::AsyncWaitAny,
        call.request@ == async_wait_any_request_wire(),
{
    let req = AsyncWaitAnyRequest {  };
    HostCall { import: HostImport::AsyncWaitAny, request: req.encode_to_vec() }
}

/// Reads the reply to a wait: the id of the task that completed, 0 where
/// the reply does not decode.
pub fn async_wait_any_reply(reply: &[u8]) -> (task_id: u64)
    ensures
        task_id == async_wait_any_response_or_default(reply@).task_id,
{
    AsyncWaitAnyResponse::decode_or_default(reply).task_id
}

/// A task that the host reports done makes its future ready, unless the
/// host's error text is itself `pending`.
pub proof fn lemma_done_is_ready(reply: Seq<u8>)
    requires
        async_resolve_response_or_default(reply).done,
        async_resolve_response_or_default(reply).error != pending_text(),
    ensures
        resolve_outcome(reply) != Err::<Seq<u8>, Seq<char>>(pending_text()),
{
}

/// No reply (an allocation that failed, or an empty answer) reads as the
/// default messages: a refused submit, which counts nothing, and a task
/// still running.
pub proof fn lemma_no_reply()
    ensures
        async_submit_response_or_default(Seq::empty()).task_id == 0,
        resolve_outcome(Seq::empty()) == Err::<Seq<u8>, Seq<char>>(pending_text()),
        async_wait_any_response_or_default(Seq::empty()).task_id == 0,
{
}

} // verus!
