//! Async database client: the query is submitted to the host's goroutine
//! pool, and the future asks for the outcome when polled.

use crate::host::{HostCall, HostImport};
use crate::proto::{
    async_resolve_request_wire, async_submit_request_wire, db_query_request_wire,
    db_query_response_or_default, DbQueryRequest, DbQueryResponse,
};
use crate::runtime::sys::{
    async_resolve, async_submit, pending_marker, pending_text, still_running,
};
use crate::runtime::PollState;
use vstd::prelude::*;

verus! {

/// A single database row returned by an async query: each field's name
/// with its value's debug text.
#[derive(Debug)]
pub struct Row {
    pub fields: Vec<(String, String)>,
}

/// The call that submits `operation` on `model` (no conditions, no field
/// list, no limit, no offset) as a `db_query` task. The task's id goes to
/// `DbFuture::new`.
pub fn query(model: &str, operation: &str) -> (call: HostCall)
    ensures
        call.import == HostImport::AsyncSubmit,
        call.request@ == async_submit_request_wire(
            "db_query"@,
            db_query_request_wire(model@, operation@, None, None, 0, 0),
        ),
{
    let req = DbQueryRequest {
        model: model.to_owned(),
        operation: operation.to_owned(),
        conditions: None,
        fields: None,
        limit: 0,
        offset: 0,
    };
    async_submit("db_query", req.encode_to_vec().as_slice())
}

/// A submitted database query, to be polled until it is ready.
#[derive(Debug)]
pub struct DbFuture {
    id: u64,
    done: bool,
}

impl DbFuture {
    /// The task's id.
    pub closed spec fn task(&self) -> u64 {
        self.id
    }

    /// Whether a poll already gave the output.
    pub closed spec fn finished(&self) -> bool {
        self.done
    }

    /// The future of the task `id`, not yet polled.
    pub fn new(id: u64) -> (res: DbFuture)
        ensures
            res.task() == id,
            !res.finished(),
    {
        DbFuture { id, done: false }
    }

    /// The task's id.
    pub fn id(&self) -> (res: u64)
        ensures
            res == self.task(),
    {
        self.id
    }

    /// Whether a poll already gave the output.
    pub fn is_done(&self) -> (res: bool)
        ensures
            res == self.finished(),
    {
        self.done
    }

    /// The call that a poll makes: a resolve of the task.
    pub fn resolve_call(&self) -> (call: HostCall)
        ensures
            call.import == HostImport::AsyncResolve,
            call.request@ == async_resolve_request_wire(self.task()),
    {
        async_resolve(self.id)
    }

    /// Decides a poll from what the resolve gave. A result is decoded as a
    /// `DbQueryResponse`, the default one where it does not decode: its
    /// error where that is not empty, else its rows, each the encoded
    /// `google.protobuf.Struct` that the caller turns into a `Row`. The text
    /// `pending` leaves the future pending; any other error is the output.
    pub fn poll(&mut self, resolved: Result<Vec<u8>, String>) -> (res: PollState<
        Result<Vec<Vec<u8>>, String>,
    >)
        requires
            !old(self).finished(),
        ensures
            final(self).task() == old(self).task(),
            final(self).finished() == !still_running(resolved),
            (res is Pending) == still_running(resolved),
            match resolved {
                Ok(data) => final(self).finished() && if db_query_response_or_default(
                    data@,
                ).error.len() == 0 {
                    res matches PollState::Ready(Ok(rows)) && rows.deep_view()
                        == db_query_response_or_default(data@).rows
                } else {
                    res matches PollState::Ready(Err(e)) && e@ == db_query_response_or_default(
                        data@,
                    ).error
                },
                Err(e) => if e@ == pending_text() {
                    !final(self).finished() && res is Pending
                } else {
                    final(self).finished() && (res matches PollState::Ready(Err(s)) && s@ == e@)
                },
            },
    {
        match resolved {
            Ok(data) => {
                self.done = true;
                let resp = DbQueryResponse::decode_or_default(data.as_slice());
                if !resp.error.as_str().is_empty() {
                    return PollState::Ready(Err(resp.error));
                }
                PollState::Ready(Ok(resp.rows))
            },
            Err(e) => {
                if e == pending_marker() {
                    PollState::Pending
                } else {
                    self.done = true;
                    PollState::Ready(Err(e))
                }
            },
        }
    }
}

} // verus!
