//! Async Redis client: the operation is submitted to the host's goroutine
//! pool, and the future asks for the outcome when polled.

use crate::host::{not_found, not_found_text, HostCall, HostImport};
use crate::proto::{
    async_resolve_request_wire, async_submit_request_wire, bool_result_or_default,
    redis_get_request_wire, redis_get_response_or_default, redis_set_request_wire, BoolResult,
    RedisGetRequest, RedisGetResponse, RedisSetRequest,
};
use crate::runtime::sys::{
    async_resolve, async_submit, pending_marker, pending_text, still_running,
};
use crate::runtime::PollState;
use vstd::prelude::*;

verus! {

/// The call that submits a read of `key` as a `redis_get` task. Its reply,
/// read by `sys::async_submit_reply`, gives the id of the task that
/// `RedisFuture::new` takes.
pub fn get(key: &str) -> (call: HostCall)
    ensures
        call.import == HostImport::AsyncSubmit,
        call.request@ == async_submit_request_wire("redis_get"@, redis_get_request_wire(key@)),
{
    let req = RedisGetRequest { key: key.to_owned() };
    async_submit("redis_get", req.encode_to_vec().as_slice())
}

/// The call that submits a write of `value` under `key` for `ttl_seconds`
/// as a `redis_set` task. The task's id goes to `RedisSetFuture::new`.
pub fn set(key: &str, value: &str, ttl_seconds: i64) -> (call: HostCall)
    ensures
        call.import == HostImport::AsyncSubmit,
        call.request@ == async_submit_request_wire(
            "redis_set"@,
            redis_set_request_wire(key@, value@, ttl_seconds),
        ),
{
    let req = RedisSetRequest { key: key.to_owned(), value: value.to_owned(), ttl_seconds };
    async_submit("redis_set", req.encode_to_vec().as_slice())
}

/// A submitted Redis read, to be polled until it is ready.
#[derive(Debug)]
pub struct RedisFuture {
    id: u64,
    done: bool,
}

impl RedisFuture {
    /// The task's id.
    pub closed spec fn task(&self) -> u64 {
        self.id
    }

    /// Whether a poll already gave the output.
    pub closed spec fn finished(&self) -> bool {
        self.done
    }

    /// The future of the task `id`, not yet polled.
    pub fn new(id: u64) -> (res: RedisFuture)
        ensures
            res.task() == id,
            !res.finished(),
    {
        RedisFuture { id, done: false }
    }

    /// The task's id.
    pub fn id(&self) -> (res: u64)
        ensures
            res == self.task(),
    {
        self.id
    }

    /// Whether a poll already gave the output.
    pub fn is_done(&self) -> (res: bool)
        ensures
            res == self.finished(),
    {
        self.done
    }

    /// The call that a poll makes: a resolve of the task.
    pub fn resolve_call(&self) -> (call: HostCall)
        ensures
            call.import == HostImport::AsyncResolve,
            call.request@ == async_resolve_request_wire(self.task()),
    {
        async_resolve(self.id)
    }

    /// Decides a poll from what the resolve gave. A result is decoded as a
    /// `RedisGetResponse`, the default one where it does not decode: the
    /// value where the key exists, else the error `not found`. The text
    /// `pending` leaves the future pending; any other error is the output.
    pub fn poll(&mut self, resolved: Result<Vec<u8>, String>) -> (res: PollState<
        Result<String, String>,
    >)
        requires
            !old(self).finished(),
        ensures
            final(self).task() == old(self).task(),
            final(self).finished() == !still_running(resolved),
            (res is Pending) == still_running(resolved),
            match resolved {
                Ok(data) => final(self).finished() && if redis_get_response_or_default(
                    data@,
                ).exists {
                    res matches PollState::Ready(Ok(v)) && v@ == redis_get_response_or_default(
                        data@,
                    ).value
                } else {
                    res matches PollState::Ready(Err(e)) && e@ == not_found_text()
                },
                Err(e) => if e@ == pending_text() {
                    !final(self).finished() && res is Pending
                } else {
                    final(self).finished() && (res matches PollState::Ready(Err(s)) && s@ == e@)
                },
            },
    {
        match resolved {
            Ok(data) => {
                self.done = true;
                let resp = RedisGetResponse::decode_or_default(data.as_slice());
                if resp.exists {
                    PollState::Ready(Ok(resp.value))
                } else {
                    PollState::Ready(Err(not_found()))
                }
            },
            Err(e) => {
                if e == pending_marker() {
                    PollState::Pending
                } else {
                    self.done = true;
                    PollState::Ready(Err(e))
                }
            },
        }
    }
}

/// A submitted Redis write, to be polled until it is ready.
#[derive(Debug)]
pub struct RedisSetFuture {
    id: u64,
    done: bool,
}

impl RedisSetFuture {
    /// The task's id.
    pub closed spec fn task(&self) -> u64 {
        self.id
    }

    /// Whether a poll already gave the output.
    pub closed spec fn finished(&self) -> bool {
        self.done
    }

    /// The future of the task `id`, not yet polled.
    pub fn new(id: u64) -> (res: RedisSetFuture)
        ensures
            res.task() == id,
            !res.finished(),
    {
        RedisSetFuture { id, done: false }
    }

    /// The task's id.
    pub fn id(&self) -> (res: u64)
        ensures
            res == self.task(),
    {
        self.id
    }

    /// Whether a poll already gave the output.
    pub fn is_done(&self) -> (res: bool)
        ensures
            res == self.finished(),
    {
        self.done
    }

    /// The call that a poll makes: a resolve of the task.
    pub fn resolve_call(&self) -> (call: HostCall)
        ensures
            call.import == HostImport::AsyncResolve,
            call.request@ == async_resolve_request_wire(self.task()),
    {
        async_resolve(self.id)
    }

    /// Decides a poll from what the resolve gave. A result is decoded as a
    /// `BoolResult`, the default one where it does not decode: `Ok` where it
    /// reports success, else its error text. The text `pending` leaves the
    /// future pending; any other error is the output.
    pub fn poll(&mut self, resolved: Result<Vec<u8>, String>) -> (res: PollState<
        Result<(), String>,
    >)
        requires
            !old(self).finished(),
        ensures
            final(self).task() == old(self).task(),
            final(self).finished() == !still_running(resolved),
            (res is Pending) == still_running(resolved),
            match resolved {
                Ok(data) => final(self).finished() && if bool_result_or_default(data@).success {
                    res matches PollState::Ready(Ok(()))
                } else {
                    res matches PollState::Ready(Err(e)) && e@ == bool_result_or_default(
                        data@,
                    ).error
                },
                Err(e) => if e@ == pending_text() {
                    !final(self).finished() && res is Pending
                } else {
                    final(self).finished() && (res matches PollState::Ready(Err(s)) && s@ == e@)
                },
            },
    {
        match resolved {
            Ok(data) => {
                self.done = true;
                let resp = BoolResult::decode_or_default(data.as_slice());
                if resp.success {
                    PollState::Ready(Ok(()))
                } else {
                    PollState::Ready(Err(resp.error))
                }
            },
            Err(e) => {
                if e == pending_marker() {
                    PollState::Pending
                } else {
                    self.done = true;
                    PollState::Ready(Err(e))
                }
            },
        }
    }
}

} // verus!
