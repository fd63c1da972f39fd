//! Async HTTP client: the request is submitted to the host's goroutine
//! pool, and the future asks for the outcome when polled.

use crate::host::{HostCall, HostImport};
use crate::proto::{
    async_resolve_request_wire, async_submit_request_wire, http_request_request_wire,
    http_request_response_or_default, HttpRequestRequest, HttpRequestResponse,
};
use crate::runtime::sys::{
    async_resolve, async_submit, pending_marker, pending_text, still_running,
};
use crate::runtime::PollState;
use vstd::prelude::*;
use vstd::slice::slice_to_vec;

verus! {

/// HTTP response returned by async `get` / `post`.
#[derive(Debug)]
pub struct Response {
    pub status: u16,
    pub body: Vec<u8>,
}

/// The call that submits a GET of `url` (no headers, no body) as an
/// `http_get` task. Its reply, read by `sys::async_submit_reply`, gives the
/// id of the task that `HttpFuture::new` takes.
pub fn get(url: &str) -> (call: HostCall)
    ensures
        call.import == HostImport::AsyncSubmit,
        call.request@ == async_submit_request_wire(
            "http_get"@,
            http_request_request_wire("GET"@, url@, Seq::empty(), Seq::empty()),
        ),
{
    let req = HttpRequestRequest {
        method: "GET".to_owned(),
        url: url.to_owned(),
        headers: Vec::new(),
        body: Vec::new(),
    };
    assert(req.headers.deep_view() =~= Seq::<(Seq<char>, Seq<char>)>::empty());
    assert(req.body@ =~= Seq::<u8>::empty());
    async_submit("http_get", req.encode_to_vec().as_slice())
}

/// The call that submits a POST of `body` to `url` (no headers) as an
/// `http_post` task.
pub fn post(url: &str, body: &[u8]) -> (call: HostCall)
    ensures
        call.import == HostImport::AsyncSubmit,
        call.request@ == async_submit_request_wire(
            "http_post"@,
            http_request_request_wire("POST"@, url@, Seq::empty(), body@),
        ),
{
    let req = HttpRequestRequest {
        method: "POST".to_owned(),
        url: url.to_owned(),
        headers: Vec::new(),
        body: slice_to_vec(body),
    };
    assert(req.headers.deep_view() =~= Seq::<(Seq<char>, Seq<char>)>::empty());
    async_submit("http_post", req.encode_to_vec().as_slice())
}

/// A submitted HTTP task, to be polled until it is ready.
#[derive(Debug)]
pub struct HttpFuture {
    id: u64,
    done: bool,
}

impl HttpFuture {
    /// The task's id.
    pub closed spec fn task(&self) -> u64 {
        self.id
    }

    /// Whether a poll already gave the output.
    pub closed spec fn finished(&self) -> bool {
        self.done
    }

    /// The future of the task `id`, not yet polled.
    pub fn new(id: u64) -> (res: HttpFuture)
        ensures
            res.task() == id,
            !res.finished(),
    {
        HttpFuture { id, done: false }
    }

    /// The task's id.
    pub fn id(&self) -> (res: u64)
        ensures
            res == self.task(),
    {
        self.id
    }

    /// Whether a poll already gave the output.
    pub fn is_done(&self) -> (res: bool)
        ensures
            res == self.finished(),
    {
        self.done
    }

    /// The call that a poll makes: a resolve of the task.
    pub fn resolve_call(&self) -> (call: HostCall)
        ensures
            call.import == HostImport::AsyncResolve,
            call.request@ == async_resolve_request_wire(self.task()),
    {
        async_resolve(self.id)
    }

    /// Decides a poll from what the resolve gave (see
    /// `sys::async_resolve_reply`). A result is decoded as an
    /// `HttpRequestResponse`, the default one where it does not decode, and
    /// its status truncated to 16 bits; the text `pending` leaves the future
    /// pending; any other error is the output. Polling after the output was
    /// given is a bug of the caller.
    pub fn poll(&mut self, resolved: Result<Vec<u8>, String>) -> (res: PollState<
        Result<Response, String>,
    >)
        requires
            !old(self).finished(),
        ensures
            final(self).task() == old(self).task(),
            final(self).finished() == !still_running(resolved),
            (res is Pending) == still_running(resolved),
            match resolved {
                Ok(data) => final(self).finished() && (res matches PollState::Ready(Ok(r))
                    && r.status == (http_request_response_or_default(data@).status as u16)
                    && r.body@ == http_request_response_or_default(data@).body),
                Err(e) => if e@ == pending_text() {
                    !final(self).finished() && res is Pending
                } else {
                    final(self).finished() && (res matches PollState::Ready(Err(s)) && s@ == e@)
                },
            },
    {
        match resolved {
            Ok(data) => {
                self.done = true;
                let resp = HttpRequestResponse::decode_or_default(data.as_slice());
                PollState::Ready(Ok(Response { status: resp.status as u16, body: resp.body }))
            },
            Err(e) => {
                if e == pending_marker() {
                    PollState::Pending
                } else {
                    self.done = true;
                    PollState::Ready(Err(e))
                }
            },
        }
    }
}

} // verus!
