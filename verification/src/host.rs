//! The host functions that a plugin calls. Every call is a request message
//! sent to one import of the host's `env` module, answered by a reply
//! message.
//!
//! The functions here build the call (which import, which bytes) and read
//! the reply; moving the bytes through guest memory and calling the import
//! is left to the caller.
//!
//! Synchronous wrappers (`log`, `route`, `redis`, `config`, `events`,
//! `http_sync`, `db_sync`, `scheduler`, `middleware`, `queue`) call their
//! import directly. Asynchronous wrappers (`http`, `redis_async`,
//! `db_async`) submit the work to the host's goroutine pool and return a
//! future whose polls ask for the outcome.

pub mod config;
pub mod db_async;
pub mod db_sync;
pub mod events;
pub mod http;
pub mod http_sync;
pub mod log;
pub mod middleware;
pub mod queue;
pub mod redis;
pub mod redis_async;
pub mod route;
pub mod scheduler;

pub use crate::runtime::sys;

use crate::proto::{bool_result_or_default, BoolResult};
use vstd::prelude::*;
use vstd::string::*;

verus! {

/// The host imports of the `env` module.
#[derive(Debug, Clone, Copy, PartialEq, Eq)]
pub enum HostImport {
    Log,
    ConfigGet,
    RegisterRoute,
    RegisterMiddleware,
    RedisGet,
    RedisSet,
    EmitEvent,
    SubscribeEvent,
    HttpRequest,
    ScheduleTask,
    EnqueueTask,
    DbQuery,
    AsyncSubmit,
    AsyncResolve,
    AsyncWaitAny,
}

/// A call to make: the import, and the encoded request to hand it.
#[derive(Debug)]
pub struct HostCall {
    pub import: HostImport,
    pub request: Vec<u8>,
}

/// Error text of a read whose key does not exist.
pub open spec fn not_found_text() -> Seq<char> {
    "not found"@
}

/// The error of a read whose key does not exist.
pub fn not_found() -> (res: String)
    ensures
        res@ == not_found_text(),
{
    String::from_str("not found")
}

/// The outcome that a `BoolResult` reply stands for: `Ok` where `success`
/// is set, else the host's error text.
pub open spec fn bool_reply_outcome(reply: Seq<u8>) -> Result<(), Seq<char>> {
    if bool_result_or_default(reply).success {
        Ok(())
    } else {
        Err(bool_result_or_default(reply).error)
    }
}

/// Reads a `BoolResult` reply: `Ok` where the host reports success,
/// otherwise the host's error text. A reply that does not decode, or no
/// reply at all, reads as the default `BoolResult`: an error with empty text.
pub fn bool_reply(reply: &[u8]) -> (res: Result<(), String>)
    ensures
        match bool_reply_outcome(reply@) {
            Ok(()) => res is Ok,
            Err(e) => res matches Err(s) && s@ == e,
        },
{
    let resp = BoolResult::decode_or_default(reply);
    if resp.success {
        Ok(())
    } else {
        Err(resp.error)
    }
}

/// No reply (an allocation that failed, or an empty answer) reads as a
/// failure with empty text.
pub proof fn lemma_no_bool_reply()
    ensures
        bool_reply_outcome(Seq::empty()) == Err::<(), Seq<char>>(Seq::empty()),
{
}

} // verus!
