//! The protobuf messages of the plugin ABI (package `ppanel.plugin.v1`),
//! with their encoders and, for the messages that the host sends back,
//! their decoders.
//!
//! Field numbers follow the order in which each message lists its fields.

use crate::wire::{
    check_struct, decode_fields, lemma_decode_fields_front, lemma_empty_prefix,
    lemma_read_key_bounds, lemma_read_len_field, lemma_read_string_field, lemma_read_varint_bounds,
    lemma_read_varint_field, lemma_read_map_entry_field, len_field, map_entry, merge_string_map_entry,
    read_map_entry, len_list_fields, merge_bool, merge_bytes, merge_int32,
    merge_int64, merge_string, merge_uint64, opt_bool_field, opt_bytes_field, opt_int32_field,
    opt_int64_field, opt_message_field, opt_string_field, opt_uint64_field, payload_view,
    put_len_list, put_opt_bool, put_opt_bytes, put_opt_int32, put_opt_int64, put_opt_message,
    put_opt_string, put_opt_uint64, put_string_list, put_string_map, read_len_value,
    read_string_value, read_varint_value, skip, skip_step, string_list_fields, string_map_fields,
    struct_payload_decodes, take_key,
};
use vstd::prelude::*;
use vstd::utf8::*;

verus! {

broadcast use group_utf8_lib;

// ---------------------------------------------------------------------------
// BoolResult
// ---------------------------------------------------------------------------

/// Generic success/error reply of the host, and the reply of `init` and
/// event handlers.
#[derive(Debug)]
pub struct BoolResult {
    pub success: bool,
    pub error: String,
}

/// The fields of a `BoolResult` as mathematical values.
pub ghost struct BoolResultView {
    pub success: bool,
    pub error: Seq<char>,
}

impl View for BoolResult {
    type V = BoolResultView;

    open spec fn view(&self) -> BoolResultView {
        BoolResultView { success: self.success, error: self.error@ }
    }
}

/// The default `BoolResult`: `success` false, `error` empty.
pub open spec fn bool_result_default() -> BoolResultView {
    BoolResultView { success: false, error: Seq::empty() }
}

/// Wire bytes of a `BoolResult`: `success` = 1, `error` = 2.
pub open spec fn bool_result_bytes(m: BoolResultView) -> Seq<u8> {
    opt_bool_field(1, m.success) + opt_string_field(2, m.error)
}

/// Reads one field of a `BoolResult` (tag `t`, wire type `w`, value at the
/// front of `b`) into `m`: the message after it and the bytes left.
pub open spec fn bool_result_step(
    m: BoolResultView,
    t: u32,
    w: u8,
    b: Seq<u8>,
) -> Option<(BoolResultView, Seq<u8>)> {
    if t == 1 {
        match read_varint_value(w, b) {
            Some((v, r)) => Some((BoolResultView { success: v != 0, ..m }, r)),
            None => None,
        }
    } else if t == 2 {
        match read_string_value(w, b) {
            Some((s, r)) => Some((BoolResultView { error: s, ..m }, r)),
            None => None,
        }
    } else {
        skip_step(m, t, w, b)
    }
}

pub open spec fn bool_result_steps(
) -> spec_fn(BoolResultView, u32, u8, Seq<u8>) -> Option<(BoolResultView, Seq<u8>)> {
    |m: BoolResultView, t: u32, w: u8, b: Seq<u8>| bool_result_step(m, t, w, b)
}

/// What decoding `b` as a `BoolResult` gives; `None` where prost refuses it.
pub open spec fn decode_bool_result(b: Seq<u8>) -> Option<BoolResultView> {
    decode_fields(bool_result_default(), b, bool_result_steps())
}

impl BoolResult {
    /// The message's wire bytes.
    pub fn encode_to_vec(&self) -> (res: Vec<u8>)
        ensures
            res@ == bool_result_bytes(self@),
    {
        let mut buf: Vec<u8> = Vec::new();
        put_opt_bool(1, self.success, &mut buf);
        put_opt_string(2, &self.error, &mut buf);
        assert(buf@ =~= bool_result_bytes(self@));
        buf
    }

    /// Decodes a `BoolResult`; `None` where the bytes are malformed.
    pub fn decode(buf: &[u8]) -> (res: Option<BoolResult>)
        ensures
            match decode_bool_result(buf@) {
                Some(v) => res matches Some(m) && m@ == v,
                None => res is None,
            },
    {
        let mut m = BoolResult { success: false, error: String::new() };
        let mut rest = buf;
        while rest.len() > 0
            invariant
                decode_fields(m@, rest@, bool_result_steps()) == decode_bool_result(buf@),
            decreases rest.len(),
        {
            proof {
                lemma_read_key_bounds(rest@);
            }
            let (t, w, r) = match take_key(rest) {
                Some(k) => k,
                None => return None,
            };
            let ghost m0 = m@;
            proof {
                lemma_read_varint_bounds(r@);
            }
            let next = if t == 1 {
                merge_bool(w, &mut m.success, r)
            } else if t == 2 {
                merge_string(w, &mut m.error, r)
            } else {
                skip(w, t, r)
            };
            match next {
                Some(r2) => {
                    assert(bool_result_step(m0, t, w, r@) == Some((m@, r2@)));
                    rest = r2;
                },
                None => {
                    assert(bool_result_step(m0, t, w, r@) is None);
                    return None;
                },
            }
        }
        Some(m)
    }
}

/// A `BoolResult` decodes back to itself.
pub proof fn lemma_bool_result_roundtrip(m: BoolResultView)
    requires
        encode_utf8(m.error).len() <= u64::MAX,
    ensures
        decode_bool_result(bool_result_bytes(m)) == Some(m),
{
    let f1 = opt_bool_field(1, m.success);
    let f2 = opt_string_field(2, m.error);
    let s = bool_result_steps();
    let m1 = BoolResultView { success: m.success, ..bool_result_default() };
    if m.success {
        lemma_read_varint_field(1, 1, f2);
        lemma_decode_fields_front(bool_result_default(), f1, f2, s, m1);
    } else {
        lemma_empty_prefix(f2);
    }
    assert(decode_fields(bool_result_default(), f1 + f2, s) == decode_fields(m1, f2, s));
    if m.error.len() > 0 {
        lemma_read_string_field(2, m.error, Seq::empty());
        assert(f2 + Seq::<u8>::empty() =~= f2);
        lemma_decode_fields_front(m1, f2, Seq::empty(), s, m);
    } else {
        assert(m.error =~= Seq::<char>::empty());
    }
}

// ---------------------------------------------------------------------------
// RedisGetResponse
// ---------------------------------------------------------------------------

/// Reply to a Redis get: the stored value, and whether the key exists.
#[derive(Debug)]
pub struct RedisGetResponse {
    pub value: String,
    pub exists: bool,
}

/// The fields of a `RedisGetResponse` as mathematical values.
pub ghost struct RedisGetResponseView {
    pub value: Seq<char>,
    pub exists: bool,
}

impl View for RedisGetResponse {
    type V = RedisGetResponseView;

    open spec fn view(&self) -> RedisGetResponseView {
        RedisGetResponseView { value: self.value@, exists: self.exists }
    }
}

/// The default `RedisGetResponse`: empty value, `exists` false.
pub open spec fn redis_get_response_default() -> RedisGetResponseView {
    RedisGetResponseView { value: Seq::empty(), exists: false }
}

/// Wire bytes of a `RedisGetResponse`: `value` = 1, `exists` = 2.
pub open spec fn redis_get_response_bytes(m: RedisGetResponseView) -> Seq<u8> {
    opt_string_field(1, m.value) + opt_bool_field(2, m.exists)
}

/// Reads one field of a `RedisGetResponse` (tag `t`, wire type `w`, value at the
/// front of `b`) into `m`: the message after it and the bytes left.
pub open spec fn redis_get_response_step(
    m: RedisGetResponseView,
    t: u32,
    w: u8,
    b: Seq<u8>,
) -> Option<(RedisGetResponseView, Seq<u8>)> {
    if t == 1 {
        match read_string_value(w, b) {
            Some((v, r)) => Some((RedisGetResponseView { value: v, ..m }, r)),
            None => None,
        }
    } else if t == 2 {
        match read_varint_value(w, b) {
            Some((v, r)) => Some((RedisGetResponseView { exists: v != 0, ..m }, r)),
            None => None,
        }
    } else {
        skip_step(m, t, w, b)
    }
}

pub open spec fn redis_get_response_steps(
) -> spec_fn(RedisGetResponseView, u32, u8, Seq<u8>) -> Option<(RedisGetResponseView, Seq<u8>)> {
    |m: RedisGetResponseView, t: u32, w: u8, b: Seq<u8>| redis_get_response_step(m, t, w, b)
}

/// What decoding `b` as a `RedisGetResponse` gives; `None` where prost refuses it.
pub open spec fn decode_redis_get_response(b: Seq<u8>) -> Option<RedisGetResponseView> {
    decode_fields(redis_get_response_default(), b, redis_get_response_steps())
}

impl RedisGetResponse {
    /// The message's wire bytes.
    pub fn encode_to_vec(&self) -> (res: Vec<u8>)
        ensures
            res@ == redis_get_response_bytes(self@),
    {
        let mut buf: Vec<u8> = Vec::new();
        put_opt_string(1, &self.value, &mut buf);
        put_opt_bool(2, self.exists, &mut buf);
        assert(buf@ =~= redis_get_response_bytes(self@));
        buf
    }

    /// Decodes a `RedisGetResponse`; `None` where the bytes are malformed.
    pub fn decode(buf: &[u8]) -> (res: Option<RedisGetResponse>)
        ensures
            match decode_redis_get_response(buf@) {
                Some(v) => res matches Some(m) && m@ == v,
                None => res is None,
            },
    {
        let mut m = RedisGetResponse { value: String::new(), exists: false };
        let mut rest = buf;
        while rest.len() > 0
            invariant
                decode_fields(m@, rest@, redis_get_response_steps())
                    == decode_redis_get_response(buf@),
            decreases rest.len(),
        {
            proof {
                lemma_read_key_bounds(rest@);
            }
            let (t, w, r) = match take_key(rest) {
                Some(k) => k,
                None => return None,
            };
            let ghost m0 = m@;
            proof {
                lemma_read_varint_bounds(r@);
            }
            let next = if t == 1 {
                merge_string(w, &mut m.value, r)
            } else if t == 2 {
                merge_bool(w, &mut m.exists, r)
            } else {
                skip(w, t, r)
            };
            match next {
                Some(r2) => {
                    assert(redis_get_response_step(m0, t, w, r@) == Some((m@, r2@)));
                    rest = r2;
                },
                None => {
                    assert(redis_get_response_step(m0, t, w, r@) is None);
                    return None;
                },
            }
        }
        Some(m)
    }
}

/// A `RedisGetResponse` decodes back to itself.
pub proof fn lemma_redis_get_response_roundtrip(m: RedisGetResponseView)
    requires
        encode_utf8(m.value).len() <= u64::MAX,
    ensures
        decode_redis_get_response(redis_get_response_bytes(m)) == Some(m),
{
    let f1 = opt_string_field(1, m.value);
    let f2 = opt_bool_field(2, m.exists);
    let s = redis_get_response_steps();
    let m1 = RedisGetResponseView { value: m.value, ..redis_get_response_default() };
    if m.value.len() > 0 {
        lemma_read_string_field(1, m.value, f2);
        lemma_decode_fields_front(redis_get_response_default(), f1, f2, s, m1);
    } else {
        lemma_empty_prefix(f2);
        assert(m.value =~= Seq::<char>::empty());
    }
    assert(decode_fields(redis_get_response_default(), f1 + f2, s) == decode_fields(m1, f2, s));
    if m.exists {
        lemma_read_varint_field(2, 1, Seq::empty());
        assert(f2 + Seq::<u8>::empty() =~= f2);
        lemma_decode_fields_front(m1, f2, Seq::empty(), s, m);
    }
}

// ---------------------------------------------------------------------------
// ConfigGetResponse
// ---------------------------------------------------------------------------

/// Reply to a config read: the value, and whether the key exists.
#[derive(Debug)]
pub struct ConfigGetResponse {
    pub value: String,
    pub exists: bool,
}

/// The fields of a `ConfigGetResponse` as mathematical values.
pub ghost struct ConfigGetResponseView {
    pub value: Seq<char>,
    pub exists: bool,
}

impl View for ConfigGetResponse {
    type V = ConfigGetResponseView;

    open spec fn view(&self) -> ConfigGetResponseView {
        ConfigGetResponseView { value: self.value@, exists: self.exists }
    }
}

/// The default `ConfigGetResponse`: empty value, `exists` false.
pub open spec fn config_get_response_default() -> ConfigGetResponseView {
    ConfigGetResponseView { value: Seq::empty(), exists: false }
}

/// Wire bytes of a `ConfigGetResponse`: `value` = 1, `exists` = 2.
pub open spec fn config_get_response_bytes(m: ConfigGetResponseView) -> Seq<u8> {
    opt_string_field(1, m.value) + opt_bool_field(2, m.exists)
}

/// Reads one field of a `ConfigGetResponse` (tag `t`, wire type `w`, value at the
/// front of `b`) into `m`: the message after it and the bytes left.
pub open spec fn config_get_response_step(
    m: ConfigGetResponseView,
    t: u32,
    w: u8,
    b: Seq<u8>,
) -> Option<(ConfigGetResponseView, Seq<u8>)> {
    if t == 1 {
        match read_string_value(w, b) {
            Some((v, r)) => Some((ConfigGetResponseView { value: v, ..m }, r)),
            None => None,
        }
    } else if t == 2 {
        match read_varint_value(w, b) {
            Some((v, r)) => Some((ConfigGetResponseView { exists: v != 0, ..m }, r)),
            None => None,
        }
    } else {
        skip_step(m, t, w, b)
    }
}

pub open spec fn config_get_response_steps(
) -> spec_fn(ConfigGetResponseView, u32, u8, Seq<u8>) -> Option<(ConfigGetResponseView, Seq<u8>)> {
    |m: ConfigGetResponseView, t: u32, w: u8, b: Seq<u8>| config_get_response_step(m, t, w, b)
}

/// What decoding `b` as a `ConfigGetResponse` gives; `None` where prost refuses it.
pub open spec fn decode_config_get_response(b: Seq<u8>) -> Option<ConfigGetResponseView> {
    decode_fields(config_get_response_default(), b, config_get_response_steps())
}

impl ConfigGetResponse {
    /// The message's wire bytes.
    pub fn encode_to_vec(&self) -> (res: Vec<u8>)
        ensures
            res@ == config_get_response_bytes(self@),
    {
        let mut buf: Vec<u8> = Vec::new();
        put_opt_string(1, &self.value, &mut buf);
        put_opt_bool(2, self.exists, &mut buf);
        assert(buf@ =~= config_get_response_bytes(self@));
        buf
    }

    /// Decodes a `ConfigGetResponse`; `None` where the bytes are malformed.
    pub fn decode(buf: &[u8]) -> (res: Option<ConfigGetResponse>)
        ensures
            match decode_config_get_response(buf@) {
                Some(v) => res matches Some(m) && m@ == v,
                None => res is None,
            },
    {
        let mut m = ConfigGetResponse { value: String::new(), exists: false };
        let mut rest = buf;
        while rest.len() > 0
            invariant
                decode_fields(m@, rest@, config_get_response_steps())
                    == decode_config_get_response(buf@),
            decreases rest.len(),
        {
            proof {
                lemma_read_key_bounds(rest@);
            }
            let (t, w, r) = match take_key(rest) {
                Some(k) => k,
                None => return None,
            };
            let ghost m0 = m@;
            proof {
                lemma_read_varint_bounds(r@);
            }
            let next = if t == 1 {
                merge_string(w, &mut m.value, r)
            } else if t == 2 {
                merge_bool(w, &mut m.exists, r)
            } else {
                skip(w, t, r)
            };
            match next {
                Some(r2) => {
                    assert(config_get_response_step(m0, t, w, r@) == Some((m@, r2@)));
                    rest = r2;
                },
                None => {
                    assert(config_get_response_step(m0, t, w, r@) is None);
                    return None;
                },
            }
        }
        Some(m)
    }
}

/// A `ConfigGetResponse` decodes back to itself.
pub proof fn lemma_config_get_response_roundtrip(m: ConfigGetResponseView)
    requires
        encode_utf8(m.value).len() <= u64::MAX,
    ensures
        decode_config_get_response(config_get_response_bytes(m)) == Some(m),
{
    let f1 = opt_string_field(1, m.value);
    let f2 = opt_bool_field(2, m.exists);
    let s = config_get_response_steps();
    let m1 = ConfigGetResponseView { value: m.value, ..config_get_response_default() };
    if m.value.len() > 0 {
        lemma_read_string_field(1, m.value, f2);
        lemma_decode_fields_front(config_get_response_default(), f1, f2, s, m1);
    } else {
        lemma_empty_prefix(f2);
        assert(m.value =~= Seq::<char>::empty());
    }
    assert(decode_fields(config_get_response_default(), f1 + f2, s) == decode_fields(m1, f2, s));
    if m.exists {
        lemma_read_varint_field(2, 1, Seq::empty());
        assert(f2 + Seq::<u8>::empty() =~= f2);
        lemma_decode_fields_front(m1, f2, Seq::empty(), s, m);
    }
}

// ---------------------------------------------------------------------------
// AsyncSubmitResponse
// ---------------------------------------------------------------------------

/// Reply to an async submit: the task id, 0 where the host refused the task.
#[derive(Debug, Clone, Copy)]
pub struct AsyncSubmitResponse {
    pub task_id: u64,
}

/// Wire bytes of an `AsyncSubmitResponse`: `task_id` = 1.
pub open spec fn async_submit_response_bytes(m: AsyncSubmitResponse) -> Seq<u8> {
    opt_uint64_field(1, m.task_id)
}

/// Reads one field of an `AsyncSubmitResponse` (tag `t`, wire type `w`, value at the
/// front of `b`) into `m`: the message after it and the bytes left.
pub open spec fn async_submit_response_step(
    m: AsyncSubmitResponse,
    t: u32,
    w: u8,
    b: Seq<u8>,
) -> Option<(AsyncSubmitResponse, Seq<u8>)> {
    if t == 1 {
        match read_varint_value(w, b) {
            Some((v, r)) => Some((AsyncSubmitResponse { task_id: v as u64 }, r)),
            None => None,
        }
    } else {
        skip_step(m, t, w, b)
    }
}

pub open spec fn async_submit_response_steps(
) -> spec_fn(AsyncSubmitResponse, u32, u8, Seq<u8>) -> Option<(AsyncSubmitResponse, Seq<u8>)> {
    |m: AsyncSubmitResponse, t: u32, w: u8, b: Seq<u8>| async_submit_response_step(m, t, w, b)
}

/// What decoding `b` as an `AsyncSubmitResponse` gives; `None` where prost refuses it.
pub open spec fn decode_async_submit_response(b: Seq<u8>) -> Option<AsyncSubmitResponse> {
    decode_fields(AsyncSubmitResponse { task_id: 0 }, b, async_submit_response_steps())
}

impl AsyncSubmitResponse {
    /// The message's wire bytes.
    pub fn encode_to_vec(&self) -> (res: Vec<u8>)
        ensures
            res@ == async_submit_response_bytes(*self),
    {
        let mut buf: Vec<u8> = Vec::new();
        put_opt_uint64(1, self.task_id, &mut buf);
        assert(buf@ =~= async_submit_response_bytes(*self));
        buf
    }

    /// Decodes an `AsyncSubmitResponse`; `None` where the bytes are malformed.
    pub fn decode(buf: &[u8]) -> (res: Option<AsyncSubmitResponse>)
        ensures
            res == decode_async_submit_response(buf@),
    {
        let mut m = AsyncSubmitResponse { task_id: 0 };
        let mut rest = buf;
        while rest.len() > 0
            invariant
                decode_fields(m, rest@, async_submit_response_steps())
                    == decode_async_submit_response(buf@),
            decreases rest.len(),
        {
            proof {
                lemma_read_key_bounds(rest@);
            }
            let (t, w, r) = match take_key(rest) {
                Some(k) => k,
                None => return None,
            };
            let ghost m0 = m;
            proof {
                lemma_read_varint_bounds(r@);
            }
            let next = if t == 1 {
                merge_uint64(w, &mut m.task_id, r)
            } else {
                skip(w, t, r)
            };
            match next {
                Some(r2) => {
                    assert(async_submit_response_step(m0, t, w, r@) == Some((m, r2@)));
                    rest = r2;
                },
                None => {
                    assert(async_submit_response_step(m0, t, w, r@) is None);
                    return None;
                },
            }
        }
        Some(m)
    }
}

/// A `AsyncSubmitResponse` decodes back to itself.
pub proof fn lemma_async_submit_response_roundtrip(m: AsyncSubmitResponse)
    ensures
        decode_async_submit_response(async_submit_response_bytes(m)) == Some(m),
{
    let f1 = opt_uint64_field(1, m.task_id);
    if m.task_id != 0 {
        lemma_read_varint_field(1, m.task_id, Seq::empty());
        assert(f1 + Seq::<u8>::empty() =~= f1);
        lemma_decode_fields_front(
            AsyncSubmitResponse { task_id: 0 },
            f1,
            Seq::empty(),
            async_submit_response_steps(),
            m,
        );
    }
}

// ---------------------------------------------------------------------------
// AsyncWaitAnyResponse
// ---------------------------------------------------------------------------

/// Reply to a wait: the id of a task that completed.
#[derive(Debug, Clone, Copy)]
pub struct AsyncWaitAnyResponse {
    pub task_id: u64,
}

/// Wire bytes of an `AsyncWaitAnyResponse`: `task_id` = 1.
pub open spec fn async_wait_any_response_bytes(m: AsyncWaitAnyResponse) -> Seq<u8> {
    opt_uint64_field(1, m.task_id)
}

/// Reads one field of an `AsyncWaitAnyResponse` (tag `t`, wire type `w`, value at the
/// front of `b`) into `m`: the message after it and the bytes left.
pub open spec fn async_wait_any_response_step(
    m: AsyncWaitAnyResponse,
    t: u32,
    w: u8,
    b: Seq<u8>,
) -> Option<(AsyncWaitAnyResponse, Seq<u8>)> {
    if t == 1 {
        match read_varint_value(w, b) {
            Some((v, r)) => Some((AsyncWaitAnyResponse { task_id: v as u64 }, r)),
            None => None,
        }
    } else {
        skip_step(m, t, w, b)
    }
}

pub open spec fn async_wait_any_response_steps(
) -> spec_fn(AsyncWaitAnyResponse, u32, u8, Seq<u8>) -> Option<(AsyncWaitAnyResponse, Seq<u8>)> {
    |m: AsyncWaitAnyResponse, t: u32, w: u8, b: Seq<u8>| async_wait_any_response_step(m, t, w, b)
}

/// What decoding `b` as an `AsyncWaitAnyResponse` gives; `None` where prost refuses it.
pub open spec fn decode_async_wait_any_response(b: Seq<u8>) -> Option<AsyncWaitAnyResponse> {
    decode_fields(AsyncWaitAnyResponse { task_id: 0 }, b, async_wait_any_response_steps())
}

impl AsyncWaitAnyResponse {
    /// The message's wire bytes.
    pub fn encode_to_vec(&self) -> (res: Vec<u8>)
        ensures
            res@ == async_wait_any_response_bytes(*self),
    {
        let mut buf: Vec<u8> = Vec::new();
        put_opt_uint64(1, self.task_id, &mut buf);
        assert(buf@ =~= async_wait_any_response_bytes(*self));
        buf
    }

    /// Decodes an `AsyncWaitAnyResponse`; `None` where the bytes are malformed.
    pub fn decode(buf: &[u8]) -> (res: Option<AsyncWaitAnyResponse>)
        ensures
            res == decode_async_wait_any_response(buf@),
    {
        let mut m = AsyncWaitAnyResponse { task_id: 0 };
        let mut rest = buf;
        while rest.len() > 0
            invariant
                decode_fields(m, rest@, async_wait_any_response_steps())
                    == decode_async_wait_any_response(buf@),
            decreases rest.len(),
        {
            proof {
                lemma_read_key_bounds(rest@);
            }
            let (t, w, r) = match take_key(rest) {
                Some(k) => k,
                None => return None,
            };
            let ghost m0 = m;
            proof {
                lemma_read_varint_bounds(r@);
            }
            let next = if t == 1 {
                merge_uint64(w, &mut m.task_id, r)
            } else {
                skip(w, t, r)
            };
            match next {
                Some(r2) => {
                    assert(async_wait_any_response_step(m0, t, w, r@) == Some((m, r2@)));
                    rest = r2;
                },
                None => {
                    assert(async_wait_any_response_step(m0, t, w, r@) is None);
                    return None;
                },
            }
        }
        Some(m)
    }
}

/// A `AsyncWaitAnyResponse` decodes back to itself.
pub proof fn lemma_async_wait_any_response_roundtrip(m: AsyncWaitAnyResponse)
    ensures
        decode_async_wait_any_response(async_wait_any_response_bytes(m)) == Some(m),
{
    let f1 = opt_uint64_field(1, m.task_id);
    if m.task_id != 0 {
        lemma_read_varint_field(1, m.task_id, Seq::empty());
        assert(f1 + Seq::<u8>::empty() =~= f1);
        lemma_decode_fields_front(
            AsyncWaitAnyResponse { task_id: 0 },
            f1,
            Seq::empty(),
            async_wait_any_response_steps(),
            m,
        );
    }
}

// ---------------------------------------------------------------------------
// HttpRequestResponse
// ---------------------------------------------------------------------------

/// Reply to an HTTP request made by the host: the status code, the response
/// headers and the body.
#[derive(Debug)]
pub struct HttpRequestResponse {
    pub status: i32,
    /// Entries of a `map<string, string>`, in the order they are written;
    /// a later entry of a key replaces an earlier one (see `string_map`).
    pub headers: Vec<(String, String)>,
    pub body: Vec<u8>,
}

/// The fields of an `HttpRequestResponse` as mathematical values.
pub ghost struct HttpRequestResponseView {
    pub status: i32,
    pub headers: Seq<(Seq<char>, Seq<char>)>,
    pub body: Seq<u8>,
}

impl View for HttpRequestResponse {
    type V = HttpRequestResponseView;

    open spec fn view(&self) -> HttpRequestResponseView {
        HttpRequestResponseView {
            status: self.status,
            headers: self.headers.deep_view(),
            body: self.body@,
        }
    }
}

/// The default `HttpRequestResponse`: status 0, no headers, empty body.
pub open spec fn http_request_response_default() -> HttpRequestResponseView {
    HttpRequestResponseView { status: 0, headers: Seq::empty(), body: Seq::empty() }
}

/// Wire bytes of an `HttpRequestResponse`: `status` = 1, `headers` = 2,
/// `body` = 3.
pub open spec fn http_request_response_bytes(m: HttpRequestResponseView) -> Seq<u8> {
    opt_int32_field(1, m.status) + string_map_fields(2, m.headers) + opt_bytes_field(3, m.body)
}

/// Reads one field of an `HttpRequestResponse` (tag `t`, wire type `w`, value at the
/// front of `b`) into `m`: the message after it and the bytes left. A header
/// entry is read whatever its key's wire type, as prost reads map fields.
pub open spec fn http_request_response_step(
    m: HttpRequestResponseView,
    t: u32,
    w: u8,
    b: Seq<u8>,
) -> Option<(HttpRequestResponseView, Seq<u8>)> {
    if t == 1 {
        match read_varint_value(w, b) {
            Some((v, r)) => Some((HttpRequestResponseView { status: (v as u64) as i32, ..m }, r)),
            None => None,
        }
    } else if t == 2 {
        match read_map_entry(b) {
            Some((k, v, r)) => Some(
                (HttpRequestResponseView { headers: m.headers.push((k, v)), ..m }, r),
            ),
            None => None,
        }
    } else if t == 3 {
        match read_len_value(w, b) {
            Some((p, r)) => Some((HttpRequestResponseView { body: p, ..m }, r)),
            None => None,
        }
    } else {
        skip_step(m, t, w, b)
    }
}

/// `http_request_response_step` as a function value.
pub open spec fn http_request_response_steps() -> spec_fn(
    HttpRequestResponseView,
    u32,
    u8,
    Seq<u8>,
) -> Option<(HttpRequestResponseView, Seq<u8>)> {
    |m: HttpRequestResponseView, t: u32, w: u8, b: Seq<u8>| http_request_response_step(m, t, w, b)
}

/// What decoding `b` as an `HttpRequestResponse` gives; `None` where prost
/// refuses it.
pub open spec fn decode_http_request_response(b: Seq<u8>) -> Option<HttpRequestResponseView> {
    decode_fields(http_request_response_default(), b, http_request_response_steps())
}

impl HttpRequestResponse {
    /// The message's wire bytes.
    pub fn encode_to_vec(&self) -> (res: Vec<u8>)
        ensures
            res@ == http_request_response_bytes(self@),
    {
        let mut buf: Vec<u8> = Vec::new();
        put_opt_int32(1, self.status, &mut buf);
        put_string_map(2, &self.headers, &mut buf);
        put_opt_bytes(3, &self.body, &mut buf);
        assert(buf@ =~= http_request_response_bytes(self@));
        buf
    }

    /// Decodes an `HttpRequestResponse`; `None` where the bytes are
    /// malformed.
    pub fn decode(buf: &[u8]) -> (res: Option<HttpRequestResponse>)
        ensures
            match decode_http_request_response(buf@) {
                Some(v) => res matches Some(m) && m@ == v,
                None => res is None,
            },
    {
        let mut m = HttpRequestResponse { status: 0, headers: Vec::new(), body: Vec::new() };
        let mut rest = buf;
        assert(m.headers.deep_view() =~= Seq::<(Seq<char>, Seq<char>)>::empty());
        while rest.len() > 0
            invariant
                decode_fields(m@, rest@, http_request_response_steps())
                    == decode_http_request_response(buf@),
            decreases rest.len(),
        {
            proof {
                lemma_read_key_bounds(rest@);
            }
            let (t, w, r) = match take_key(rest) {
                Some(k) => k,
                None => return None,
            };
            let ghost m0 = m@;
            proof {
                lemma_read_varint_bounds(r@);
            }
            let next = if t == 1 {
                merge_int32(w, &mut m.status, r)
            } else if t == 2 {
                match merge_string_map_entry(r) {
                    Some((k, v, r2)) => {
                        let ghost pre = m.headers@;
                        let ghost entry = (k@, v@);
                        m.headers.push((k, v));
                        assert(m.headers@ == pre.push(m.headers@.last()));
                        assert(m.headers.deep_view() =~= m0.headers.push(entry));
                        Some(r2)
                    },
                    None => None,
                }
            } else if t == 3 {
                merge_bytes(w, &mut m.body, r)
            } else {
                skip(w, t, r)
            };
            match next {
                Some(r2) => {
                    assert(http_request_response_step(m0, t, w, r@) == Some((m@, r2@)));
                    rest = r2;
                },
                None => {
                    assert(http_request_response_step(m0, t, w, r@) is None);
                    return None;
                },
            }
        }
        Some(m)
    }
}

proof fn lemma_headers_decode(
    m: HttpRequestResponseView,
    es: Seq<(Seq<char>, Seq<char>)>,
    rest: Seq<u8>,
)
    requires
        forall|i: int| 0 <= i < es.len() ==> #[trigger] header_fits(es[i]),
    ensures
        decode_fields(m, string_map_fields(2, es) + rest, http_request_response_steps())
            == decode_fields(
            HttpRequestResponseView { headers: m.headers + es, ..m },
            rest,
            http_request_response_steps(),
        ),
    decreases es.len(),
{
    let s = http_request_response_steps();
    if es.len() == 0 {
        lemma_empty_prefix(rest);
        assert(m.headers + es =~= m.headers);
    } else {
        let init = es.drop_last();
        let last = es.last();
        let f = len_field(2, map_entry(last.0, last.1));
        assert(string_map_fields(2, es) + rest =~= string_map_fields(2, init) + (f + rest));
        assert forall|i: int| 0 <= i < init.len() implies #[trigger] header_fits(init[i]) by {
            assert(init[i] == es[i]);
        }
        lemma_headers_decode(m, init, f + rest);
        let mi = HttpRequestResponseView { headers: m.headers + init, ..m };
        assert(header_fits(es[es.len() - 1]));
        lemma_read_map_entry_field(2, last.0, last.1, rest);
        let mf = HttpRequestResponseView { headers: (m.headers + init).push(last), ..m };
        lemma_decode_fields_front(mi, f, rest, s, mf);
        assert((m.headers + init).push(last) =~= m.headers + es);
    }
}

/// A header entry whose encoding fits the lengths that protobuf counts in.
pub open spec fn header_fits(e: (Seq<char>, Seq<char>)) -> bool {
    &&& encode_utf8(e.0).len() <= u64::MAX
    &&& encode_utf8(e.1).len() <= u64::MAX
    &&& map_entry(e.0, e.1).len() <= u64::MAX
}

/// An `HttpRequestResponse` decodes back to itself, its header entries in
/// the order they were written.
pub proof fn lemma_http_request_response_roundtrip(m: HttpRequestResponseView)
    requires
        m.body.len() <= u64::MAX,
        forall|i: int| 0 <= i < m.headers.len() ==> #[trigger] header_fits(m.headers[i]),
    ensures
        decode_http_request_response(http_request_response_bytes(m)) == Some(m),
{
    let f1 = opt_int32_field(1, m.status);
    let f2 = string_map_fields(2, m.headers);
    let f3 = opt_bytes_field(3, m.body);
    let s = http_request_response_steps();
    let d = http_request_response_default();
    let m1 = HttpRequestResponseView { status: m.status, ..d };
    let m2 = HttpRequestResponseView { headers: m.headers, ..m1 };
    assert(f1 + f2 + f3 =~= f1 + (f2 + f3));
    let x: i32 = m.status;
    assert(((x as u64) as i32) == x) by (bit_vector);
    if m.status != 0 {
        lemma_read_varint_field(1, m.status as u64, f2 + f3);
        lemma_decode_fields_front(d, f1, f2 + f3, s, m1);
    } else {
        lemma_empty_prefix(f2 + f3);
    }
    lemma_headers_decode(m1, m.headers, f3);
    assert(m1.headers + m.headers =~= m.headers);
    if m.body.len() > 0 {
        lemma_read_len_field(3, m.body, Seq::empty());
        assert(f3 + Seq::<u8>::empty() =~= f3);
        lemma_decode_fields_front(m2, f3, Seq::empty(), s, m);
    } else {
        assert(m.body =~= Seq::<u8>::empty());
    }
}

// ---------------------------------------------------------------------------
// AsyncResolveResponse
// ---------------------------------------------------------------------------

/// Reply to an async resolve: whether the task is done, its encoded result,
/// and the error the host met, empty where there was none.
#[derive(Debug)]
pub struct AsyncResolveResponse {
    pub done: bool,
    pub result: Vec<u8>,
    pub error: String,
}

/// The fields of an `AsyncResolveResponse` as mathematical values.
pub ghost struct AsyncResolveResponseView {
    pub done: bool,
    pub result: Seq<u8>,
    pub error: Seq<char>,
}

impl View for AsyncResolveResponse {
    type V = AsyncResolveResponseView;

    open spec fn view(&self) -> AsyncResolveResponseView {
        AsyncResolveResponseView { done: self.done, result: self.result@, error: self.error@ }
    }
}

/// The default `AsyncResolveResponse`: not done, empty result and error.
pub open spec fn async_resolve_response_default() -> AsyncResolveResponseView {
    AsyncResolveResponseView { done: false, result: Seq::empty(), error: Seq::empty() }
}

/// Wire bytes of an `AsyncResolveResponse`: `done` = 1, `result` = 2,
/// `error` = 3.
pub open spec fn async_resolve_response_bytes(m: AsyncResolveResponseView) -> Seq<u8> {
    opt_bool_field(1, m.done) + opt_bytes_field(2, m.result) + opt_string_field(3, m.error)
}

/// Reads one field of an `AsyncResolveResponse` (tag `t`, wire type `w`, value at the
/// front of `b`) into `m`: the message after it and the bytes left.
pub open spec fn async_resolve_response_step(
    m: AsyncResolveResponseView,
    t: u32,
    w: u8,
    b: Seq<u8>,
) -> Option<(AsyncResolveResponseView, Seq<u8>)> {
    if t == 1 {
        match read_varint_value(w, b) {
            Some((v, r)) => Some((AsyncResolveResponseView { done: v != 0, ..m }, r)),
            None => None,
        }
    } else if t == 2 {
        match read_len_value(w, b) {
            Some((p, r)) => Some((AsyncResolveResponseView { result: p, ..m }, r)),
            None => None,
        }
    } else if t == 3 {
        match read_string_value(w, b) {
            Some((e, r)) => Some((AsyncResolveResponseView { error: e, ..m }, r)),
            None => None,
        }
    } else {
        skip_step(m, t, w, b)
    }
}

/// `async_resolve_response_step` as a function value.
pub open spec fn async_resolve_response_steps() -> spec_fn(
    AsyncResolveResponseView,
    u32,
    u8,
    Seq<u8>,
) -> Option<(AsyncResolveResponseView, Seq<u8>)> {
    |m: AsyncResolveResponseView, t: u32, w: u8, b: Seq<u8>|
        async_resolve_response_step(m, t, w, b)
}

/// What decoding `b` as an `AsyncResolveResponse` gives; `None` where prost
/// refuses it.
pub open spec fn decode_async_resolve_response(b: Seq<u8>) -> Option<AsyncResolveResponseView> {
    decode_fields(async_resolve_response_default(), b, async_resolve_response_steps())
}

impl AsyncResolveResponse {
    /// The message's wire bytes.
    pub fn encode_to_vec(&self) -> (res: Vec<u8>)
        ensures
            res@ == async_resolve_response_bytes(self@),
    {
        let mut buf: Vec<u8> = Vec::new();
        put_opt_bool(1, self.done, &mut buf);
        put_opt_bytes(2, &self.result, &mut buf);
        put_opt_string(3, &self.error, &mut buf);
        assert(buf@ =~= async_resolve_response_bytes(self@));
        buf
    }

    /// Decodes an `AsyncResolveResponse`; `None` where the bytes are
    /// malformed.
    pub fn decode(buf: &[u8]) -> (res: Option<AsyncResolveResponse>)
        ensures
            match decode_async_resolve_response(buf@) {
                Some(v) => res matches Some(m) && m@ == v,
                None => res is None,
            },
    {
        let mut m = AsyncResolveResponse { done: false, result: Vec::new(), error: String::new() };
        let mut rest = buf;
        while rest.len() > 0
            invariant
                decode_fields(m@, rest@, async_resolve_response_steps())
                    == decode_async_resolve_response(buf@),
            decreases rest.len(),
        {
            proof {
                lemma_read_key_bounds(rest@);
            }
            let (t, w, r) = match take_key(rest) {
                Some(k) => k,
                None => return None,
            };
            let ghost m0 = m@;
            proof {
                lemma_read_varint_bounds(r@);
            }
            let next = if t == 1 {
                merge_bool(w, &mut m.done, r)
            } else if t == 2 {
                merge_bytes(w, &mut m.result, r)
            } else if t == 3 {
                merge_string(w, &mut m.error, r)
            } else {
                skip(w, t, r)
            };
            match next {
                Some(r2) => {
                    assert(async_resolve_response_step(m0, t, w, r@) == Some((m@, r2@)));
                    rest = r2;
                },
                None => {
                    assert(async_resolve_response_step(m0, t, w, r@) is None);
                    return None;
                },
            }
        }
        Some(m)
    }
}

/// An `AsyncResolveResponse` decodes back to itself.
pub proof fn lemma_async_resolve_response_roundtrip(m: AsyncResolveResponseView)
    requires
        m.result.len() <= u64::MAX,
        encode_utf8(m.error).len() <= u64::MAX,
    ensures
        decode_async_resolve_response(async_resolve_response_bytes(m)) == Some(m),
{
    let f1 = opt_bool_field(1, m.done);
    let f2 = opt_bytes_field(2, m.result);
    let f3 = opt_string_field(3, m.error);
    let s = async_resolve_response_steps();
    let d = async_resolve_response_default();
    let m1 = AsyncResolveResponseView { done: m.done, ..d };
    let m2 = AsyncResolveResponseView { result: m.result, ..m1 };
    assert(f1 + f2 + f3 =~= f1 + (f2 + f3));
    if m.done {
        lemma_read_varint_field(1, 1, f2 + f3);
        lemma_decode_fields_front(d, f1, f2 + f3, s, m1);
    } else {
        lemma_empty_prefix(f2 + f3);
    }
    if m.result.len() > 0 {
        lemma_read_len_field(2, m.result, f3);
        lemma_decode_fields_front(m1, f2, f3, s, m2);
    } else {
        lemma_empty_prefix(f3);
        assert(m.result =~= Seq::<u8>::empty());
    }
    if m.error.len() > 0 {
        lemma_read_string_field(3, m.error, Seq::empty());
        assert(f3 + Seq::<u8>::empty() =~= f3);
        lemma_decode_fields_front(m2, f3, Seq::empty(), s, m);
    } else {
        assert(m.error =~= Seq::<char>::empty());
    }
}

// ---------------------------------------------------------------------------
// DbQueryResponse
// ---------------------------------------------------------------------------

/// Reply to a database query: the rows, each the encoded bytes of a
/// `google.protobuf.Struct`, the total count, and the error the host met,
/// empty where there was none.
#[derive(Debug)]
pub struct DbQueryResponse {
    pub rows: Vec<Vec<u8>>,
    pub total: i64,
    pub error: String,
}

/// The fields of a `DbQueryResponse` as mathematical values.
pub ghost struct DbQueryResponseView {
    pub rows: Seq<Seq<u8>>,
    pub total: i64,
    pub error: Seq<char>,
}

impl View for DbQueryResponse {
    type V = DbQueryResponseView;

    open spec fn view(&self) -> DbQueryResponseView {
        DbQueryResponseView { rows: self.rows.deep_view(), total: self.total, error: self.error@ }
    }
}

/// The default `DbQueryResponse`: no rows, total 0, empty error.
pub open spec fn db_query_response_default() -> DbQueryResponseView {
    DbQueryResponseView { rows: Seq::empty(), total: 0, error: Seq::empty() }
}

/// Wire bytes of a `DbQueryResponse`: `rows` = 1 (repeated), `total` = 2,
/// `error` = 3.
pub open spec fn db_query_response_bytes(m: DbQueryResponseView) -> Seq<u8> {
    len_list_fields(1, m.rows) + opt_int64_field(2, m.total) + opt_string_field(3, m.error)
}

/// Reads one field of a `DbQueryResponse` (tag `t`, wire type `w`, value at the
/// front of `b`) into `m`: the message after it and the bytes left.
pub open spec fn db_query_response_step(
    m: DbQueryResponseView,
    t: u32,
    w: u8,
    b: Seq<u8>,
) -> Option<(DbQueryResponseView, Seq<u8>)> {
    if t == 1 {
        match read_len_value(w, b) {
            Some((p, r)) => if struct_payload_decodes(p) {
                Some((DbQueryResponseView { rows: m.rows.push(p), ..m }, r))
            } else {
                None
            },
            None => None,
        }
    } else if t == 2 {
        match read_varint_value(w, b) {
            Some((v, r)) => Some((DbQueryResponseView { total: (v as u64) as i64, ..m }, r)),
            None => None,
        }
    } else if t == 3 {
        match read_string_value(w, b) {
            Some((e, r)) => Some((DbQueryResponseView { error: e, ..m }, r)),
            None => None,
        }
    } else {
        skip_step(m, t, w, b)
    }
}

pub open spec fn db_query_response_steps(
) -> spec_fn(DbQueryResponseView, u32, u8, Seq<u8>) -> Option<(DbQueryResponseView, Seq<u8>)> {
    |m: DbQueryResponseView, t: u32, w: u8, b: Seq<u8>| db_query_response_step(m, t, w, b)
}

/// What decoding `b` as a `DbQueryResponse` gives; `None` where prost
/// refuses it, a malformed row among the causes.
pub open spec fn decode_db_query_response(b: Seq<u8>) -> Option<DbQueryResponseView> {
    decode_fields(db_query_response_default(), b, db_query_response_steps())
}

impl DbQueryResponse {
    /// The message's wire bytes.
    pub fn encode_to_vec(&self) -> (res: Vec<u8>)
        ensures
            res@ == db_query_response_bytes(self@),
    {
        let mut buf: Vec<u8> = Vec::new();
        put_len_list(1, &self.rows, &mut buf);
        put_opt_int64(2, self.total, &mut buf);
        put_opt_string(3, &self.error, &mut buf);
        assert(buf@ =~= db_query_response_bytes(self@));
        buf
    }

    /// Decodes a `DbQueryResponse`; `None` where the bytes are malformed.
    pub fn decode(buf: &[u8]) -> (res: Option<DbQueryResponse>)
        ensures
            match decode_db_query_response(buf@) {
                Some(v) => res matches Some(m) && m@ == v,
                None => res is None,
            },
    {
        let mut m = DbQueryResponse { rows: Vec::new(), total: 0, error: String::new() };
        let mut rest = buf;
        assert(m.rows.deep_view() =~= Seq::<Seq<u8>>::empty());
        while rest.len() > 0
            invariant
                decode_fields(m@, rest@, db_query_response_steps()) == decode_db_query_response(
                    buf@,
                ),
            decreases rest.len(),
        {
            proof {
                lemma_read_key_bounds(rest@);
            }
            let (t, w, r) = match take_key(rest) {
                Some(k) => k,
                None => return None,
            };
            let ghost m0 = m@;
            proof {
                lemma_read_varint_bounds(r@);
            }
            let next = if t == 1 {
                match check_struct(w, r) {
                    Some(_) => {
                        let mut row: Vec<u8> = Vec::new();
                        let after = merge_bytes(w, &mut row, r);
                        let ghost pre_rows = m.rows@;
                        proof {
                            assert(row.deep_view() =~= row@);
                        }
                        m.rows.push(row);
                        assert(m.rows@ == pre_rows.push(row));
                        assert(m.rows.deep_view() =~= m0.rows.push(row@));
                        after
                    },
                    None => None,
                }
            } else if t == 2 {
                merge_int64(w, &mut m.total, r)
            } else if t == 3 {
                merge_string(w, &mut m.error, r)
            } else {
                skip(w, t, r)
            };
            match next {
                Some(r2) => {
                    assert(db_query_response_step(m0, t, w, r@) == Some((m@, r2@)));
                    rest = r2;
                },
                None => {
                    assert(db_query_response_step(m0, t, w, r@) is None);
                    return None;
                },
            }
        }
        Some(m)
    }
}

proof fn lemma_db_rows_decode(m: DbQueryResponseView, rows: Seq<Seq<u8>>, rest: Seq<u8>)
    requires
        forall|i: int| 0 <= i < rows.len() ==> #[trigger] struct_payload_decodes(rows[i]),
        forall|i: int| 0 <= i < rows.len() ==> #[trigger] rows[i].len() <= u64::MAX,
    ensures
        decode_fields(m, len_list_fields(1, rows) + rest, db_query_response_steps())
            == decode_fields(
            DbQueryResponseView { rows: m.rows + rows, ..m },
            rest,
            db_query_response_steps(),
        ),
    decreases rows.len(),
{
    let s = db_query_response_steps();
    if rows.len() == 0 {
        lemma_empty_prefix(rest);
        assert(m.rows + rows =~= m.rows);
    } else {
        let init = rows.drop_last();
        let last = rows.last();
        let f = len_field(1, last);
        assert(len_list_fields(1, rows) + rest =~= len_list_fields(1, init) + (f + rest));
        lemma_db_rows_decode(m, init, f + rest);
        let mi = DbQueryResponseView { rows: m.rows + init, ..m };
        assert(struct_payload_decodes(rows[rows.len() - 1]));
        assert(rows[rows.len() - 1].len() <= u64::MAX);
        lemma_read_len_field(1, last, rest);
        let mf = DbQueryResponseView { rows: (m.rows + init).push(last), ..m };
        lemma_decode_fields_front(mi, f, rest, s, mf);
        assert((m.rows + init).push(last) =~= m.rows + rows);
    }
}

/// A `DbQueryResponse` whose rows are valid `Struct` payloads decodes back
/// to itself.
pub proof fn lemma_db_query_response_roundtrip(m: DbQueryResponseView)
    requires
        forall|i: int| 0 <= i < m.rows.len() ==> #[trigger] struct_payload_decodes(m.rows[i]),
        forall|i: int| 0 <= i < m.rows.len() ==> #[trigger] m.rows[i].len() <= u64::MAX,
        encode_utf8(m.error).len() <= u64::MAX,
    ensures
        decode_db_query_response(db_query_response_bytes(m)) == Some(m),
{
    let f1 = len_list_fields(1, m.rows);
    let f2 = opt_int64_field(2, m.total);
    let f3 = opt_string_field(3, m.error);
    let s = db_query_response_steps();
    let d = db_query_response_default();
    let m1 = DbQueryResponseView { rows: m.rows, ..d };
    let m2 = DbQueryResponseView { total: m.total, ..m1 };
    assert(f1 + f2 + f3 =~= f1 + (f2 + f3));
    lemma_db_rows_decode(d, m.rows, f2 + f3);
    assert(d.rows + m.rows =~= m.rows);
    let x: i64 = m.total;
    assert(((x as u64) as i64) == x) by (bit_vector);
    if m.total != 0 {
        lemma_read_varint_field(2, m.total as u64, f3);
        lemma_decode_fields_front(m1, f2, f3, s, m2);
    } else {
        lemma_empty_prefix(f3);
    }
    if m.error.len() > 0 {
        lemma_read_string_field(3, m.error, Seq::empty());
        assert(f3 + Seq::<u8>::empty() =~= f3);
        lemma_decode_fields_front(m2, f3, Seq::empty(), s, m);
    } else {
        assert(m.error =~= Seq::<char>::empty());
    }
}

/// The `BoolResult` that `b` decodes to, or the default one where it does not
/// decode.
pub open spec fn bool_result_or_default(b: Seq<u8>) -> BoolResultView {
    match decode_bool_result(b) {
        Some(v) => v,
        None => bool_result_default(),
    }
}

impl BoolResult {
    /// Decodes a `BoolResult`, falling back to the default message where the
    /// bytes are malformed.
    pub fn decode_or_default(buf: &[u8]) -> (res: BoolResult)
        ensures
            res@ == bool_result_or_default(buf@),
    {
        match BoolResult::decode(buf) {
            Some(m) => m,
            None => BoolResult::default(),
        }
    }
}

/// The `RedisGetResponse` that `b` decodes to, or the default one where it does not
/// decode.
pub open spec fn redis_get_response_or_default(b: Seq<u8>) -> RedisGetResponseView {
    match decode_redis_get_response(b) {
        Some(v) => v,
        None => redis_get_response_default(),
    }
}

impl RedisGetResponse {
    /// Decodes a `RedisGetResponse`, falling back to the default message where the
    /// bytes are malformed.
    pub fn decode_or_default(buf: &[u8]) -> (res: RedisGetResponse)
        ensures
            res@ == redis_get_response_or_default(buf@),
    {
        match RedisGetResponse::decode(buf) {
            Some(m) => m,
            None => RedisGetResponse::default(),
        }
    }
}

/// The `ConfigGetResponse` that `b` decodes to, or the default one where it does not
/// decode.
pub open spec fn config_get_response_or_default(b: Seq<u8>) -> ConfigGetResponseView {
    match decode_config_get_response(b) {
        Some(v) => v,
        None => config_get_response_default(),
    }
}

impl ConfigGetResponse {
    /// Decodes a `ConfigGetResponse`, falling back to the default message where the
    /// bytes are malformed.
    pub fn decode_or_default(buf: &[u8]) -> (res: ConfigGetResponse)
        ensures
            res@ == config_get_response_or_default(buf@),
    {
        match ConfigGetResponse::decode(buf) {
            Some(m) => m,
            None => ConfigGetResponse::default(),
        }
    }
}

/// The `HttpRequestResponse` that `b` decodes to, or the default one where it does not
/// decode.
pub open spec fn http_request_response_or_default(b: Seq<u8>) -> HttpRequestResponseView {
    match decode_http_request_response(b) {
        Some(v) => v,
        None => http_request_response_default(),
    }
}

impl HttpRequestResponse {
    /// Decodes an `HttpRequestResponse`, falling back to the default message where the
    /// bytes are malformed.
    pub fn decode_or_default(buf: &[u8]) -> (res: HttpRequestResponse)
        ensures
            res@ == http_request_response_or_default(buf@),
    {
        match HttpRequestResponse::decode(buf) {
            Some(m) => m,
            None => HttpRequestResponse::default(),
        }
    }
}

/// The `AsyncResolveResponse` that `b` decodes to, or the default one where it does not
/// decode.
pub open spec fn async_resolve_response_or_default(b: Seq<u8>) -> AsyncResolveResponseView {
    match decode_async_resolve_response(b) {
        Some(v) => v,
        None => async_resolve_response_default(),
    }
}

impl AsyncResolveResponse {
    /// Decodes an `AsyncResolveResponse`, falling back to the default message where the
    /// bytes are malformed.
    pub fn decode_or_default(buf: &[u8]) -> (res: AsyncResolveResponse)
        ensures
            res@ == async_resolve_response_or_default(buf@),
    {
        match AsyncResolveResponse::decode(buf) {
            Some(m) => m,
            None => AsyncResolveResponse::default(),
        }
    }
}

/// The `DbQueryResponse` that `b` decodes to, or the default one where it does not
/// decode.
pub open spec fn db_query_response_or_default(b: Seq<u8>) -> DbQueryResponseView {
    match decode_db_query_response(b) {
        Some(v) => v,
        None => db_query_response_default(),
    }
}

impl DbQueryResponse {
    /// Decodes a `DbQueryResponse`, falling back to the default message where the
    /// bytes are malformed.
    pub fn decode_or_default(buf: &[u8]) -> (res: DbQueryResponse)
        ensures
            res@ == db_query_response_or_default(buf@),
    {
        match DbQueryResponse::decode(buf) {
            Some(m) => m,
            None => DbQueryResponse::default(),
        }
    }
}

/// The `AsyncSubmitResponse` that `b` decodes to, or the default one where it does not
/// decode.
pub open spec fn async_submit_response_or_default(b: Seq<u8>) -> AsyncSubmitResponse {
    match decode_async_submit_response(b) {
        Some(v) => v,
        None => AsyncSubmitResponse { task_id: 0 },
    }
}

impl AsyncSubmitResponse {
    /// Decodes an `AsyncSubmitResponse`, falling back to the default message where the
    /// bytes are malformed.
    pub fn decode_or_default(buf: &[u8]) -> (res: AsyncSubmitResponse)
        ensures
            res == async_submit_response_or_default(buf@),
    {
        match AsyncSubmitResponse::decode(buf) {
            Some(m) => m,
            None => AsyncSubmitResponse { task_id: 0 },
        }
    }
}

/// The `AsyncWaitAnyResponse` that `b` decodes to, or the default one where it does not
/// decode.
pub open spec fn async_wait_any_response_or_default(b: Seq<u8>) -> AsyncWaitAnyResponse {
    match decode_async_wait_any_response(b) {
        Some(v) => v,
        None => AsyncWaitAnyResponse { task_id: 0 },
    }
}

impl AsyncWaitAnyResponse {
    /// Decodes an `AsyncWaitAnyResponse`, falling back to the default message where the
    /// bytes are malformed.
    pub fn decode_or_default(buf: &[u8]) -> (res: AsyncWaitAnyResponse)
        ensures
            res == async_wait_any_response_or_default(buf@),
    {
        match AsyncWaitAnyResponse::decode(buf) {
            Some(m) => m,
            None => AsyncWaitAnyResponse { task_id: 0 },
        }
    }
}

impl Default for BoolResult {
    /// The default message: every field at its zero value.
    fn default() -> (res: BoolResult)
        ensures
            res@ == bool_result_default(),
    {
        let res = BoolResult { success: false, error: String::new() };
        proof {
            assert(res@ == bool_result_default());
        }
        res
    }
}

impl Default for RedisGetResponse {
    /// The default message: every field at its zero value.
    fn default() -> (res: RedisGetResponse)
        ensures
            res@ == redis_get_response_default(),
    {
        let res = RedisGetResponse { value: String::new(), exists: false };
        proof {
            assert(res@ == redis_get_response_default());
        }
        res
    }
}

impl Default for ConfigGetResponse {
    /// The default message: every field at its zero value.
    fn default() -> (res: ConfigGetResponse)
        ensures
            res@ == config_get_response_default(),
    {
        let res = ConfigGetResponse { value: String::new(), exists: false };
        proof {
            assert(res@ == config_get_response_default());
        }
        res
    }
}

impl Default for HttpRequestResponse {
    /// The default message: every field at its zero value.
    fn default() -> (res: HttpRequestResponse)
        ensures
            res@ == http_request_response_default(),
    {
        let res = HttpRequestResponse { status: 0, headers: Vec::new(), body: Vec::new() };
        proof {
            assert(res.headers.deep_view() =~= Seq::<(Seq<char>, Seq<char>)>::empty());
            assert(res@ == http_request_response_default());
        }
        res
    }
}

impl Default for AsyncResolveResponse {
    /// The default message: every field at its zero value.
    fn default() -> (res: AsyncResolveResponse)
        ensures
            res@ == async_resolve_response_default(),
    {
        let res = AsyncResolveResponse { done: false, result: Vec::new(), error: String::new() };
        proof {
            assert(res@ == async_resolve_response_default());
        }
        res
    }
}

impl Default for DbQueryResponse {
    /// The default message: every field at its zero value.
    fn default() -> (res: DbQueryResponse)
        ensures
            res@ == db_query_response_default(),
    {
        let res = DbQueryResponse { rows: Vec::new(), total: 0, error: String::new() };
        proof {
            assert(res.rows.deep_view() =~= Seq::<Seq<u8>>::empty());
            assert(res@ == db_query_response_default());
        }
        res
    }
}

// ---------------------------------------------------------------------------
// LogRequest
// ---------------------------------------------------------------------------
/// A log line for the host: level, message and structured fields.
#[derive(Debug)]
pub struct LogRequest {
    /// `info`, `warn` or `error`.
    pub level: String,
    pub message: String,
    /// Entries of a `map<string, string>`, in the order they are written.
    pub fields: Vec<(String, String)>,
}

/// Wire bytes of a `LogRequest` with the given fields: `level` = 1, `message` = 2, `fields` = 3.
pub open spec fn log_request_wire(
    level: Seq<char>,
    message: Seq<char>,
    fields: Seq<(Seq<char>, Seq<char>)>,
) -> Seq<u8> {
    opt_string_field(1, level)
        + opt_string_field(2, message)
        + string_map_fields(3, fields)
}

/// Wire bytes of a `LogRequest`.
pub open spec fn log_request_bytes(m: LogRequest) -> Seq<u8> {
    log_request_wire(m.level@, m.message@, m.fields.deep_view())
}

impl LogRequest {
    /// The message's wire bytes.
    pub fn encode_to_vec(&self) -> (res: Vec<u8>)
        ensures
            res@ == log_request_bytes(*self),
    {
        let mut buf: Vec<u8> = Vec::new();
        put_opt_string(1, &self.level, &mut buf);
        put_opt_string(2, &self.message, &mut buf);
        put_string_map(3, &self.fields, &mut buf);
        assert(buf@ =~= log_request_bytes(*self));
        buf
    }
}

// ---------------------------------------------------------------------------
// RegisterRouteRequest
// ---------------------------------------------------------------------------
/// Registration of an HTTP route.
#[derive(Debug)]
pub struct RegisterRouteRequest {
    pub method: String,
    pub path: String,
    /// Export name of the handler.
    pub handler: String,
    /// Names of the middleware to run first.
    pub middleware: Vec<String>,
}

/// Wire bytes of a `RegisterRouteRequest` with the given fields: `method` = 1, `path` = 2,
/// `handler` = 3, `middleware` = 4.
pub open spec fn register_route_request_wire(
    method: Seq<char>,
    path: Seq<char>,
    handler: Seq<char>,
    middleware: Seq<Seq<char>>,
) -> Seq<u8> {
    opt_string_field(1, method)
        + opt_string_field(2, path)
        + opt_string_field(3, handler)
        + string_list_fields(4, middleware)
}

/// Wire bytes of a `RegisterRouteRequest`.
pub open spec fn register_route_request_bytes(m: RegisterRouteRequest) -> Seq<u8> {
    register_route_request_wire(m.method@, m.path@, m.handler@, m.middleware.deep_view())
}

impl RegisterRouteRequest {
    /// The message's wire bytes.
    pub fn encode_to_vec(&self) -> (res: Vec<u8>)
        ensures
            res@ == register_route_request_bytes(*self),
    {
        let mut buf: Vec<u8> = Vec::new();
        put_opt_string(1, &self.method, &mut buf);
        put_opt_string(2, &self.path, &mut buf);
        put_opt_string(3, &self.handler, &mut buf);
        put_string_list(4, &self.middleware, &mut buf);
        assert(buf@ =~= register_route_request_bytes(*self));
        buf
    }
}

// ---------------------------------------------------------------------------
// RegisterMiddlewareRequest
// ---------------------------------------------------------------------------
/// Registration of a middleware.
#[derive(Debug)]
pub struct RegisterMiddlewareRequest {
    pub name: String,
    /// Export name of the middleware.
    pub handler: String,
}

/// Wire bytes of a `RegisterMiddlewareRequest` with the given fields: `name` = 1, `handler` = 2.
pub open spec fn register_middleware_request_wire(name: Seq<char>, handler: Seq<char>) -> Seq<u8> {
    opt_string_field(1, name)
        + opt_string_field(2, handler)
}

/// Wire bytes of a `RegisterMiddlewareRequest`.
pub open spec fn register_middleware_request_bytes(m: RegisterMiddlewareRequest) -> Seq<u8> {
    register_middleware_request_wire(m.name@, m.handler@)
}

impl RegisterMiddlewareRequest {
    /// The message's wire bytes.
    pub fn encode_to_vec(&self) -> (res: Vec<u8>)
        ensures
            res@ == register_middleware_request_bytes(*self),
    {
        let mut buf: Vec<u8> = Vec::new();
        put_opt_string(1, &self.name, &mut buf);
        put_opt_string(2, &self.handler, &mut buf);
        assert(buf@ =~= register_middleware_request_bytes(*self));
        buf
    }
}

// ---------------------------------------------------------------------------
// RedisGetRequest
// ---------------------------------------------------------------------------
/// Read of a Redis key in the plugin's namespace.
#[derive(Debug)]
pub struct RedisGetRequest {
    pub key: String,
}

/// Wire bytes of a `RedisGetRequest` with the given fields: `key` = 1.
pub open spec fn redis_get_request_wire(key: Seq<char>) -> Seq<u8> {
    opt_string_field(1, key)
}

/// Wire bytes of a `RedisGetRequest`.
pub open spec fn redis_get_request_bytes(m: RedisGetRequest) -> Seq<u8> {
    redis_get_request_wire(m.key@)
}

impl RedisGetRequest {
    /// The message's wire bytes.
    pub fn encode_to_vec(&self) -> (res: Vec<u8>)
        ensures
            res@ == redis_get_request_bytes(*self),
    {
        let mut buf: Vec<u8> = Vec::new();
        put_opt_string(1, &self.key, &mut buf);
        assert(buf@ =~= redis_get_request_bytes(*self));
        buf
    }
}

// ---------------------------------------------------------------------------
// RedisSetRequest
// ---------------------------------------------------------------------------
/// Write of a Redis key in the plugin's namespace.
#[derive(Debug)]
pub struct RedisSetRequest {
    pub key: String,
    pub value: String,
    pub ttl_seconds: i64,
}

/// Wire bytes of a `RedisSetRequest` with the given fields: `key` = 1, `value` = 2, `ttl_seconds` =
/// 3.
pub open spec fn redis_set_request_wire(
    key: Seq<char>,
    value: Seq<char>,
    ttl_seconds: i64,
) -> Seq<u8> {
    opt_string_field(1, key)
        + opt_string_field(2, value)
        + opt_int64_field(3, ttl_seconds)
}

/// Wire bytes of a `RedisSetRequest`.
pub open spec fn redis_set_request_bytes(m: RedisSetRequest) -> Seq<u8> {
    redis_set_request_wire(m.key@, m.value@, m.ttl_seconds)
}

impl RedisSetRequest {
    /// The message's wire bytes.
    pub fn encode_to_vec(&self) -> (res: Vec<u8>)
        ensures
            res@ == redis_set_request_bytes(*self),
    {
        let mut buf: Vec<u8> = Vec::new();
        put_opt_string(1, &self.key, &mut buf);
        put_opt_string(2, &self.value, &mut buf);
        put_opt_int64(3, self.ttl_seconds, &mut buf);
        assert(buf@ =~= redis_set_request_bytes(*self));
        buf
    }
}

// ---------------------------------------------------------------------------
// ConfigGetRequest
// ---------------------------------------------------------------------------
/// Read of a host configuration key.
#[derive(Debug)]
pub struct ConfigGetRequest {
    pub key: String,
}

/// Wire bytes of a `ConfigGetRequest` with the given fields: `key` = 1.
pub open spec fn config_get_request_wire(key: Seq<char>) -> Seq<u8> {
    opt_string_field(1, key)
}

/// Wire bytes of a `ConfigGetRequest`.
pub open spec fn config_get_request_bytes(m: ConfigGetRequest) -> Seq<u8> {
    config_get_request_wire(m.key@)
}

impl ConfigGetRequest {
    /// The message's wire bytes.
    pub fn encode_to_vec(&self) -> (res: Vec<u8>)
        ensures
            res@ == config_get_request_bytes(*self),
    {
        let mut buf: Vec<u8> = Vec::new();
        put_opt_string(1, &self.key, &mut buf);
        assert(buf@ =~= config_get_request_bytes(*self));
        buf
    }
}

// ---------------------------------------------------------------------------
// EmitEventRequest
// ---------------------------------------------------------------------------
/// An event to publish.
#[derive(Debug)]
pub struct EmitEventRequest {
    pub event: String,
    /// Encoded `google.protobuf.Struct`, where there is one.
    pub payload: Option<Vec<u8>>,
}

/// Wire bytes of an `EmitEventRequest` with the given fields: `event` = 1, `payload` = 2.
pub open spec fn emit_event_request_wire(event: Seq<char>, payload: Option<Seq<u8>>) -> Seq<u8> {
    opt_string_field(1, event)
        + opt_message_field(2, payload)
}

/// Wire bytes of an `EmitEventRequest`.
pub open spec fn emit_event_request_bytes(m: EmitEventRequest) -> Seq<u8> {
    emit_event_request_wire(m.event@, payload_view(m.payload))
}

impl EmitEventRequest {
    /// The message's wire bytes.
    pub fn encode_to_vec(&self) -> (res: Vec<u8>)
        ensures
            res@ == emit_event_request_bytes(*self),
    {
        let mut buf: Vec<u8> = Vec::new();
        put_opt_string(1, &self.event, &mut buf);
        put_opt_message(2, &self.payload, &mut buf);
        assert(buf@ =~= emit_event_request_bytes(*self));
        buf
    }
}

// ---------------------------------------------------------------------------
// SubscribeEventRequest
// ---------------------------------------------------------------------------
/// Subscription of a handler to an event.
#[derive(Debug)]
pub struct SubscribeEventRequest {
    pub event: String,
    pub handler: String,
}

/// Wire bytes of a `SubscribeEventRequest` with the given fields: `event` = 1, `handler` = 2.
pub open spec fn subscribe_event_request_wire(event: Seq<char>, handler: Seq<char>) -> Seq<u8> {
    opt_string_field(1, event)
        + opt_string_field(2, handler)
}

/// Wire bytes of a `SubscribeEventRequest`.
pub open spec fn subscribe_event_request_bytes(m: SubscribeEventRequest) -> Seq<u8> {
    subscribe_event_request_wire(m.event@, m.handler@)
}

impl SubscribeEventRequest {
    /// The message's wire bytes.
    pub fn encode_to_vec(&self) -> (res: Vec<u8>)
        ensures
            res@ == subscribe_event_request_bytes(*self),
    {
        let mut buf: Vec<u8> = Vec::new();
        put_opt_string(1, &self.event, &mut buf);
        put_opt_string(2, &self.handler, &mut buf);
        assert(buf@ =~= subscribe_event_request_bytes(*self));
        buf
    }
}

// ---------------------------------------------------------------------------
// HttpRequestRequest
// ---------------------------------------------------------------------------
/// An outbound HTTP request for the host to make.
#[derive(Debug)]
pub struct HttpRequestRequest {
    pub method: String,
    pub url: String,
    /// Entries of a `map<string, string>`, in the order they are written.
    pub headers: Vec<(String, String)>,
    pub body: Vec<u8>,
}

/// Wire bytes of an `HttpRequestRequest` with the given fields: `method` = 1, `url` = 2, `headers` =
/// 3, `body` = 4.
pub open spec fn http_request_request_wire(
    method: Seq<char>,
    url: Seq<char>,
    headers: Seq<(Seq<char>, Seq<char>)>,
    body: Seq<u8>,
) -> Seq<u8> {
    opt_string_field(1, method)
        + opt_string_field(2, url)
        + string_map_fields(3, headers)
        + opt_bytes_field(4, body)
}

/// Wire bytes of an `HttpRequestRequest`.
pub open spec fn http_request_request_bytes(m: HttpRequestRequest) -> Seq<u8> {
    http_request_request_wire(m.method@, m.url@, m.headers.deep_view(), m.body@)
}

impl HttpRequestRequest {
    /// The message's wire bytes.
    pub fn encode_to_vec(&self) -> (res: Vec<u8>)
        ensures
            res@ == http_request_request_bytes(*self),
    {
        let mut buf: Vec<u8> = Vec::new();
        put_opt_string(1, &self.method, &mut buf);
        put_opt_string(2, &self.url, &mut buf);
        put_string_map(3, &self.headers, &mut buf);
        put_opt_bytes(4, &self.body, &mut buf);
        assert(buf@ =~= http_request_request_bytes(*self));
        buf
    }
}

// ---------------------------------------------------------------------------
// DbQueryRequest
// ---------------------------------------------------------------------------
/// A database query on a whitelisted model.
#[derive(Debug)]
pub struct DbQueryRequest {
    pub model: String,
    pub operation: String,
    /// Encoded `google.protobuf.Struct`, where there is one.
    pub conditions: Option<Vec<u8>>,
    /// Encoded `google.protobuf.Struct`, where there is one.
    pub fields: Option<Vec<u8>>,
    pub limit: i32,
    pub offset: i32,
}

/// Wire bytes of a `DbQueryRequest` with the given fields: `model` = 1, `operation` = 2,
/// `conditions` = 3, `fields` = 4, `limit` = 5, `offset` = 6.
pub open spec fn db_query_request_wire(
    model: Seq<char>,
    operation: Seq<char>,
    conditions: Option<Seq<u8>>,
    fields: Option<Seq<u8>>,
    limit: i32,
    offset: i32,
) -> Seq<u8> {
    opt_string_field(1, model)
        + opt_string_field(2, operation)
        + opt_message_field(3, conditions)
        + opt_message_field(4, fields)
        + opt_int32_field(5, limit)
        + opt_int32_field(6, offset)
}

/// Wire bytes of a `DbQueryRequest`.
pub open spec fn db_query_request_bytes(m: DbQueryRequest) -> Seq<u8> {
    db_query_request_wire(
        m.model@,
        m.operation@,
        payload_view(m.conditions),
        payload_view(m.fields),
        m.limit,
        m.offset,
    )
}

impl DbQueryRequest {
    /// The message's wire bytes.
    pub fn encode_to_vec(&self) -> (res: Vec<u8>)
        ensures
            res@ == db_query_request_bytes(*self),
    {
        let mut buf: Vec<u8> = Vec::new();
        put_opt_string(1, &self.model, &mut buf);
        put_opt_string(2, &self.operation, &mut buf);
        put_opt_message(3, &self.conditions, &mut buf);
        put_opt_message(4, &self.fields, &mut buf);
        put_opt_int32(5, self.limit, &mut buf);
        put_opt_int32(6, self.offset, &mut buf);
        assert(buf@ =~= db_query_request_bytes(*self));
        buf
    }
}

// ---------------------------------------------------------------------------
// ScheduleTaskRequest
// ---------------------------------------------------------------------------
/// Registration of a cron task.
#[derive(Debug)]
pub struct ScheduleTaskRequest {
    pub name: String,
    pub cron: String,
    pub handler: String,
}

/// Wire bytes of a `ScheduleTaskRequest` with the given fields: `name` = 1, `cron` = 2, `handler` =
/// 3.
pub open spec fn schedule_task_request_wire(
    name: Seq<char>,
    cron: Seq<char>,
    handler: Seq<char>,
) -> Seq<u8> {
    opt_string_field(1, name)
        + opt_string_field(2, cron)
        + opt_string_field(3, handler)
}

/// Wire bytes of a `ScheduleTaskRequest`.
pub open spec fn schedule_task_request_bytes(m: ScheduleTaskRequest) -> Seq<u8> {
    schedule_task_request_wire(m.name@, m.cron@, m.handler@)
}

impl ScheduleTaskRequest {
    /// The message's wire bytes.
    pub fn encode_to_vec(&self) -> (res: Vec<u8>)
        ensures
            res@ == schedule_task_request_bytes(*self),
    {
        let mut buf: Vec<u8> = Vec::new();
        put_opt_string(1, &self.name, &mut buf);
        put_opt_string(2, &self.cron, &mut buf);
        put_opt_string(3, &self.handler, &mut buf);
        assert(buf@ =~= schedule_task_request_bytes(*self));
        buf
    }
}

// ---------------------------------------------------------------------------
// EnqueueTaskRequest
// ---------------------------------------------------------------------------
/// A task for the host queue.
#[derive(Debug)]
pub struct EnqueueTaskRequest {
    pub task_name: String,
    /// Encoded `google.protobuf.Struct`, where there is one.
    pub payload: Option<Vec<u8>>,
}

/// Wire bytes of an `EnqueueTaskRequest` with the given fields: `task_name` = 1, `payload` = 2.
pub open spec fn enqueue_task_request_wire(
    task_name: Seq<char>,
    payload: Option<Seq<u8>>,
) -> Seq<u8> {
    opt_string_field(1, task_name)
        + opt_message_field(2, payload)
}

/// Wire bytes of an `EnqueueTaskRequest`.
pub open spec fn enqueue_task_request_bytes(m: EnqueueTaskRequest) -> Seq<u8> {
    enqueue_task_request_wire(m.task_name@, payload_view(m.payload))
}

impl EnqueueTaskRequest {
    /// The message's wire bytes.
    pub fn encode_to_vec(&self) -> (res: Vec<u8>)
        ensures
            res@ == enqueue_task_request_bytes(*self),
    {
        let mut buf: Vec<u8> = Vec::new();
        put_opt_string(1, &self.task_name, &mut buf);
        put_opt_message(2, &self.payload, &mut buf);
        assert(buf@ =~= enqueue_task_request_bytes(*self));
        buf
    }
}

// ---------------------------------------------------------------------------
// AsyncSubmitRequest
// ---------------------------------------------------------------------------
/// Submission of an async task.
#[derive(Debug)]
pub struct AsyncSubmitRequest {
    /// `redis_get`, `redis_set`, `db_query`, `http_get` or `http_post`.
    pub op_type: String,
    /// Encoded request message of the operation.
    pub params: Vec<u8>,
}

/// Wire bytes of an `AsyncSubmitRequest` with the given fields: `op_type` = 1, `params` = 2.
pub open spec fn async_submit_request_wire(op_type: Seq<char>, params: Seq<u8>) -> Seq<u8> {
    opt_string_field(1, op_type)
        + opt_bytes_field(2, params)
}

/// Wire bytes of an `AsyncSubmitRequest`.
pub open spec fn async_submit_request_bytes(m: AsyncSubmitRequest) -> Seq<u8> {
    async_submit_request_wire(m.op_type@, m.params@)
}

impl AsyncSubmitRequest {
    /// The message's wire bytes.
    pub fn encode_to_vec(&self) -> (res: Vec<u8>)
        ensures
            res@ == async_submit_request_bytes(*self),
    {
        let mut buf: Vec<u8> = Vec::new();
        put_opt_string(1, &self.op_type, &mut buf);
        put_opt_bytes(2, &self.params, &mut buf);
        assert(buf@ =~= async_submit_request_bytes(*self));
        buf
    }
}

// ---------------------------------------------------------------------------
// AsyncResolveRequest
// ---------------------------------------------------------------------------
/// Request for the outcome of an async task.
#[derive(Debug)]
pub struct AsyncResolveRequest {
    pub task_id: u64,
}

/// Wire bytes of an `AsyncResolveRequest` with the given fields: `task_id` = 1.
pub open spec fn async_resolve_request_wire(task_id: u64) -> Seq<u8> {
    opt_uint64_field(1, task_id)
}

/// Wire bytes of an `AsyncResolveRequest`.
pub open spec fn async_resolve_request_bytes(m: AsyncResolveRequest) -> Seq<u8> {
    async_resolve_request_wire(m.task_id)
}

impl AsyncResolveRequest {
    /// The message's wire bytes.
    pub fn encode_to_vec(&self) -> (res: Vec<u8>)
        ensures
            res@ == async_resolve_request_bytes(*self),
    {
        let mut buf: Vec<u8> = Vec::new();
        put_opt_uint64(1, self.task_id, &mut buf);
        assert(buf@ =~= async_resolve_request_bytes(*self));
        buf
    }
}

// ---------------------------------------------------------------------------
// AsyncWaitAnyRequest
// ---------------------------------------------------------------------------
/// Request to wait until any async task completes.
#[derive(Debug)]
pub struct AsyncWaitAnyRequest {
}

/// Wire bytes of an `AsyncWaitAnyRequest` with the given fields: no fields.
pub open spec fn async_wait_any_request_wire() -> Seq<u8> {
    Seq::empty()
}

/// Wire bytes of an `AsyncWaitAnyRequest`.
pub open spec fn async_wait_any_request_bytes(m: AsyncWaitAnyRequest) -> Seq<u8> {
    async_wait_any_request_wire()
}

impl AsyncWaitAnyRequest {
    /// The message's wire bytes.
    pub fn encode_to_vec(&self) -> (res: Vec<u8>)
        ensures
            res@ == async_wait_any_request_bytes(*self),
    {
        let mut buf: Vec<u8> = Vec::new();
        assert(buf@ =~= async_wait_any_request_bytes(*self));
        buf
    }
}

// ---------------------------------------------------------------------------
// HandleResponse
// ---------------------------------------------------------------------------
/// Response of an HTTP handler.
#[derive(Debug)]
pub struct HandleResponse {
    pub status: i32,
    /// Entries of a `map<string, string>`, in the order they are written.
    pub headers: Vec<(String, String)>,
    pub body: Vec<u8>,
}

/// Wire bytes of a `HandleResponse` with the given fields: `status` = 1, `headers` = 2, `body` = 3.
pub open spec fn handle_response_wire(
    status: i32,
    headers: Seq<(Seq<char>, Seq<char>)>,
    body: Seq<u8>,
) -> Seq<u8> {
    opt_int32_field(1, status)
        + string_map_fields(2, headers)
        + opt_bytes_field(3, body)
}

/// Wire bytes of a `HandleResponse`.
pub open spec fn handle_response_bytes(m: HandleResponse) -> Seq<u8> {
    handle_response_wire(m.status, m.headers.deep_view(), m.body@)
}

impl HandleResponse {
    /// The message's wire bytes.
    pub fn encode_to_vec(&self) -> (res: Vec<u8>)
        ensures
            res@ == handle_response_bytes(*self),
    {
        let mut buf: Vec<u8> = Vec::new();
        put_opt_int32(1, self.status, &mut buf);
        put_string_map(2, &self.headers, &mut buf);
        put_opt_bytes(3, &self.body, &mut buf);
        assert(buf@ =~= handle_response_bytes(*self));
        buf
    }
}

// ---------------------------------------------------------------------------
// MiddlewareResponse
// ---------------------------------------------------------------------------
/// Response of a middleware.
#[derive(Debug)]
pub struct MiddlewareResponse {
    /// `next`, `abort` or `modify`.
    pub action: String,
    pub status: i32,
    /// Entries of a `map<string, string>`, in the order they are written.
    pub headers: Vec<(String, String)>,
    pub body: Vec<u8>,
}

/// Wire bytes of a `MiddlewareResponse` with the given fields: `action` = 1, `status` = 2,
/// `headers` = 3, `body` = 4.
pub open spec fn middleware_response_wire(
    action: Seq<char>,
    status: i32,
    headers: Seq<(Seq<char>, Seq<char>)>,
    body: Seq<u8>,
) -> Seq<u8> {
    opt_string_field(1, action)
        + opt_int32_field(2, status)
        + string_map_fields(3, headers)
        + opt_bytes_field(4, body)
}

/// Wire bytes of a `MiddlewareResponse`.
pub open spec fn middleware_response_bytes(m: MiddlewareResponse) -> Seq<u8> {
    middleware_response_wire(m.action@, m.status, m.headers.deep_view(), m.body@)
}

impl MiddlewareResponse {
    /// The message's wire bytes.
    pub fn encode_to_vec(&self) -> (res: Vec<u8>)
        ensures
            res@ == middleware_response_bytes(*self),
    {
        let mut buf: Vec<u8> = Vec::new();
        put_opt_string(1, &self.action, &mut buf);
        put_opt_int32(2, self.status, &mut buf);
        put_string_map(3, &self.headers, &mut buf);
        put_opt_bytes(4, &self.body, &mut buf);
        assert(buf@ =~= middleware_response_bytes(*self));
        buf
    }
}

} // verus!
