//! What the host reads from each message that the plugin sends it, and
//! what each reply that the host sends is read as: the encoding of every
//! message, taken apart field by field as any protobuf reader takes it
//! (`reading`), holds each field of the message under the field number that
//! the host's schema gives it, with the value that the message holds.

use crate::proto::{
    async_resolve_response_default, async_resolve_response_steps, async_submit_response_steps,
    async_wait_any_response_steps, bool_result_default, bool_result_steps,
    db_query_response_default, db_query_response_steps, http_request_response_default,
    http_request_response_steps, redis_get_response_default, redis_get_response_steps,
    config_get_response_default, config_get_response_steps,
    async_resolve_request_bytes, async_resolve_response_bytes, async_submit_request_bytes,
    async_submit_response_bytes, async_wait_any_request_bytes, async_wait_any_response_bytes,
    bool_result_bytes, config_get_request_bytes, config_get_response_bytes, db_query_request_bytes,
    db_query_response_bytes, decode_async_resolve_response, decode_async_submit_response,
    decode_async_wait_any_response, decode_bool_result, decode_config_get_response,
    decode_db_query_response, decode_http_request_response, decode_redis_get_response,
    emit_event_request_bytes, enqueue_task_request_bytes, handle_response_bytes, header_fits,
    http_request_request_bytes, http_request_response_bytes, lemma_async_resolve_response_roundtrip,
    lemma_async_submit_response_roundtrip, lemma_async_wait_any_response_roundtrip,
    lemma_bool_result_roundtrip, lemma_config_get_response_roundtrip,
    lemma_db_query_response_roundtrip, lemma_http_request_response_roundtrip,
    lemma_redis_get_response_roundtrip, log_request_bytes, middleware_response_bytes,
    redis_get_request_bytes, redis_get_response_bytes, redis_set_request_bytes,
    register_middleware_request_bytes, register_route_request_bytes, schedule_task_request_bytes,
    subscribe_event_request_bytes, AsyncResolveRequest, AsyncResolveResponseView,
    AsyncSubmitRequest, AsyncSubmitResponse, AsyncWaitAnyRequest, AsyncWaitAnyResponse,
    BoolResultView, ConfigGetRequest, ConfigGetResponseView, DbQueryRequest, DbQueryResponseView,
    EmitEventRequest, EnqueueTaskRequest, HandleResponse, HttpRequestRequest,
    HttpRequestResponseView, LogRequest, MiddlewareResponse, RedisGetRequest,
    RedisGetResponseView, RedisSetRequest, RegisterMiddlewareRequest, RegisterRouteRequest,
    ScheduleTaskRequest, SubscribeEventRequest,
};
use crate::inbound::{
    sent_context_value, sent_emit_event_request, sent_handle_request, sent_host_config,
    sent_host_config_value, sent_init_request, sent_list_entry, sent_list_entry_payloads,
    sent_list_value, sent_request_context, sent_string_list, HostConfigView, HandleRequestView,
    RequestContextView,
};
use crate::reading::{
    all_payloads, decoded_entries, lemma_all_payloads_empty, lemma_all_payloads_push,
    last_payload, last_value, lemma_decode_follows_fields, lemma_occurrences_push,
    lemma_skip_follows, wire_field_step,
    bytes_of, entry_payloads, lemma_bytes_of, lemma_fields_end, lemma_fields_entries,
    lemma_fields_lens, lemma_fields_opt_bool, lemma_fields_opt_bytes, lemma_fields_opt_int32,
    lemma_fields_opt_int64, lemma_fields_opt_message, lemma_fields_opt_string,
    lemma_fields_opt_uint64, lemma_fields_strings, lemma_message_of, 
    lemma_occurrences_run, lemma_regroup6, lemma_tags_within_add, lemma_repeated_of, lemma_scalar_of, len_run, message_of, opt_len_run,
    opt_varint_run, payload_or_empty, repeated_of, scalar_of, tags_within, utf8_all,
    wire_fields, WireField,
};
use crate::wire::{
    decode_map_entry,
    WIRE_LEN, WIRE_VARINT,
    len_list_fields, map_entry, opt_bool_field, opt_bytes_field, opt_int32_field, opt_int64_field,
    opt_message_field, opt_string_field, opt_uint64_field, payload_view, string_list_fields,
    string_map_fields, struct_payload_decodes,
};
use vstd::prelude::*;
use vstd::utf8::*;

verus! {

/// A success/error reply: read by the field numbers of `BoolResult` (success =
/// 1, error = 2), its encoding holds each field of the message under its own
/// number, and nothing else; and the message's decoder reads those bytes back
/// as the message.
pub proof fn law_bool_result_fields(m: BoolResultView)
    requires
        encode_utf8(m.error).len() <= u64::MAX,
    ensures
        wire_fields(bool_result_bytes(m)) matches Some(fs)
            && tags_within(fs, 2)
            && scalar_of(fs, 1) == Some(if m.success { 1int } else { 0int })
            && bytes_of(fs, 2) == Some(encode_utf8(m.error)),
        decode_bool_result(bool_result_bytes(m)) == Some(m),
{
    let nil = Seq::<u8>::empty();
    let z = Seq::<WireField>::empty();
    let f1 = opt_bool_field(1, m.success);
    let r1 = opt_varint_run(1, m.success, 1);
    let f2 = opt_string_field(2, m.error);
    let r2 = opt_len_run(2, m.error.len() > 0, encode_utf8(m.error));
    let fs = z + r1 + r2;
    assert(wire_fields(bool_result_bytes(m)) == Some(fs)) by {
        assert(bool_result_bytes(m) =~= f1 + (f2 + nil));
        lemma_fields_opt_bool(1, m.success, z, f2 + nil);
        lemma_fields_opt_string(2, m.error, z + r1, nil);
        lemma_fields_end(fs);
    }
    assert(tags_within(fs, 2)) by {
        lemma_tags_within_add(z, r1, 2);
        lemma_tags_within_add(z + r1, r2, 2);
    }
    assert(scalar_of(fs, 1) == Some(if m.success { 1int } else { 0int })) by {
        lemma_occurrences_run(z, r1, 1, 1);
        lemma_occurrences_run(z + r1, r2, 2, 1);
        lemma_scalar_of(fs, 1, m.success, if m.success { 1int } else { 0int });
    }
    assert(bytes_of(fs, 2) == Some(encode_utf8(m.error))) by {
        lemma_occurrences_run(z, r1, 1, 2);
        lemma_occurrences_run(z + r1, r2, 2, 2);
        lemma_bytes_of(fs, 2, m.error.len() > 0, encode_utf8(m.error));
    }
    lemma_bool_result_roundtrip(m);
}

/// A Redis read's reply: read by the field numbers of `RedisGetResponse` (value
/// = 1, exists = 2), its encoding holds each field of the message under its own
/// number, and nothing else; and the message's decoder reads those bytes back
/// as the message.
pub proof fn law_redis_get_response_fields(m: RedisGetResponseView)
    requires
        encode_utf8(m.value).len() <= u64::MAX,
    ensures
        wire_fields(redis_get_response_bytes(m)) matches Some(fs)
            && tags_within(fs, 2)
            && bytes_of(fs, 1) == Some(encode_utf8(m.value))
            && scalar_of(fs, 2) == Some(if m.exists { 1int } else { 0int }),
        decode_redis_get_response(redis_get_response_bytes(m)) == Some(m),
{
    let nil = Seq::<u8>::empty();
    let z = Seq::<WireField>::empty();
    let f1 = opt_string_field(1, m.value);
    let r1 = opt_len_run(1, m.value.len() > 0, encode_utf8(m.value));
    let f2 = opt_bool_field(2, m.exists);
    let r2 = opt_varint_run(2, m.exists, 1);
    let fs = z + r1 + r2;
    assert(wire_fields(redis_get_response_bytes(m)) == Some(fs)) by {
        assert(redis_get_response_bytes(m) =~= f1 + (f2 + nil));
        lemma_fields_opt_string(1, m.value, z, f2 + nil);
        lemma_fields_opt_bool(2, m.exists, z + r1, nil);
        lemma_fields_end(fs);
    }
    assert(tags_within(fs, 2)) by {
        lemma_tags_within_add(z, r1, 2);
        lemma_tags_within_add(z + r1, r2, 2);
    }
    assert(bytes_of(fs, 1) == Some(encode_utf8(m.value))) by {
        lemma_occurrences_run(z, r1, 1, 1);
        lemma_occurrences_run(z + r1, r2, 2, 1);
        lemma_bytes_of(fs, 1, m.value.len() > 0, encode_utf8(m.value));
    }
    assert(scalar_of(fs, 2) == Some(if m.exists { 1int } else { 0int })) by {
        lemma_occurrences_run(z, r1, 1, 2);
        lemma_occurrences_run(z + r1, r2, 2, 2);
        lemma_scalar_of(fs, 2, m.exists, if m.exists { 1int } else { 0int });
    }
    lemma_redis_get_response_roundtrip(m);
}

/// A configuration read's reply: read by the field numbers of
/// `ConfigGetResponse` (value = 1, exists = 2), its encoding holds each field
/// of the message under its own number, and nothing else; and the message's
/// decoder reads those bytes back as the message.
pub proof fn law_config_get_response_fields(m: ConfigGetResponseView)
    requires
        encode_utf8(m.value).len() <= u64::MAX,
    ensures
        wire_fields(config_get_response_bytes(m)) matches Some(fs)
            && tags_within(fs, 2)
            && bytes_of(fs, 1) == Some(encode_utf8(m.value))
            && scalar_of(fs, 2) == Some(if m.exists { 1int } else { 0int }),
        decode_config_get_response(config_get_response_bytes(m)) == Some(m),
{
    let nil = Seq::<u8>::empty();
    let z = Seq::<WireField>::empty();
    let f1 = opt_string_field(1, m.value);
    let r1 = opt_len_run(1, m.value.len() > 0, encode_utf8(m.value));
    let f2 = opt_bool_field(2, m.exists);
    let r2 = opt_varint_run(2, m.exists, 1);
    let fs = z + r1 + r2;
    assert(wire_fields(config_get_response_bytes(m)) == Some(fs)) by {
        assert(config_get_response_bytes(m) =~= f1 + (f2 + nil));
        lemma_fields_opt_string(1, m.value, z, f2 + nil);
        lemma_fields_opt_bool(2, m.exists, z + r1, nil);
        lemma_fields_end(fs);
    }
    assert(tags_within(fs, 2)) by {
        lemma_tags_within_add(z, r1, 2);
        lemma_tags_within_add(z + r1, r2, 2);
    }
    assert(bytes_of(fs, 1) == Some(encode_utf8(m.value))) by {
        lemma_occurrences_run(z, r1, 1, 1);
        lemma_occurrences_run(z + r1, r2, 2, 1);
        lemma_bytes_of(fs, 1, m.value.len() > 0, encode_utf8(m.value));
    }
    assert(scalar_of(fs, 2) == Some(if m.exists { 1int } else { 0int })) by {
        lemma_occurrences_run(z, r1, 1, 2);
        lemma_occurrences_run(z + r1, r2, 2, 2);
        lemma_scalar_of(fs, 2, m.exists, if m.exists { 1int } else { 0int });
    }
    lemma_config_get_response_roundtrip(m);
}

/// A submit's reply: read by the field numbers of `AsyncSubmitResponse`
/// (task_id = 1), its encoding holds each field of the message under its own
/// number, and nothing else; and the message's decoder reads those bytes back
/// as the message.
pub proof fn law_async_submit_response_fields(m: AsyncSubmitResponse)
    ensures
        wire_fields(async_submit_response_bytes(m)) matches Some(fs)
            && tags_within(fs, 1)
            && scalar_of(fs, 1) == Some(m.task_id as int),
        decode_async_submit_response(async_submit_response_bytes(m)) == Some(m),
{
    let nil = Seq::<u8>::empty();
    let z = Seq::<WireField>::empty();
    let f1 = opt_uint64_field(1, m.task_id);
    let r1 = opt_varint_run(1, m.task_id != 0, m.task_id as int);
    let fs = z + r1;
    assert(wire_fields(async_submit_response_bytes(m)) == Some(fs)) by {
        assert(async_submit_response_bytes(m) =~= f1 + nil);
        lemma_fields_opt_uint64(1, m.task_id, z, nil);
        lemma_fields_end(fs);
    }
    assert(tags_within(fs, 1)) by {
        lemma_tags_within_add(z, r1, 1);
    }
    assert(scalar_of(fs, 1) == Some(m.task_id as int)) by {
        lemma_occurrences_run(z, r1, 1, 1);
        lemma_scalar_of(fs, 1, m.task_id != 0, m.task_id as int);
    }
    lemma_async_submit_response_roundtrip(m);
}

/// A wait's reply: read by the field numbers of `AsyncWaitAnyResponse` (task_id
/// = 1), its encoding holds each field of the message under its own number, and
/// nothing else; and the message's decoder reads those bytes back as the
/// message.
pub proof fn law_async_wait_any_response_fields(m: AsyncWaitAnyResponse)
    ensures
        wire_fields(async_wait_any_response_bytes(m)) matches Some(fs)
            && tags_within(fs, 1)
            && scalar_of(fs, 1) == Some(m.task_id as int),
        decode_async_wait_any_response(async_wait_any_response_bytes(m)) == Some(m),
{
    let nil = Seq::<u8>::empty();
    let z = Seq::<WireField>::empty();
    let f1 = opt_uint64_field(1, m.task_id);
    let r1 = opt_varint_run(1, m.task_id != 0, m.task_id as int);
    let fs = z + r1;
    assert(wire_fields(async_wait_any_response_bytes(m)) == Some(fs)) by {
        assert(async_wait_any_response_bytes(m) =~= f1 + nil);
        lemma_fields_opt_uint64(1, m.task_id, z, nil);
        lemma_fields_end(fs);
    }
    assert(tags_within(fs, 1)) by {
        lemma_tags_within_add(z, r1, 1);
    }
    assert(scalar_of(fs, 1) == Some(m.task_id as int)) by {
        lemma_occurrences_run(z, r1, 1, 1);
        lemma_scalar_of(fs, 1, m.task_id != 0, m.task_id as int);
    }
    lemma_async_wait_any_response_roundtrip(m);
}

/// An HTTP request's reply: read by the field numbers of `HttpRequestResponse`
/// (status = 1, headers = 2, body = 3), its encoding holds each field of the
/// message under its own number, and nothing else; and the message's decoder
/// reads those bytes back as the message.
pub proof fn law_http_request_response_fields(m: HttpRequestResponseView)
    requires
        forall|i: int| 0 <= i < m.headers.len() ==> map_entry((#[trigger] m.headers[i]).0, m.headers[i].1).len() <= u64::MAX,
        m.body.len() <= u64::MAX,
    ensures
        wire_fields(http_request_response_bytes(m)) matches Some(fs)
            && tags_within(fs, 3)
            && scalar_of(fs, 1) == Some((m.status as u64) as int)
            && repeated_of(fs, 2) == Some(entry_payloads(m.headers))
            && bytes_of(fs, 3) == Some(m.body),
        (forall|i: int| 0 <= i < m.headers.len() ==> #[trigger] header_fits(m.headers[i])) ==> decode_http_request_response(http_request_response_bytes(m)) == Some(m),
{
    let nil = Seq::<u8>::empty();
    let z = Seq::<WireField>::empty();
    let f1 = opt_int32_field(1, m.status);
    let r1 = opt_varint_run(1, m.status != 0, (m.status as u64) as int);
    let f2 = string_map_fields(2, m.headers);
    let r2 = len_run(2, entry_payloads(m.headers));
    let f3 = opt_bytes_field(3, m.body);
    let r3 = opt_len_run(3, m.body.len() > 0, m.body);
    let fs = z + r1 + r2 + r3;
    assert(wire_fields(http_request_response_bytes(m)) == Some(fs)) by {
        assert(http_request_response_bytes(m) =~= f1 + (f2 + (f3 + nil)));
        lemma_fields_opt_int32(1, m.status, z, f2 + (f3 + nil));
        lemma_fields_entries(2, m.headers, z + r1, f3 + nil);
        lemma_fields_opt_bytes(3, m.body, z + r1 + r2, nil);
        lemma_fields_end(fs);
    }
    assert(tags_within(fs, 3)) by {
        lemma_tags_within_add(z, r1, 3);
        lemma_tags_within_add(z + r1, r2, 3);
        lemma_tags_within_add(z + r1 + r2, r3, 3);
    }
    assert(scalar_of(fs, 1) == Some((m.status as u64) as int)) by {
        lemma_occurrences_run(z, r1, 1, 1);
        lemma_occurrences_run(z + r1, r2, 2, 1);
        lemma_occurrences_run(z + r1 + r2, r3, 3, 1);
        lemma_scalar_of(fs, 1, m.status != 0, (m.status as u64) as int);
    }
    assert(repeated_of(fs, 2) == Some(entry_payloads(m.headers))) by {
        lemma_occurrences_run(z, r1, 1, 2);
        lemma_occurrences_run(z + r1, r2, 2, 2);
        lemma_occurrences_run(z + r1 + r2, r3, 3, 2);
        lemma_repeated_of(fs, 2, entry_payloads(m.headers));
    }
    assert(bytes_of(fs, 3) == Some(m.body)) by {
        lemma_occurrences_run(z, r1, 1, 3);
        lemma_occurrences_run(z + r1, r2, 2, 3);
        lemma_occurrences_run(z + r1 + r2, r3, 3, 3);
        lemma_bytes_of(fs, 3, m.body.len() > 0, m.body);
    }
    if forall|i: int| 0 <= i < m.headers.len() ==> #[trigger] header_fits(m.headers[i]) { lemma_http_request_response_roundtrip(m); }
}

/// A resolve's reply: read by the field numbers of `AsyncResolveResponse` (done
/// = 1, result = 2, error = 3), its encoding holds each field of the message
/// under its own number, and nothing else; and the message's decoder reads
/// those bytes back as the message.
pub proof fn law_async_resolve_response_fields(m: AsyncResolveResponseView)
    requires
        m.result.len() <= u64::MAX,
        encode_utf8(m.error).len() <= u64::MAX,
    ensures
        wire_fields(async_resolve_response_bytes(m)) matches Some(fs)
            && tags_within(fs, 3)
            && scalar_of(fs, 1) == Some(if m.done { 1int } else { 0int })
            && bytes_of(fs, 2) == Some(m.result)
            && bytes_of(fs, 3) == Some(encode_utf8(m.error)),
        decode_async_resolve_response(async_resolve_response_bytes(m)) == Some(m),
{
    let nil = Seq::<u8>::empty();
    let z = Seq::<WireField>::empty();
    let f1 = opt_bool_field(1, m.done);
    let r1 = opt_varint_run(1, m.done, 1);
    let f2 = opt_bytes_field(2, m.result);
    let r2 = opt_len_run(2, m.result.len() > 0, m.result);
    let f3 = opt_string_field(3, m.error);
    let r3 = opt_len_run(3, m.error.len() > 0, encode_utf8(m.error));
    let fs = z + r1 + r2 + r3;
    assert(wire_fields(async_resolve_response_bytes(m)) == Some(fs)) by {
        assert(async_resolve_response_bytes(m) =~= f1 + (f2 + (f3 + nil)));
        lemma_fields_opt_bool(1, m.done, z, f2 + (f3 + nil));
        lemma_fields_opt_bytes(2, m.result, z + r1, f3 + nil);
        lemma_fields_opt_string(3, m.error, z + r1 + r2, nil);
        lemma_fields_end(fs);
    }
    assert(tags_within(fs, 3)) by {
        lemma_tags_within_add(z, r1, 3);
        lemma_tags_within_add(z + r1, r2, 3);
        lemma_tags_within_add(z + r1 + r2, r3, 3);
    }
    assert(scalar_of(fs, 1) == Some(if m.done { 1int } else { 0int })) by {
        lemma_occurrences_run(z, r1, 1, 1);
        lemma_occurrences_run(z + r1, r2, 2, 1);
        lemma_occurrences_run(z + r1 + r2, r3, 3, 1);
        lemma_scalar_of(fs, 1, m.done, if m.done { 1int } else { 0int });
    }
    assert(bytes_of(fs, 2) == Some(m.result)) by {
        lemma_occurrences_run(z, r1, 1, 2);
        lemma_occurrences_run(z + r1, r2, 2, 2);
        lemma_occurrences_run(z + r1 + r2, r3, 3, 2);
        lemma_bytes_of(fs, 2, m.result.len() > 0, m.result);
    }
    assert(bytes_of(fs, 3) == Some(encode_utf8(m.error))) by {
        lemma_occurrences_run(z, r1, 1, 3);
        lemma_occurrences_run(z + r1, r2, 2, 3);
        lemma_occurrences_run(z + r1 + r2, r3, 3, 3);
        lemma_bytes_of(fs, 3, m.error.len() > 0, encode_utf8(m.error));
    }
    lemma_async_resolve_response_roundtrip(m);
}

/// A database query's reply: read by the field numbers of `DbQueryResponse`
/// (rows = 1, total = 2, error = 3), its encoding holds each field of the
/// message under its own number, and nothing else; and the message's decoder
/// reads those bytes back as the message.
pub proof fn law_db_query_response_fields(m: DbQueryResponseView)
    requires
        forall|i: int| 0 <= i < m.rows.len() ==> (#[trigger] m.rows[i]).len() <= u64::MAX,
        encode_utf8(m.error).len() <= u64::MAX,
    ensures
        wire_fields(db_query_response_bytes(m)) matches Some(fs)
            && tags_within(fs, 3)
            && repeated_of(fs, 1) == Some(m.rows)
            && scalar_of(fs, 2) == Some((m.total as u64) as int)
            && bytes_of(fs, 3) == Some(encode_utf8(m.error)),
        (forall|i: int| 0 <= i < m.rows.len() ==> #[trigger] struct_payload_decodes(m.rows[i])) ==> decode_db_query_response(db_query_response_bytes(m)) == Some(m),
{
    let nil = Seq::<u8>::empty();
    let z = Seq::<WireField>::empty();
    let f1 = len_list_fields(1, m.rows);
    let r1 = len_run(1, m.rows);
    let f2 = opt_int64_field(2, m.total);
    let r2 = opt_varint_run(2, m.total != 0, (m.total as u64) as int);
    let f3 = opt_string_field(3, m.error);
    let r3 = opt_len_run(3, m.error.len() > 0, encode_utf8(m.error));
    let fs = z + r1 + r2 + r3;
    assert(wire_fields(db_query_response_bytes(m)) == Some(fs)) by {
        assert(db_query_response_bytes(m) =~= f1 + (f2 + (f3 + nil)));
        lemma_fields_lens(1, m.rows, z, f2 + (f3 + nil));
        lemma_fields_opt_int64(2, m.total, z + r1, f3 + nil);
        lemma_fields_opt_string(3, m.error, z + r1 + r2, nil);
        lemma_fields_end(fs);
    }
    assert(tags_within(fs, 3)) by {
        lemma_tags_within_add(z, r1, 3);
        lemma_tags_within_add(z + r1, r2, 3);
        lemma_tags_within_add(z + r1 + r2, r3, 3);
    }
    assert(repeated_of(fs, 1) == Some(m.rows)) by {
        lemma_occurrences_run(z, r1, 1, 1);
        lemma_occurrences_run(z + r1, r2, 2, 1);
        lemma_occurrences_run(z + r1 + r2, r3, 3, 1);
        lemma_repeated_of(fs, 1, m.rows);
    }
    assert(scalar_of(fs, 2) == Some((m.total as u64) as int)) by {
        lemma_occurrences_run(z, r1, 1, 2);
        lemma_occurrences_run(z + r1, r2, 2, 2);
        lemma_occurrences_run(z + r1 + r2, r3, 3, 2);
        lemma_scalar_of(fs, 2, m.total != 0, (m.total as u64) as int);
    }
    assert(bytes_of(fs, 3) == Some(encode_utf8(m.error))) by {
        lemma_occurrences_run(z, r1, 1, 3);
        lemma_occurrences_run(z + r1, r2, 2, 3);
        lemma_occurrences_run(z + r1 + r2, r3, 3, 3);
        lemma_bytes_of(fs, 3, m.error.len() > 0, encode_utf8(m.error));
    }
    if forall|i: int| 0 <= i < m.rows.len() ==> #[trigger] struct_payload_decodes(m.rows[i]) { lemma_db_query_response_roundtrip(m); }
}

/// Every field of a log line reaches the host: read by the field numbers of
/// `LogRequest` (level = 1, message = 2, fields = 3), its encoding holds each
/// field of the request under its own number, and nothing else.
pub proof fn law_log_request_fields(m: LogRequest)
    requires
        encode_utf8(m.level@).len() <= u64::MAX,
        encode_utf8(m.message@).len() <= u64::MAX,
        forall|i: int| 0 <= i < m.fields.deep_view().len() ==> map_entry((#[trigger] m.fields.deep_view()[i]).0, m.fields.deep_view()[i].1).len() <= u64::MAX,
    ensures
        wire_fields(log_request_bytes(m)) matches Some(fs)
            && tags_within(fs, 3)
            && bytes_of(fs, 1) == Some(encode_utf8(m.level@))
            && bytes_of(fs, 2) == Some(encode_utf8(m.message@))
            && repeated_of(fs, 3) == Some(entry_payloads(m.fields.deep_view())),
{
    let nil = Seq::<u8>::empty();
    let z = Seq::<WireField>::empty();
    let f1 = opt_string_field(1, m.level@);
    let r1 = opt_len_run(1, m.level@.len() > 0, encode_utf8(m.level@));
    let f2 = opt_string_field(2, m.message@);
    let r2 = opt_len_run(2, m.message@.len() > 0, encode_utf8(m.message@));
    let f3 = string_map_fields(3, m.fields.deep_view());
    let r3 = len_run(3, entry_payloads(m.fields.deep_view()));
    let fs = z + r1 + r2 + r3;
    assert(wire_fields(log_request_bytes(m)) == Some(fs)) by {
        assert(log_request_bytes(m) =~= f1 + (f2 + (f3 + nil)));
        lemma_fields_opt_string(1, m.level@, z, f2 + (f3 + nil));
        lemma_fields_opt_string(2, m.message@, z + r1, f3 + nil);
        lemma_fields_entries(3, m.fields.deep_view(), z + r1 + r2, nil);
        lemma_fields_end(fs);
    }
    assert(tags_within(fs, 3)) by {
        lemma_tags_within_add(z, r1, 3);
        lemma_tags_within_add(z + r1, r2, 3);
        lemma_tags_within_add(z + r1 + r2, r3, 3);
    }
    assert(bytes_of(fs, 1) == Some(encode_utf8(m.level@))) by {
        lemma_occurrences_run(z, r1, 1, 1);
        lemma_occurrences_run(z + r1, r2, 2, 1);
        lemma_occurrences_run(z + r1 + r2, r3, 3, 1);
        lemma_bytes_of(fs, 1, m.level@.len() > 0, encode_utf8(m.level@));
    }
    assert(bytes_of(fs, 2) == Some(encode_utf8(m.message@))) by {
        lemma_occurrences_run(z, r1, 1, 2);
        lemma_occurrences_run(z + r1, r2, 2, 2);
        lemma_occurrences_run(z + r1 + r2, r3, 3, 2);
        lemma_bytes_of(fs, 2, m.message@.len() > 0, encode_utf8(m.message@));
    }
    assert(repeated_of(fs, 3) == Some(entry_payloads(m.fields.deep_view()))) by {
        lemma_occurrences_run(z, r1, 1, 3);
        lemma_occurrences_run(z + r1, r2, 2, 3);
        lemma_occurrences_run(z + r1 + r2, r3, 3, 3);
        lemma_repeated_of(fs, 3, entry_payloads(m.fields.deep_view()));
    }
}

/// A route is registered as given: read by the field numbers of
/// `RegisterRouteRequest` (method = 1, path = 2, handler = 3, middleware = 4),
/// its encoding holds each field of the request under its own number, and
/// nothing else.
pub proof fn law_register_route_request_fields(m: RegisterRouteRequest)
    requires
        encode_utf8(m.method@).len() <= u64::MAX,
        encode_utf8(m.path@).len() <= u64::MAX,
        encode_utf8(m.handler@).len() <= u64::MAX,
        forall|i: int| 0 <= i < m.middleware.deep_view().len() ==> encode_utf8(#[trigger] m.middleware.deep_view()[i]).len() <= u64::MAX,
    ensures
        wire_fields(register_route_request_bytes(m)) matches Some(fs)
            && tags_within(fs, 4)
            && bytes_of(fs, 1) == Some(encode_utf8(m.method@))
            && bytes_of(fs, 2) == Some(encode_utf8(m.path@))
            && bytes_of(fs, 3) == Some(encode_utf8(m.handler@))
            && repeated_of(fs, 4) == Some(utf8_all(m.middleware.deep_view())),
{
    let nil = Seq::<u8>::empty();
    let z = Seq::<WireField>::empty();
    let f1 = opt_string_field(1, m.method@);
    let r1 = opt_len_run(1, m.method@.len() > 0, encode_utf8(m.method@));
    let f2 = opt_string_field(2, m.path@);
    let r2 = opt_len_run(2, m.path@.len() > 0, encode_utf8(m.path@));
    let f3 = opt_string_field(3, m.handler@);
    let r3 = opt_len_run(3, m.handler@.len() > 0, encode_utf8(m.handler@));
    let f4 = string_list_fields(4, m.middleware.deep_view());
    let r4 = len_run(4, utf8_all(m.middleware.deep_view()));
    let fs = z + r1 + r2 + r3 + r4;
    assert(wire_fields(register_route_request_bytes(m)) == Some(fs)) by {
        assert(register_route_request_bytes(m) =~= f1 + (f2 + (f3 + (f4 + nil))));
        lemma_fields_opt_string(1, m.method@, z, f2 + (f3 + (f4 + nil)));
        lemma_fields_opt_string(2, m.path@, z + r1, f3 + (f4 + nil));
        lemma_fields_opt_string(3, m.handler@, z + r1 + r2, f4 + nil);
        lemma_fields_strings(4, m.middleware.deep_view(), z + r1 + r2 + r3, nil);
        lemma_fields_end(fs);
    }
    assert(tags_within(fs, 4)) by {
        lemma_tags_within_add(z, r1, 4);
        lemma_tags_within_add(z + r1, r2, 4);
        lemma_tags_within_add(z + r1 + r2, r3, 4);
        lemma_tags_within_add(z + r1 + r2 + r3, r4, 4);
    }
    assert(bytes_of(fs, 1) == Some(encode_utf8(m.method@))) by {
        lemma_occurrences_run(z, r1, 1, 1);
        lemma_occurrences_run(z + r1, r2, 2, 1);
        lemma_occurrences_run(z + r1 + r2, r3, 3, 1);
        lemma_occurrences_run(z + r1 + r2 + r3, r4, 4, 1);
        lemma_bytes_of(fs, 1, m.method@.len() > 0, encode_utf8(m.method@));
    }
    assert(bytes_of(fs, 2) == Some(encode_utf8(m.path@))) by {
        lemma_occurrences_run(z, r1, 1, 2);
        lemma_occurrences_run(z + r1, r2, 2, 2);
        lemma_occurrences_run(z + r1 + r2, r3, 3, 2);
        lemma_occurrences_run(z + r1 + r2 + r3, r4, 4, 2);
        lemma_bytes_of(fs, 2, m.path@.len() > 0, encode_utf8(m.path@));
    }
    assert(bytes_of(fs, 3) == Some(encode_utf8(m.handler@))) by {
        lemma_occurrences_run(z, r1, 1, 3);
        lemma_occurrences_run(z + r1, r2, 2, 3);
        lemma_occurrences_run(z + r1 + r2, r3, 3, 3);
        lemma_occurrences_run(z + r1 + r2 + r3, r4, 4, 3);
        lemma_bytes_of(fs, 3, m.handler@.len() > 0, encode_utf8(m.handler@));
    }
    assert(repeated_of(fs, 4) == Some(utf8_all(m.middleware.deep_view()))) by {
        lemma_occurrences_run(z, r1, 1, 4);
        lemma_occurrences_run(z + r1, r2, 2, 4);
        lemma_occurrences_run(z + r1 + r2, r3, 3, 4);
        lemma_occurrences_run(z + r1 + r2 + r3, r4, 4, 4);
        lemma_repeated_of(fs, 4, utf8_all(m.middleware.deep_view()));
    }
}

/// A middleware is registered as given: read by the field numbers of
/// `RegisterMiddlewareRequest` (name = 1, handler = 2), its encoding holds each
/// field of the request under its own number, and nothing else.
pub proof fn law_register_middleware_request_fields(m: RegisterMiddlewareRequest)
    requires
        encode_utf8(m.name@).len() <= u64::MAX,
        encode_utf8(m.handler@).len() <= u64::MAX,
    ensures
        wire_fields(register_middleware_request_bytes(m)) matches Some(fs)
            && tags_within(fs, 2)
            && bytes_of(fs, 1) == Some(encode_utf8(m.name@))
            && bytes_of(fs, 2) == Some(encode_utf8(m.handler@)),
{
    let nil = Seq::<u8>::empty();
    let z = Seq::<WireField>::empty();
    let f1 = opt_string_field(1, m.name@);
    let r1 = opt_len_run(1, m.name@.len() > 0, encode_utf8(m.name@));
    let f2 = opt_string_field(2, m.handler@);
    let r2 = opt_len_run(2, m.handler@.len() > 0, encode_utf8(m.handler@));
    let fs = z + r1 + r2;
    assert(wire_fields(register_middleware_request_bytes(m)) == Some(fs)) by {
        assert(register_middleware_request_bytes(m) =~= f1 + (f2 + nil));
        lemma_fields_opt_string(1, m.name@, z, f2 + nil);
        lemma_fields_opt_string(2, m.handler@, z + r1, nil);
        lemma_fields_end(fs);
    }
    assert(tags_within(fs, 2)) by {
        lemma_tags_within_add(z, r1, 2);
        lemma_tags_within_add(z + r1, r2, 2);
    }
    assert(bytes_of(fs, 1) == Some(encode_utf8(m.name@))) by {
        lemma_occurrences_run(z, r1, 1, 1);
        lemma_occurrences_run(z + r1, r2, 2, 1);
        lemma_bytes_of(fs, 1, m.name@.len() > 0, encode_utf8(m.name@));
    }
    assert(bytes_of(fs, 2) == Some(encode_utf8(m.handler@))) by {
        lemma_occurrences_run(z, r1, 1, 2);
        lemma_occurrences_run(z + r1, r2, 2, 2);
        lemma_bytes_of(fs, 2, m.handler@.len() > 0, encode_utf8(m.handler@));
    }
}

/// A Redis read asks for the key given: read by the field numbers of
/// `RedisGetRequest` (key = 1), its encoding holds each field of the request
/// under its own number, and nothing else.
pub proof fn law_redis_get_request_fields(m: RedisGetRequest)
    requires
        encode_utf8(m.key@).len() <= u64::MAX,
    ensures
        wire_fields(redis_get_request_bytes(m)) matches Some(fs)
            && tags_within(fs, 1)
            && bytes_of(fs, 1) == Some(encode_utf8(m.key@)),
{
    let nil = Seq::<u8>::empty();
    let z = Seq::<WireField>::empty();
    let f1 = opt_string_field(1, m.key@);
    let r1 = opt_len_run(1, m.key@.len() > 0, encode_utf8(m.key@));
    let fs = z + r1;
    assert(wire_fields(redis_get_request_bytes(m)) == Some(fs)) by {
        assert(redis_get_request_bytes(m) =~= f1 + nil);
        lemma_fields_opt_string(1, m.key@, z, nil);
        lemma_fields_end(fs);
    }
    assert(tags_within(fs, 1)) by {
        lemma_tags_within_add(z, r1, 1);
    }
    assert(bytes_of(fs, 1) == Some(encode_utf8(m.key@))) by {
        lemma_occurrences_run(z, r1, 1, 1);
        lemma_bytes_of(fs, 1, m.key@.len() > 0, encode_utf8(m.key@));
    }
}

/// A Redis write stores what it is given: read by the field numbers of
/// `RedisSetRequest` (key = 1, value = 2, ttl_seconds = 3), its encoding holds
/// each field of the request under its own number, and nothing else.
pub proof fn law_redis_set_request_fields(m: RedisSetRequest)
    requires
        encode_utf8(m.key@).len() <= u64::MAX,
        encode_utf8(m.value@).len() <= u64::MAX,
    ensures
        wire_fields(redis_set_request_bytes(m)) matches Some(fs)
            && tags_within(fs, 3)
            && bytes_of(fs, 1) == Some(encode_utf8(m.key@))
            && bytes_of(fs, 2) == Some(encode_utf8(m.value@))
            && scalar_of(fs, 3) == Some((m.ttl_seconds as u64) as int),
{
    let nil = Seq::<u8>::empty();
    let z = Seq::<WireField>::empty();
    let f1 = opt_string_field(1, m.key@);
    let r1 = opt_len_run(1, m.key@.len() > 0, encode_utf8(m.key@));
    let f2 = opt_string_field(2, m.value@);
    let r2 = opt_len_run(2, m.value@.len() > 0, encode_utf8(m.value@));
    let f3 = opt_int64_field(3, m.ttl_seconds);
    let r3 = opt_varint_run(3, m.ttl_seconds != 0, (m.ttl_seconds as u64) as int);
    let fs = z + r1 + r2 + r3;
    assert(wire_fields(redis_set_request_bytes(m)) == Some(fs)) by {
        assert(redis_set_request_bytes(m) =~= f1 + (f2 + (f3 + nil)));
        lemma_fields_opt_string(1, m.key@, z, f2 + (f3 + nil));
        lemma_fields_opt_string(2, m.value@, z + r1, f3 + nil);
        lemma_fields_opt_int64(3, m.ttl_seconds, z + r1 + r2, nil);
        lemma_fields_end(fs);
    }
    assert(tags_within(fs, 3)) by {
        lemma_tags_within_add(z, r1, 3);
        lemma_tags_within_add(z + r1, r2, 3);
        lemma_tags_within_add(z + r1 + r2, r3, 3);
    }
    assert(bytes_of(fs, 1) == Some(encode_utf8(m.key@))) by {
        lemma_occurrences_run(z, r1, 1, 1);
        lemma_occurrences_run(z + r1, r2, 2, 1);
        lemma_occurrences_run(z + r1 + r2, r3, 3, 1);
        lemma_bytes_of(fs, 1, m.key@.len() > 0, encode_utf8(m.key@));
    }
    assert(bytes_of(fs, 2) == Some(encode_utf8(m.value@))) by {
        lemma_occurrences_run(z, r1, 1, 2);
        lemma_occurrences_run(z + r1, r2, 2, 2);
        lemma_occurrences_run(z + r1 + r2, r3, 3, 2);
        lemma_bytes_of(fs, 2, m.value@.len() > 0, encode_utf8(m.value@));
    }
    assert(scalar_of(fs, 3) == Some((m.ttl_seconds as u64) as int)) by {
        lemma_occurrences_run(z, r1, 1, 3);
        lemma_occurrences_run(z + r1, r2, 2, 3);
        lemma_occurrences_run(z + r1 + r2, r3, 3, 3);
        lemma_scalar_of(fs, 3, m.ttl_seconds != 0, (m.ttl_seconds as u64) as int);
    }
}

/// A configuration read asks for the key given: read by the field numbers of
/// `ConfigGetRequest` (key = 1), its encoding holds each field of the request
/// under its own number, and nothing else.
pub proof fn law_config_get_request_fields(m: ConfigGetRequest)
    requires
        encode_utf8(m.key@).len() <= u64::MAX,
    ensures
        wire_fields(config_get_request_bytes(m)) matches Some(fs)
            && tags_within(fs, 1)
            && bytes_of(fs, 1) == Some(encode_utf8(m.key@)),
{
    let nil = Seq::<u8>::empty();
    let z = Seq::<WireField>::empty();
    let f1 = opt_string_field(1, m.key@);
    let r1 = opt_len_run(1, m.key@.len() > 0, encode_utf8(m.key@));
    let fs = z + r1;
    assert(wire_fields(config_get_request_bytes(m)) == Some(fs)) by {
        assert(config_get_request_bytes(m) =~= f1 + nil);
        lemma_fields_opt_string(1, m.key@, z, nil);
        lemma_fields_end(fs);
    }
    assert(tags_within(fs, 1)) by {
        lemma_tags_within_add(z, r1, 1);
    }
    assert(bytes_of(fs, 1) == Some(encode_utf8(m.key@))) by {
        lemma_occurrences_run(z, r1, 1, 1);
        lemma_bytes_of(fs, 1, m.key@.len() > 0, encode_utf8(m.key@));
    }
}

/// An event is emitted as given: read by the field numbers of
/// `EmitEventRequest` (event = 1, payload = 2), its encoding holds each field
/// of the request under its own number, and nothing else.
pub proof fn law_emit_event_request_fields(m: EmitEventRequest)
    requires
        encode_utf8(m.event@).len() <= u64::MAX,
        payload_or_empty(payload_view(m.payload)).len() <= u64::MAX,
    ensures
        wire_fields(emit_event_request_bytes(m)) matches Some(fs)
            && tags_within(fs, 2)
            && bytes_of(fs, 1) == Some(encode_utf8(m.event@))
            && message_of(fs, 2) == Some(payload_view(m.payload)),
{
    let nil = Seq::<u8>::empty();
    let z = Seq::<WireField>::empty();
    let f1 = opt_string_field(1, m.event@);
    let r1 = opt_len_run(1, m.event@.len() > 0, encode_utf8(m.event@));
    let f2 = opt_message_field(2, payload_view(m.payload));
    let r2 = opt_len_run(2, payload_view(m.payload) is Some, payload_or_empty(payload_view(m.payload)));
    let fs = z + r1 + r2;
    assert(wire_fields(emit_event_request_bytes(m)) == Some(fs)) by {
        assert(emit_event_request_bytes(m) =~= f1 + (f2 + nil));
        lemma_fields_opt_string(1, m.event@, z, f2 + nil);
        lemma_fields_opt_message(2, payload_view(m.payload), z + r1, nil);
        lemma_fields_end(fs);
    }
    assert(tags_within(fs, 2)) by {
        lemma_tags_within_add(z, r1, 2);
        lemma_tags_within_add(z + r1, r2, 2);
    }
    assert(bytes_of(fs, 1) == Some(encode_utf8(m.event@))) by {
        lemma_occurrences_run(z, r1, 1, 1);
        lemma_occurrences_run(z + r1, r2, 2, 1);
        lemma_bytes_of(fs, 1, m.event@.len() > 0, encode_utf8(m.event@));
    }
    assert(message_of(fs, 2) == Some(payload_view(m.payload))) by {
        lemma_occurrences_run(z, r1, 1, 2);
        lemma_occurrences_run(z + r1, r2, 2, 2);
        lemma_message_of(fs, 2, payload_view(m.payload));
    }
}

/// A subscription names the event and handler given: read by the field numbers
/// of `SubscribeEventRequest` (event = 1, handler = 2), its encoding holds each
/// field of the request under its own number, and nothing else.
pub proof fn law_subscribe_event_request_fields(m: SubscribeEventRequest)
    requires
        encode_utf8(m.event@).len() <= u64::MAX,
        encode_utf8(m.handler@).len() <= u64::MAX,
    ensures
        wire_fields(subscribe_event_request_bytes(m)) matches Some(fs)
            && tags_within(fs, 2)
            && bytes_of(fs, 1) == Some(encode_utf8(m.event@))
            && bytes_of(fs, 2) == Some(encode_utf8(m.handler@)),
{
    let nil = Seq::<u8>::empty();
    let z = Seq::<WireField>::empty();
    let f1 = opt_string_field(1, m.event@);
    let r1 = opt_len_run(1, m.event@.len() > 0, encode_utf8(m.event@));
    let f2 = opt_string_field(2, m.handler@);
    let r2 = opt_len_run(2, m.handler@.len() > 0, encode_utf8(m.handler@));
    let fs = z + r1 + r2;
    assert(wire_fields(subscribe_event_request_bytes(m)) == Some(fs)) by {
        assert(subscribe_event_request_bytes(m) =~= f1 + (f2 + nil));
        lemma_fields_opt_string(1, m.event@, z, f2 + nil);
        lemma_fields_opt_string(2, m.handler@, z + r1, nil);
        lemma_fields_end(fs);
    }
    assert(tags_within(fs, 2)) by {
        lemma_tags_within_add(z, r1, 2);
        lemma_tags_within_add(z + r1, r2, 2);
    }
    assert(bytes_of(fs, 1) == Some(encode_utf8(m.event@))) by {
        lemma_occurrences_run(z, r1, 1, 1);
        lemma_occurrences_run(z + r1, r2, 2, 1);
        lemma_bytes_of(fs, 1, m.event@.len() > 0, encode_utf8(m.event@));
    }
    assert(bytes_of(fs, 2) == Some(encode_utf8(m.handler@))) by {
        lemma_occurrences_run(z, r1, 1, 2);
        lemma_occurrences_run(z + r1, r2, 2, 2);
        lemma_bytes_of(fs, 2, m.handler@.len() > 0, encode_utf8(m.handler@));
    }
}

/// An HTTP request is sent as given: read by the field numbers of
/// `HttpRequestRequest` (method = 1, url = 2, headers = 3, body = 4), its
/// encoding holds each field of the request under its own number, and nothing
/// else.
pub proof fn law_http_request_request_fields(m: HttpRequestRequest)
    requires
        encode_utf8(m.method@).len() <= u64::MAX,
        encode_utf8(m.url@).len() <= u64::MAX,
        forall|i: int| 0 <= i < m.headers.deep_view().len() ==> map_entry((#[trigger] m.headers.deep_view()[i]).0, m.headers.deep_view()[i].1).len() <= u64::MAX,
        m.body@.len() <= u64::MAX,
    ensures
        wire_fields(http_request_request_bytes(m)) matches Some(fs)
            && tags_within(fs, 4)
            && bytes_of(fs, 1) == Some(encode_utf8(m.method@))
            && bytes_of(fs, 2) == Some(encode_utf8(m.url@))
            && repeated_of(fs, 3) == Some(entry_payloads(m.headers.deep_view()))
            && bytes_of(fs, 4) == Some(m.body@),
{
    let nil = Seq::<u8>::empty();
    let z = Seq::<WireField>::empty();
    let f1 = opt_string_field(1, m.method@);
    let r1 = opt_len_run(1, m.method@.len() > 0, encode_utf8(m.method@));
    let f2 = opt_string_field(2, m.url@);
    let r2 = opt_len_run(2, m.url@.len() > 0, encode_utf8(m.url@));
    let f3 = string_map_fields(3, m.headers.deep_view());
    let r3 = len_run(3, entry_payloads(m.headers.deep_view()));
    let f4 = opt_bytes_field(4, m.body@);
    let r4 = opt_len_run(4, m.body@.len() > 0, m.body@);
    let fs = z + r1 + r2 + r3 + r4;
    assert(wire_fields(http_request_request_bytes(m)) == Some(fs)) by {
        assert(http_request_request_bytes(m) =~= f1 + (f2 + (f3 + (f4 + nil))));
        lemma_fields_opt_string(1, m.method@, z, f2 + (f3 + (f4 + nil)));
        lemma_fields_opt_string(2, m.url@, z + r1, f3 + (f4 + nil));
        lemma_fields_entries(3, m.headers.deep_view(), z + r1 + r2, f4 + nil);
        lemma_fields_opt_bytes(4, m.body@, z + r1 + r2 + r3, nil);
        lemma_fields_end(fs);
    }
    assert(tags_within(fs, 4)) by {
        lemma_tags_within_add(z, r1, 4);
        lemma_tags_within_add(z + r1, r2, 4);
        lemma_tags_within_add(z + r1 + r2, r3, 4);
        lemma_tags_within_add(z + r1 + r2 + r3, r4, 4);
    }
    assert(bytes_of(fs, 1) == Some(encode_utf8(m.method@))) by {
        lemma_occurrences_run(z, r1, 1, 1);
        lemma_occurrences_run(z + r1, r2, 2, 1);
        lemma_occurrences_run(z + r1 + r2, r3, 3, 1);
        lemma_occurrences_run(z + r1 + r2 + r3, r4, 4, 1);
        lemma_bytes_of(fs, 1, m.method@.len() > 0, encode_utf8(m.method@));
    }
    assert(bytes_of(fs, 2) == Some(encode_utf8(m.url@))) by {
        lemma_occurrences_run(z, r1, 1, 2);
        lemma_occurrences_run(z + r1, r2, 2, 2);
        lemma_occurrences_run(z + r1 + r2, r3, 3, 2);
        lemma_occurrences_run(z + r1 + r2 + r3, r4, 4, 2);
        lemma_bytes_of(fs, 2, m.url@.len() > 0, encode_utf8(m.url@));
    }
    assert(repeated_of(fs, 3) == Some(entry_payloads(m.headers.deep_view()))) by {
        lemma_occurrences_run(z, r1, 1, 3);
        lemma_occurrences_run(z + r1, r2, 2, 3);
        lemma_occurrences_run(z + r1 + r2, r3, 3, 3);
        lemma_occurrences_run(z + r1 + r2 + r3, r4, 4, 3);
        lemma_repeated_of(fs, 3, entry_payloads(m.headers.deep_view()));
    }
    assert(bytes_of(fs, 4) == Some(m.body@)) by {
        lemma_occurrences_run(z, r1, 1, 4);
        lemma_occurrences_run(z + r1, r2, 2, 4);
        lemma_occurrences_run(z + r1 + r2, r3, 3, 4);
        lemma_occurrences_run(z + r1 + r2 + r3, r4, 4, 4);
        lemma_bytes_of(fs, 4, m.body@.len() > 0, m.body@);
    }
}

/// A database query is sent as given: read by the field numbers of
/// `DbQueryRequest` (model = 1, operation = 2, conditions = 3, fields = 4,
/// limit = 5, offset = 6), its encoding holds each field of the request under
/// its own number, and nothing else.
pub proof fn law_db_query_request_fields(m: DbQueryRequest)
    requires
        encode_utf8(m.model@).len() <= u64::MAX,
        encode_utf8(m.operation@).len() <= u64::MAX,
        payload_or_empty(payload_view(m.conditions)).len() <= u64::MAX,
        payload_or_empty(payload_view(m.fields)).len() <= u64::MAX,
    ensures
        wire_fields(db_query_request_bytes(m)) matches Some(fs)
            && tags_within(fs, 6)
            && bytes_of(fs, 1) == Some(encode_utf8(m.model@))
            && bytes_of(fs, 2) == Some(encode_utf8(m.operation@))
            && message_of(fs, 3) == Some(payload_view(m.conditions))
            && message_of(fs, 4) == Some(payload_view(m.fields))
            && scalar_of(fs, 5) == Some((m.limit as u64) as int)
            && scalar_of(fs, 6) == Some((m.offset as u64) as int),
{
    let nil = Seq::<u8>::empty();
    let z = Seq::<WireField>::empty();
    let f1 = opt_string_field(1, m.model@);
    let r1 = opt_len_run(1, m.model@.len() > 0, encode_utf8(m.model@));
    let f2 = opt_string_field(2, m.operation@);
    let r2 = opt_len_run(2, m.operation@.len() > 0, encode_utf8(m.operation@));
    let f3 = opt_message_field(3, payload_view(m.conditions));
    let r3 = opt_len_run(3, payload_view(m.conditions) is Some, payload_or_empty(payload_view(m.conditions)));
    let f4 = opt_message_field(4, payload_view(m.fields));
    let r4 = opt_len_run(4, payload_view(m.fields) is Some, payload_or_empty(payload_view(m.fields)));
    let f5 = opt_int32_field(5, m.limit);
    let r5 = opt_varint_run(5, m.limit != 0, (m.limit as u64) as int);
    let f6 = opt_int32_field(6, m.offset);
    let r6 = opt_varint_run(6, m.offset != 0, (m.offset as u64) as int);
    let fs = z + r1 + r2 + r3 + r4 + r5 + r6;
    assert(wire_fields(db_query_request_bytes(m)) == Some(fs)) by {
        assert(db_query_request_bytes(m) == f1 + f2 + f3 + f4 + f5 + f6);
        lemma_regroup6(f1, f2, f3, f4, f5, f6);
        lemma_fields_opt_string(1, m.model@, z, f2 + (f3 + (f4 + (f5 + (f6 + nil)))));
        lemma_fields_opt_string(2, m.operation@, z + r1, f3 + (f4 + (f5 + (f6 + nil))));
        lemma_fields_opt_message(3, payload_view(m.conditions), z + r1 + r2, f4 + (f5 + (f6 + nil)));
        lemma_fields_opt_message(4, payload_view(m.fields), z + r1 + r2 + r3, f5 + (f6 + nil));
        lemma_fields_opt_int32(5, m.limit, z + r1 + r2 + r3 + r4, f6 + nil);
        lemma_fields_opt_int32(6, m.offset, z + r1 + r2 + r3 + r4 + r5, nil);
        lemma_fields_end(fs);
    }
    assert(tags_within(fs, 6)) by {
        lemma_tags_within_add(z, r1, 6);
        lemma_tags_within_add(z + r1, r2, 6);
        lemma_tags_within_add(z + r1 + r2, r3, 6);
        lemma_tags_within_add(z + r1 + r2 + r3, r4, 6);
        lemma_tags_within_add(z + r1 + r2 + r3 + r4, r5, 6);
        lemma_tags_within_add(z + r1 + r2 + r3 + r4 + r5, r6, 6);
    }
    assert(bytes_of(fs, 1) == Some(encode_utf8(m.model@))) by {
        lemma_occurrences_run(z, r1, 1, 1);
        lemma_occurrences_run(z + r1, r2, 2, 1);
        lemma_occurrences_run(z + r1 + r2, r3, 3, 1);
        lemma_occurrences_run(z + r1 + r2 + r3, r4, 4, 1);
        lemma_occurrences_run(z + r1 + r2 + r3 + r4, r5, 5, 1);
        lemma_occurrences_run(z + r1 + r2 + r3 + r4 + r5, r6, 6, 1);
        lemma_bytes_of(fs, 1, m.model@.len() > 0, encode_utf8(m.model@));
    }
    assert(bytes_of(fs, 2) == Some(encode_utf8(m.operation@))) by {
        lemma_occurrences_run(z, r1, 1, 2);
        lemma_occurrences_run(z + r1, r2, 2, 2);
        lemma_occurrences_run(z + r1 + r2, r3, 3, 2);
        lemma_occurrences_run(z + r1 + r2 + r3, r4, 4, 2);
        lemma_occurrences_run(z + r1 + r2 + r3 + r4, r5, 5, 2);
        lemma_occurrences_run(z + r1 + r2 + r3 + r4 + r5, r6, 6, 2);
        lemma_bytes_of(fs, 2, m.operation@.len() > 0, encode_utf8(m.operation@));
    }
    assert(message_of(fs, 3) == Some(payload_view(m.conditions))) by {
        lemma_occurrences_run(z, r1, 1, 3);
        lemma_occurrences_run(z + r1, r2, 2, 3);
        lemma_occurrences_run(z + r1 + r2, r3, 3, 3);
        lemma_occurrences_run(z + r1 + r2 + r3, r4, 4, 3);
        lemma_occurrences_run(z + r1 + r2 + r3 + r4, r5, 5, 3);
        lemma_occurrences_run(z + r1 + r2 + r3 + r4 + r5, r6, 6, 3);
        lemma_message_of(fs, 3, payload_view(m.conditions));
    }
    assert(message_of(fs, 4) == Some(payload_view(m.fields))) by {
        lemma_occurrences_run(z, r1, 1, 4);
        lemma_occurrences_run(z + r1, r2, 2, 4);
        lemma_occurrences_run(z + r1 + r2, r3, 3, 4);
        lemma_occurrences_run(z + r1 + r2 + r3, r4, 4, 4);
        lemma_occurrences_run(z + r1 + r2 + r3 + r4, r5, 5, 4);
        lemma_occurrences_run(z + r1 + r2 + r3 + r4 + r5, r6, 6, 4);
        lemma_message_of(fs, 4, payload_view(m.fields));
    }
    assert(scalar_of(fs, 5) == Some((m.limit as u64) as int)) by {
        lemma_occurrences_run(z, r1, 1, 5);
        lemma_occurrences_run(z + r1, r2, 2, 5);
        lemma_occurrences_run(z + r1 + r2, r3, 3, 5);
        lemma_occurrences_run(z + r1 + r2 + r3, r4, 4, 5);
        lemma_occurrences_run(z + r1 + r2 + r3 + r4, r5, 5, 5);
        lemma_occurrences_run(z + r1 + r2 + r3 + r4 + r5, r6, 6, 5);
        lemma_scalar_of(fs, 5, m.limit != 0, (m.limit as u64) as int);
    }
    assert(scalar_of(fs, 6) == Some((m.offset as u64) as int)) by {
        lemma_occurrences_run(z, r1, 1, 6);
        lemma_occurrences_run(z + r1, r2, 2, 6);
        lemma_occurrences_run(z + r1 + r2, r3, 3, 6);
        lemma_occurrences_run(z + r1 + r2 + r3, r4, 4, 6);
        lemma_occurrences_run(z + r1 + r2 + r3 + r4, r5, 5, 6);
        lemma_occurrences_run(z + r1 + r2 + r3 + r4 + r5, r6, 6, 6);
        lemma_scalar_of(fs, 6, m.offset != 0, (m.offset as u64) as int);
    }
}

/// A scheduled task is registered as given: read by the field numbers of
/// `ScheduleTaskRequest` (name = 1, cron = 2, handler = 3), its encoding holds
/// each field of the request under its own number, and nothing else.
pub proof fn law_schedule_task_request_fields(m: ScheduleTaskRequest)
    requires
        encode_utf8(m.name@).len() <= u64::MAX,
        encode_utf8(m.cron@).len() <= u64::MAX,
        encode_utf8(m.handler@).len() <= u64::MAX,
    ensures
        wire_fields(schedule_task_request_bytes(m)) matches Some(fs)
            && tags_within(fs, 3)
            && bytes_of(fs, 1) == Some(encode_utf8(m.name@))
            && bytes_of(fs, 2) == Some(encode_utf8(m.cron@))
            && bytes_of(fs, 3) == Some(encode_utf8(m.handler@)),
{
    let nil = Seq::<u8>::empty();
    let z = Seq::<WireField>::empty();
    let f1 = opt_string_field(1, m.name@);
    let r1 = opt_len_run(1, m.name@.len() > 0, encode_utf8(m.name@));
    let f2 = opt_string_field(2, m.cron@);
    let r2 = opt_len_run(2, m.cron@.len() > 0, encode_utf8(m.cron@));
    let f3 = opt_string_field(3, m.handler@);
    let r3 = opt_len_run(3, m.handler@.len() > 0, encode_utf8(m.handler@));
    let fs = z + r1 + r2 + r3;
    assert(wire_fields(schedule_task_request_bytes(m)) == Some(fs)) by {
        assert(schedule_task_request_bytes(m) =~= f1 + (f2 + (f3 + nil)));
        lemma_fields_opt_string(1, m.name@, z, f2 + (f3 + nil));
        lemma_fields_opt_string(2, m.cron@, z + r1, f3 + nil);
        lemma_fields_opt_string(3, m.handler@, z + r1 + r2, nil);
        lemma_fields_end(fs);
    }
    assert(tags_within(fs, 3)) by {
        lemma_tags_within_add(z, r1, 3);
        lemma_tags_within_add(z + r1, r2, 3);
        lemma_tags_within_add(z + r1 + r2, r3, 3);
    }
    assert(bytes_of(fs, 1) == Some(encode_utf8(m.name@))) by {
        lemma_occurrences_run(z, r1, 1, 1);
        lemma_occurrences_run(z + r1, r2, 2, 1);
        lemma_occurrences_run(z + r1 + r2, r3, 3, 1);
        lemma_bytes_of(fs, 1, m.name@.len() > 0, encode_utf8(m.name@));
    }
    assert(bytes_of(fs, 2) == Some(encode_utf8(m.cron@))) by {
        lemma_occurrences_run(z, r1, 1, 2);
        lemma_occurrences_run(z + r1, r2, 2, 2);
        lemma_occurrences_run(z + r1 + r2, r3, 3, 2);
        lemma_bytes_of(fs, 2, m.cron@.len() > 0, encode_utf8(m.cron@));
    }
    assert(bytes_of(fs, 3) == Some(encode_utf8(m.handler@))) by {
        lemma_occurrences_run(z, r1, 1, 3);
        lemma_occurrences_run(z + r1, r2, 2, 3);
        lemma_occurrences_run(z + r1 + r2, r3, 3, 3);
        lemma_bytes_of(fs, 3, m.handler@.len() > 0, encode_utf8(m.handler@));
    }
}

/// A task is enqueued as given: read by the field numbers of
/// `EnqueueTaskRequest` (task_name = 1, payload = 2), its encoding holds each
/// field of the request under its own number, and nothing else.
pub proof fn law_enqueue_task_request_fields(m: EnqueueTaskRequest)
    requires
        encode_utf8(m.task_name@).len() <= u64::MAX,
        payload_or_empty(payload_view(m.payload)).len() <= u64::MAX,
    ensures
        wire_fields(enqueue_task_request_bytes(m)) matches Some(fs)
            && tags_within(fs, 2)
            && bytes_of(fs, 1) == Some(encode_utf8(m.task_name@))
            && message_of(fs, 2) == Some(payload_view(m.payload)),
{
    let nil = Seq::<u8>::empty();
    let z = Seq::<WireField>::empty();
    let f1 = opt_string_field(1, m.task_name@);
    let r1 = opt_len_run(1, m.task_name@.len() > 0, encode_utf8(m.task_name@));
    let f2 = opt_message_field(2, payload_view(m.payload));
    let r2 = opt_len_run(2, payload_view(m.payload) is Some, payload_or_empty(payload_view(m.payload)));
    let fs = z + r1 + r2;
    assert(wire_fields(enqueue_task_request_bytes(m)) == Some(fs)) by {
        assert(enqueue_task_request_bytes(m) =~= f1 + (f2 + nil));
        lemma_fields_opt_string(1, m.task_name@, z, f2 + nil);
        lemma_fields_opt_message(2, payload_view(m.payload), z + r1, nil);
        lemma_fields_end(fs);
    }
    assert(tags_within(fs, 2)) by {
        lemma_tags_within_add(z, r1, 2);
        lemma_tags_within_add(z + r1, r2, 2);
    }
    assert(bytes_of(fs, 1) == Some(encode_utf8(m.task_name@))) by {
        lemma_occurrences_run(z, r1, 1, 1);
        lemma_occurrences_run(z + r1, r2, 2, 1);
        lemma_bytes_of(fs, 1, m.task_name@.len() > 0, encode_utf8(m.task_name@));
    }
    assert(message_of(fs, 2) == Some(payload_view(m.payload))) by {
        lemma_occurrences_run(z, r1, 1, 2);
        lemma_occurrences_run(z + r1, r2, 2, 2);
        lemma_message_of(fs, 2, payload_view(m.payload));
    }
}

/// An async task is submitted as given: read by the field numbers of
/// `AsyncSubmitRequest` (op_type = 1, params = 2), its encoding holds each
/// field of the request under its own number, and nothing else.
pub proof fn law_async_submit_request_fields(m: AsyncSubmitRequest)
    requires
        encode_utf8(m.op_type@).len() <= u64::MAX,
        m.params@.len() <= u64::MAX,
    ensures
        wire_fields(async_submit_request_bytes(m)) matches Some(fs)
            && tags_within(fs, 2)
            && bytes_of(fs, 1) == Some(encode_utf8(m.op_type@))
            && bytes_of(fs, 2) == Some(m.params@),
{
    let nil = Seq::<u8>::empty();
    let z = Seq::<WireField>::empty();
    let f1 = opt_string_field(1, m.op_type@);
    let r1 = opt_len_run(1, m.op_type@.len() > 0, encode_utf8(m.op_type@));
    let f2 = opt_bytes_field(2, m.params@);
    let r2 = opt_len_run(2, m.params@.len() > 0, m.params@);
    let fs = z + r1 + r2;
    assert(wire_fields(async_submit_request_bytes(m)) == Some(fs)) by {
        assert(async_submit_request_bytes(m) =~= f1 + (f2 + nil));
        lemma_fields_opt_string(1, m.op_type@, z, f2 + nil);
        lemma_fields_opt_bytes(2, m.params@, z + r1, nil);
        lemma_fields_end(fs);
    }
    assert(tags_within(fs, 2)) by {
        lemma_tags_within_add(z, r1, 2);
        lemma_tags_within_add(z + r1, r2, 2);
    }
    assert(bytes_of(fs, 1) == Some(encode_utf8(m.op_type@))) by {
        lemma_occurrences_run(z, r1, 1, 1);
        lemma_occurrences_run(z + r1, r2, 2, 1);
        lemma_bytes_of(fs, 1, m.op_type@.len() > 0, encode_utf8(m.op_type@));
    }
    assert(bytes_of(fs, 2) == Some(m.params@)) by {
        lemma_occurrences_run(z, r1, 1, 2);
        lemma_occurrences_run(z + r1, r2, 2, 2);
        lemma_bytes_of(fs, 2, m.params@.len() > 0, m.params@);
    }
}

/// A resolve asks for the task given: read by the field numbers of
/// `AsyncResolveRequest` (task_id = 1), its encoding holds each field of the
/// request under its own number, and nothing else.
pub proof fn law_async_resolve_request_fields(m: AsyncResolveRequest)
    ensures
        wire_fields(async_resolve_request_bytes(m)) matches Some(fs)
            && tags_within(fs, 1)
            && scalar_of(fs, 1) == Some(m.task_id as int),
{
    let nil = Seq::<u8>::empty();
    let z = Seq::<WireField>::empty();
    let f1 = opt_uint64_field(1, m.task_id);
    let r1 = opt_varint_run(1, m.task_id != 0, m.task_id as int);
    let fs = z + r1;
    assert(wire_fields(async_resolve_request_bytes(m)) == Some(fs)) by {
        assert(async_resolve_request_bytes(m) =~= f1 + nil);
        lemma_fields_opt_uint64(1, m.task_id, z, nil);
        lemma_fields_end(fs);
    }
    assert(tags_within(fs, 1)) by {
        lemma_tags_within_add(z, r1, 1);
    }
    assert(scalar_of(fs, 1) == Some(m.task_id as int)) by {
        lemma_occurrences_run(z, r1, 1, 1);
        lemma_scalar_of(fs, 1, m.task_id != 0, m.task_id as int);
    }
}

/// A wait sends no field: read by the field numbers of `AsyncWaitAnyRequest`
/// (no field), its encoding holds each field of the request under its own
/// number, and nothing else.
pub proof fn law_async_wait_any_request_fields(m: AsyncWaitAnyRequest)
    ensures
        wire_fields(async_wait_any_request_bytes(m)) matches Some(fs) && tags_within(fs, 0),
{
    let nil = Seq::<u8>::empty();
    let z = Seq::<WireField>::empty();
    let fs = z;
    assert(wire_fields(async_wait_any_request_bytes(m)) == Some(fs)) by {
        assert(async_wait_any_request_bytes(m) =~= nil);
        lemma_fields_end(fs);
    }
    assert(tags_within(fs, 0)) by {
    }
}

/// Every field of a handler's response reaches the host: read by the field
/// numbers of `HandleResponse` (status = 1, headers = 2, body = 3), its
/// encoding holds each field of the request under its own number, and nothing
/// else.
pub proof fn law_handle_response_fields(m: HandleResponse)
    requires
        forall|i: int| 0 <= i < m.headers.deep_view().len() ==> map_entry((#[trigger] m.headers.deep_view()[i]).0, m.headers.deep_view()[i].1).len() <= u64::MAX,
        m.body@.len() <= u64::MAX,
    ensures
        wire_fields(handle_response_bytes(m)) matches Some(fs)
            && tags_within(fs, 3)
            && scalar_of(fs, 1) == Some((m.status as u64) as int)
            && repeated_of(fs, 2) == Some(entry_payloads(m.headers.deep_view()))
            && bytes_of(fs, 3) == Some(m.body@),
{
    let nil = Seq::<u8>::empty();
    let z = Seq::<WireField>::empty();
    let f1 = opt_int32_field(1, m.status);
    let r1 = opt_varint_run(1, m.status != 0, (m.status as u64) as int);
    let f2 = string_map_fields(2, m.headers.deep_view());
    let r2 = len_run(2, entry_payloads(m.headers.deep_view()));
    let f3 = opt_bytes_field(3, m.body@);
    let r3 = opt_len_run(3, m.body@.len() > 0, m.body@);
    let fs = z + r1 + r2 + r3;
    assert(wire_fields(handle_response_bytes(m)) == Some(fs)) by {
        assert(handle_response_bytes(m) =~= f1 + (f2 + (f3 + nil)));
        lemma_fields_opt_int32(1, m.status, z, f2 + (f3 + nil));
        lemma_fields_entries(2, m.headers.deep_view(), z + r1, f3 + nil);
        lemma_fields_opt_bytes(3, m.body@, z + r1 + r2, nil);
        lemma_fields_end(fs);
    }
    assert(tags_within(fs, 3)) by {
        lemma_tags_within_add(z, r1, 3);
        lemma_tags_within_add(z + r1, r2, 3);
        lemma_tags_within_add(z + r1 + r2, r3, 3);
    }
    assert(scalar_of(fs, 1) == Some((m.status as u64) as int)) by {
        lemma_occurrences_run(z, r1, 1, 1);
        lemma_occurrences_run(z + r1, r2, 2, 1);
        lemma_occurrences_run(z + r1 + r2, r3, 3, 1);
        lemma_scalar_of(fs, 1, m.status != 0, (m.status as u64) as int);
    }
    assert(repeated_of(fs, 2) == Some(entry_payloads(m.headers.deep_view()))) by {
        lemma_occurrences_run(z, r1, 1, 2);
        lemma_occurrences_run(z + r1, r2, 2, 2);
        lemma_occurrences_run(z + r1 + r2, r3, 3, 2);
        lemma_repeated_of(fs, 2, entry_payloads(m.headers.deep_view()));
    }
    assert(bytes_of(fs, 3) == Some(m.body@)) by {
        lemma_occurrences_run(z, r1, 1, 3);
        lemma_occurrences_run(z + r1, r2, 2, 3);
        lemma_occurrences_run(z + r1 + r2, r3, 3, 3);
        lemma_bytes_of(fs, 3, m.body@.len() > 0, m.body@);
    }
}

/// Every field of a middleware's response reaches the host: read by the field
/// numbers of `MiddlewareResponse` (action = 1, status = 2, headers = 3, body =
/// 4), its encoding holds each field of the request under its own number, and
/// nothing else.
pub proof fn law_middleware_response_fields(m: MiddlewareResponse)
    requires
        encode_utf8(m.action@).len() <= u64::MAX,
        forall|i: int| 0 <= i < m.headers.deep_view().len() ==> map_entry((#[trigger] m.headers.deep_view()[i]).0, m.headers.deep_view()[i].1).len() <= u64::MAX,
        m.body@.len() <= u64::MAX,
    ensures
        wire_fields(middleware_response_bytes(m)) matches Some(fs)
            && tags_within(fs, 4)
            && bytes_of(fs, 1) == Some(encode_utf8(m.action@))
            && scalar_of(fs, 2) == Some((m.status as u64) as int)
            && repeated_of(fs, 3) == Some(entry_payloads(m.headers.deep_view()))
            && bytes_of(fs, 4) == Some(m.body@),
{
    let nil = Seq::<u8>::empty();
    let z = Seq::<WireField>::empty();
    let f1 = opt_string_field(1, m.action@);
    let r1 = opt_len_run(1, m.action@.len() > 0, encode_utf8(m.action@));
    let f2 = opt_int32_field(2, m.status);
    let r2 = opt_varint_run(2, m.status != 0, (m.status as u64) as int);
    let f3 = string_map_fields(3, m.headers.deep_view());
    let r3 = len_run(3, entry_payloads(m.headers.deep_view()));
    let f4 = opt_bytes_field(4, m.body@);
    let r4 = opt_len_run(4, m.body@.len() > 0, m.body@);
    let fs = z + r1 + r2 + r3 + r4;
    assert(wire_fields(middleware_response_bytes(m)) == Some(fs)) by {
        assert(middleware_response_bytes(m) =~= f1 + (f2 + (f3 + (f4 + nil))));
        lemma_fields_opt_string(1, m.action@, z, f2 + (f3 + (f4 + nil)));
        lemma_fields_opt_int32(2, m.status, z + r1, f3 + (f4 + nil));
        lemma_fields_entries(3, m.headers.deep_view(), z + r1 + r2, f4 + nil);
        lemma_fields_opt_bytes(4, m.body@, z + r1 + r2 + r3, nil);
        lemma_fields_end(fs);
    }
    assert(tags_within(fs, 4)) by {
        lemma_tags_within_add(z, r1, 4);
        lemma_tags_within_add(z + r1, r2, 4);
        lemma_tags_within_add(z + r1 + r2, r3, 4);
        lemma_tags_within_add(z + r1 + r2 + r3, r4, 4);
    }
    assert(bytes_of(fs, 1) == Some(encode_utf8(m.action@))) by {
        lemma_occurrences_run(z, r1, 1, 1);
        lemma_occurrences_run(z + r1, r2, 2, 1);
        lemma_occurrences_run(z + r1 + r2, r3, 3, 1);
        lemma_occurrences_run(z + r1 + r2 + r3, r4, 4, 1);
        lemma_bytes_of(fs, 1, m.action@.len() > 0, encode_utf8(m.action@));
    }
    assert(scalar_of(fs, 2) == Some((m.status as u64) as int)) by {
        lemma_occurrences_run(z, r1, 1, 2);
        lemma_occurrences_run(z + r1, r2, 2, 2);
        lemma_occurrences_run(z + r1 + r2, r3, 3, 2);
        lemma_occurrences_run(z + r1 + r2 + r3, r4, 4, 2);
        lemma_scalar_of(fs, 2, m.status != 0, (m.status as u64) as int);
    }
    assert(repeated_of(fs, 3) == Some(entry_payloads(m.headers.deep_view()))) by {
        lemma_occurrences_run(z, r1, 1, 3);
        lemma_occurrences_run(z + r1, r2, 2, 3);
        lemma_occurrences_run(z + r1 + r2, r3, 3, 3);
        lemma_occurrences_run(z + r1 + r2 + r3, r4, 4, 3);
        lemma_repeated_of(fs, 3, entry_payloads(m.headers.deep_view()));
    }
    assert(bytes_of(fs, 4) == Some(m.body@)) by {
        lemma_occurrences_run(z, r1, 1, 4);
        lemma_occurrences_run(z + r1, r2, 2, 4);
        lemma_occurrences_run(z + r1 + r2, r3, 3, 4);
        lemma_occurrences_run(z + r1 + r2 + r3, r4, 4, 4);
        lemma_bytes_of(fs, 4, m.body@.len() > 0, m.body@);
    }
}

/// An entry of a `map<string, string>` field holds its key as field 1 and its
/// value as field 2, and nothing else.
pub proof fn law_map_entry_fields(m: (Seq<char>, Seq<char>))
    requires
        encode_utf8(m.0).len() <= u64::MAX,
        encode_utf8(m.1).len() <= u64::MAX,
    ensures
        wire_fields(map_entry(m.0, m.1)) matches Some(fs)
            && tags_within(fs, 2)
            && bytes_of(fs, 1) == Some(encode_utf8(m.0))
            && bytes_of(fs, 2) == Some(encode_utf8(m.1)),
{
    let nil = Seq::<u8>::empty();
    let z = Seq::<WireField>::empty();
    let f1 = opt_string_field(1, m.0);
    let r1 = opt_len_run(1, m.0.len() > 0, encode_utf8(m.0));
    let f2 = opt_string_field(2, m.1);
    let r2 = opt_len_run(2, m.1.len() > 0, encode_utf8(m.1));
    let fs = z + r1 + r2;
    assert(wire_fields(map_entry(m.0, m.1)) == Some(fs)) by {
        assert(map_entry(m.0, m.1) =~= f1 + (f2 + nil));
        lemma_fields_opt_string(1, m.0, z, f2 + nil);
        lemma_fields_opt_string(2, m.1, z + r1, nil);
        lemma_fields_end(fs);
    }
    assert(tags_within(fs, 2)) by {
        lemma_tags_within_add(z, r1, 2);
        lemma_tags_within_add(z + r1, r2, 2);
    }
    assert(bytes_of(fs, 1) == Some(encode_utf8(m.0))) by {
        lemma_occurrences_run(z, r1, 1, 1);
        lemma_occurrences_run(z + r1, r2, 2, 1);
        lemma_bytes_of(fs, 1, m.0.len() > 0, encode_utf8(m.0));
    }
    assert(bytes_of(fs, 2) == Some(encode_utf8(m.1))) by {
        lemma_occurrences_run(z, r1, 1, 2);
        lemma_occurrences_run(z + r1, r2, 2, 2);
        lemma_bytes_of(fs, 2, m.1.len() > 0, encode_utf8(m.1));
    }
}


/// A `StringList` payload holds each string as field 1, in order, and nothing
/// else.
pub proof fn law_sent_string_list_fields(vs: Seq<Seq<char>>)
    requires
        forall|i: int| 0 <= i < vs.len() ==> encode_utf8(#[trigger] vs[i]).len() <= u64::MAX,
    ensures
        wire_fields(sent_string_list(vs)) matches Some(fs)
            && tags_within(fs, 1)
            && repeated_of(fs, 1) == Some(utf8_all(vs)),
{
    let nil = Seq::<u8>::empty();
    let z = Seq::<WireField>::empty();
    let f1 = string_list_fields(1, vs);
    let r1 = len_run(1, utf8_all(vs));
    let fs = z + r1;
    assert(wire_fields(sent_string_list(vs)) == Some(fs)) by {
        assert(sent_string_list(vs) =~= f1 + nil);
        lemma_fields_strings(1, vs, z, nil);
        lemma_fields_end(fs);
    }
    assert(tags_within(fs, 1)) by {
        lemma_tags_within_add(z, r1, 1);
    }
    assert(repeated_of(fs, 1) == Some(utf8_all(vs))) by {
        lemma_occurrences_run(z, r1, 1, 1);
        lemma_repeated_of(fs, 1, utf8_all(vs));
    }
}

/// An entry of a `map<string, StringList>` holds its key as field 1 and its
/// list as field 2 (absent where empty), and nothing else.
pub proof fn law_sent_list_entry_fields(e: (Seq<char>, Seq<Seq<char>>))
    requires
        encode_utf8(e.0).len() <= u64::MAX,
        payload_or_empty(sent_list_value(e.1)).len() <= u64::MAX,
    ensures
        wire_fields(sent_list_entry(e)) matches Some(fs)
            && tags_within(fs, 2)
            && bytes_of(fs, 1) == Some(encode_utf8(e.0))
            && message_of(fs, 2) == Some(sent_list_value(e.1)),
{
    let nil = Seq::<u8>::empty();
    let z = Seq::<WireField>::empty();
    let f1 = opt_string_field(1, e.0);
    let r1 = opt_len_run(1, e.0.len() > 0, encode_utf8(e.0));
    let f2 = opt_message_field(2, sent_list_value(e.1));
    let r2 = opt_len_run(2, sent_list_value(e.1) is Some, payload_or_empty(sent_list_value(e.1)));
    let fs = z + r1 + r2;
    assert(wire_fields(sent_list_entry(e)) == Some(fs)) by {
        assert(sent_list_entry(e) =~= f1 + (f2 + nil));
        lemma_fields_opt_string(1, e.0, z, f2 + nil);
        lemma_fields_opt_message(2, sent_list_value(e.1), z + r1, nil);
        lemma_fields_end(fs);
    }
    assert(tags_within(fs, 2)) by {
        lemma_tags_within_add(z, r1, 2);
        lemma_tags_within_add(z + r1, r2, 2);
    }
    assert(bytes_of(fs, 1) == Some(encode_utf8(e.0))) by {
        lemma_occurrences_run(z, r1, 1, 1);
        lemma_occurrences_run(z + r1, r2, 2, 1);
        lemma_bytes_of(fs, 1, e.0.len() > 0, encode_utf8(e.0));
    }
    assert(message_of(fs, 2) == Some(sent_list_value(e.1))) by {
        lemma_occurrences_run(z, r1, 1, 2);
        lemma_occurrences_run(z + r1, r2, 2, 2);
        lemma_message_of(fs, 2, sent_list_value(e.1));
    }
}

/// A `RequestContext` payload holds the user id as field 1, the admin flag as
/// field 2 and the client's address as field 3, and nothing else.
pub proof fn law_sent_request_context_fields(c: RequestContextView)
    requires
        encode_utf8(c.client_ip).len() <= u64::MAX,
    ensures
        wire_fields(sent_request_context(c)) matches Some(fs)
            && tags_within(fs, 3)
            && scalar_of(fs, 1) == Some((c.user_id as u64) as int)
            && scalar_of(fs, 2) == Some(if c.is_admin { 1int } else { 0int })
            && bytes_of(fs, 3) == Some(encode_utf8(c.client_ip)),
{
    let nil = Seq::<u8>::empty();
    let z = Seq::<WireField>::empty();
    let f1 = opt_int64_field(1, c.user_id);
    let r1 = opt_varint_run(1, c.user_id != 0, (c.user_id as u64) as int);
    let f2 = opt_bool_field(2, c.is_admin);
    let r2 = opt_varint_run(2, c.is_admin, 1);
    let f3 = opt_string_field(3, c.client_ip);
    let r3 = opt_len_run(3, c.client_ip.len() > 0, encode_utf8(c.client_ip));
    let fs = z + r1 + r2 + r3;
    assert(wire_fields(sent_request_context(c)) == Some(fs)) by {
        assert(sent_request_context(c) =~= f1 + (f2 + (f3 + nil)));
        lemma_fields_opt_int64(1, c.user_id, z, f2 + (f3 + nil));
        lemma_fields_opt_bool(2, c.is_admin, z + r1, f3 + nil);
        lemma_fields_opt_string(3, c.client_ip, z + r1 + r2, nil);
        lemma_fields_end(fs);
    }
    assert(tags_within(fs, 3)) by {
        lemma_tags_within_add(z, r1, 3);
        lemma_tags_within_add(z + r1, r2, 3);
        lemma_tags_within_add(z + r1 + r2, r3, 3);
    }
    assert(scalar_of(fs, 1) == Some((c.user_id as u64) as int)) by {
        lemma_occurrences_run(z, r1, 1, 1);
        lemma_occurrences_run(z + r1, r2, 2, 1);
        lemma_occurrences_run(z + r1 + r2, r3, 3, 1);
        lemma_scalar_of(fs, 1, c.user_id != 0, (c.user_id as u64) as int);
    }
    assert(scalar_of(fs, 2) == Some(if c.is_admin { 1int } else { 0int })) by {
        lemma_occurrences_run(z, r1, 1, 2);
        lemma_occurrences_run(z + r1, r2, 2, 2);
        lemma_occurrences_run(z + r1 + r2, r3, 3, 2);
        lemma_scalar_of(fs, 2, c.is_admin, if c.is_admin { 1int } else { 0int });
    }
    assert(bytes_of(fs, 3) == Some(encode_utf8(c.client_ip))) by {
        lemma_occurrences_run(z, r1, 1, 3);
        lemma_occurrences_run(z + r1, r2, 2, 3);
        lemma_occurrences_run(z + r1 + r2, r3, 3, 3);
        lemma_bytes_of(fs, 3, c.client_ip.len() > 0, encode_utf8(c.client_ip));
    }
}

/// A `HostConfig` payload holds the site's name as field 1, and nothing else.
pub proof fn law_sent_host_config_fields(h: HostConfigView)
    requires
        encode_utf8(h.site_name).len() <= u64::MAX,
    ensures
        wire_fields(sent_host_config(h)) matches Some(fs)
            && tags_within(fs, 1)
            && bytes_of(fs, 1) == Some(encode_utf8(h.site_name)),
{
    let nil = Seq::<u8>::empty();
    let z = Seq::<WireField>::empty();
    let f1 = opt_string_field(1, h.site_name);
    let r1 = opt_len_run(1, h.site_name.len() > 0, encode_utf8(h.site_name));
    let fs = z + r1;
    assert(wire_fields(sent_host_config(h)) == Some(fs)) by {
        assert(sent_host_config(h) =~= f1 + nil);
        lemma_fields_opt_string(1, h.site_name, z, nil);
        lemma_fields_end(fs);
    }
    assert(tags_within(fs, 1)) by {
        lemma_tags_within_add(z, r1, 1);
    }
    assert(bytes_of(fs, 1) == Some(encode_utf8(h.site_name))) by {
        lemma_occurrences_run(z, r1, 1, 1);
        lemma_bytes_of(fs, 1, h.site_name.len() > 0, encode_utf8(h.site_name));
    }
}

/// The bytes that `law_emit_event_request_decodes` decodes hold the event's
/// name as field 1 and its payload as field 2, and nothing else.
pub proof fn law_sent_emit_event_request_fields(event: Seq<char>, payload: Option<Seq<u8>>)
    requires
        encode_utf8(event).len() <= u64::MAX,
        payload_or_empty(payload).len() <= u64::MAX,
    ensures
        wire_fields(sent_emit_event_request(event, payload)) matches Some(fs)
            && tags_within(fs, 2)
            && bytes_of(fs, 1) == Some(encode_utf8(event))
            && message_of(fs, 2) == Some(payload),
{
    let nil = Seq::<u8>::empty();
    let z = Seq::<WireField>::empty();
    let f1 = opt_string_field(1, event);
    let r1 = opt_len_run(1, event.len() > 0, encode_utf8(event));
    let f2 = opt_message_field(2, payload);
    let r2 = opt_len_run(2, payload is Some, payload_or_empty(payload));
    let fs = z + r1 + r2;
    assert(wire_fields(sent_emit_event_request(event, payload)) == Some(fs)) by {
        assert(sent_emit_event_request(event, payload) =~= f1 + (f2 + nil));
        lemma_fields_opt_string(1, event, z, f2 + nil);
        lemma_fields_opt_message(2, payload, z + r1, nil);
        lemma_fields_end(fs);
    }
    assert(tags_within(fs, 2)) by {
        lemma_tags_within_add(z, r1, 2);
        lemma_tags_within_add(z + r1, r2, 2);
    }
    assert(bytes_of(fs, 1) == Some(encode_utf8(event))) by {
        lemma_occurrences_run(z, r1, 1, 1);
        lemma_occurrences_run(z + r1, r2, 2, 1);
        lemma_bytes_of(fs, 1, event.len() > 0, encode_utf8(event));
    }
    assert(message_of(fs, 2) == Some(payload)) by {
        lemma_occurrences_run(z, r1, 1, 2);
        lemma_occurrences_run(z + r1, r2, 2, 2);
        lemma_message_of(fs, 2, payload);
    }
}

/// The bytes that `law_init_request_decodes` decodes hold the host's
/// description as field 1 and the plugin's configuration as field 2, and
/// nothing else.
pub proof fn law_sent_init_request_fields(host_config: Option<HostConfigView>, config: Option<Seq<u8>>)
    requires
        payload_or_empty(sent_host_config_value(host_config)).len() <= u64::MAX,
        payload_or_empty(config).len() <= u64::MAX,
    ensures
        wire_fields(sent_init_request(host_config, config)) matches Some(fs)
            && tags_within(fs, 2)
            && message_of(fs, 1) == Some(sent_host_config_value(host_config))
            && message_of(fs, 2) == Some(config),
{
    let nil = Seq::<u8>::empty();
    let z = Seq::<WireField>::empty();
    let f1 = opt_message_field(1, sent_host_config_value(host_config));
    let r1 = opt_len_run(1, sent_host_config_value(host_config) is Some, payload_or_empty(sent_host_config_value(host_config)));
    let f2 = opt_message_field(2, config);
    let r2 = opt_len_run(2, config is Some, payload_or_empty(config));
    let fs = z + r1 + r2;
    assert(wire_fields(sent_init_request(host_config, config)) == Some(fs)) by {
        assert(sent_init_request(host_config, config) =~= f1 + (f2 + nil));
        lemma_fields_opt_message(1, sent_host_config_value(host_config), z, f2 + nil);
        lemma_fields_opt_message(2, config, z + r1, nil);
        lemma_fields_end(fs);
    }
    assert(tags_within(fs, 2)) by {
        lemma_tags_within_add(z, r1, 2);
        lemma_tags_within_add(z + r1, r2, 2);
    }
    assert(message_of(fs, 1) == Some(sent_host_config_value(host_config))) by {
        lemma_occurrences_run(z, r1, 1, 1);
        lemma_occurrences_run(z + r1, r2, 2, 1);
        lemma_message_of(fs, 1, sent_host_config_value(host_config));
    }
    assert(message_of(fs, 2) == Some(config)) by {
        lemma_occurrences_run(z, r1, 1, 2);
        lemma_occurrences_run(z + r1, r2, 2, 2);
        lemma_message_of(fs, 2, config);
    }
}

/// The bytes that `law_handle_request_decodes` decodes hold the method as field
/// 1, the path as field 2, the query's entries as field 3, the headers' entries
/// as field 4, the body as field 5 and the caller as field 6, and nothing else.
pub proof fn law_sent_handle_request_fields(m: HandleRequestView)
    requires
        encode_utf8(m.method).len() <= u64::MAX,
        encode_utf8(m.path).len() <= u64::MAX,
        forall|i: int| 0 <= i < sent_list_entry_payloads(m.query).len() ==> (#[trigger] sent_list_entry_payloads(m.query)[i]).len() <= u64::MAX,
        forall|i: int| 0 <= i < sent_list_entry_payloads(m.headers).len() ==> (#[trigger] sent_list_entry_payloads(m.headers)[i]).len() <= u64::MAX,
        m.body.len() <= u64::MAX,
        payload_or_empty(sent_context_value(m.context)).len() <= u64::MAX,
    ensures
        wire_fields(sent_handle_request(m)) matches Some(fs)
            && tags_within(fs, 6)
            && bytes_of(fs, 1) == Some(encode_utf8(m.method))
            && bytes_of(fs, 2) == Some(encode_utf8(m.path))
            && repeated_of(fs, 3) == Some(sent_list_entry_payloads(m.query))
            && repeated_of(fs, 4) == Some(sent_list_entry_payloads(m.headers))
            && bytes_of(fs, 5) == Some(m.body)
            && message_of(fs, 6) == Some(sent_context_value(m.context)),
{
    let nil = Seq::<u8>::empty();
    let z = Seq::<WireField>::empty();
    let f1 = opt_string_field(1, m.method);
    let r1 = opt_len_run(1, m.method.len() > 0, encode_utf8(m.method));
    let f2 = opt_string_field(2, m.path);
    let r2 = opt_len_run(2, m.path.len() > 0, encode_utf8(m.path));
    let f3 = len_list_fields(3, sent_list_entry_payloads(m.query));
    let r3 = len_run(3, sent_list_entry_payloads(m.query));
    let f4 = len_list_fields(4, sent_list_entry_payloads(m.headers));
    let r4 = len_run(4, sent_list_entry_payloads(m.headers));
    let f5 = opt_bytes_field(5, m.body);
    let r5 = opt_len_run(5, m.body.len() > 0, m.body);
    let f6 = opt_message_field(6, sent_context_value(m.context));
    let r6 = opt_len_run(6, sent_context_value(m.context) is Some, payload_or_empty(sent_context_value(m.context)));
    let fs = z + r1 + r2 + r3 + r4 + r5 + r6;
    assert(wire_fields(sent_handle_request(m)) == Some(fs)) by {
        assert(sent_handle_request(m) == f1 + f2 + f3 + f4 + f5 + f6);
        lemma_regroup6(f1, f2, f3, f4, f5, f6);
        lemma_fields_opt_string(1, m.method, z, f2 + (f3 + (f4 + (f5 + (f6 + nil)))));
        lemma_fields_opt_string(2, m.path, z + r1, f3 + (f4 + (f5 + (f6 + nil))));
        lemma_fields_lens(3, sent_list_entry_payloads(m.query), z + r1 + r2, f4 + (f5 + (f6 + nil)));
        lemma_fields_lens(4, sent_list_entry_payloads(m.headers), z + r1 + r2 + r3, f5 + (f6 + nil));
        lemma_fields_opt_bytes(5, m.body, z + r1 + r2 + r3 + r4, f6 + nil);
        lemma_fields_opt_message(6, sent_context_value(m.context), z + r1 + r2 + r3 + r4 + r5, nil);
        lemma_fields_end(fs);
    }
    assert(tags_within(fs, 6)) by {
        lemma_tags_within_add(z, r1, 6);
        lemma_tags_within_add(z + r1, r2, 6);
        lemma_tags_within_add(z + r1 + r2, r3, 6);
        lemma_tags_within_add(z + r1 + r2 + r3, r4, 6);
        lemma_tags_within_add(z + r1 + r2 + r3 + r4, r5, 6);
        lemma_tags_within_add(z + r1 + r2 + r3 + r4 + r5, r6, 6);
    }
    assert(bytes_of(fs, 1) == Some(encode_utf8(m.method))) by {
        lemma_occurrences_run(z, r1, 1, 1);
        lemma_occurrences_run(z + r1, r2, 2, 1);
        lemma_occurrences_run(z + r1 + r2, r3, 3, 1);
        lemma_occurrences_run(z + r1 + r2 + r3, r4, 4, 1);
        lemma_occurrences_run(z + r1 + r2 + r3 + r4, r5, 5, 1);
        lemma_occurrences_run(z + r1 + r2 + r3 + r4 + r5, r6, 6, 1);
        lemma_bytes_of(fs, 1, m.method.len() > 0, encode_utf8(m.method));
    }
    assert(bytes_of(fs, 2) == Some(encode_utf8(m.path))) by {
        lemma_occurrences_run(z, r1, 1, 2);
        lemma_occurrences_run(z + r1, r2, 2, 2);
        lemma_occurrences_run(z + r1 + r2, r3, 3, 2);
        lemma_occurrences_run(z + r1 + r2 + r3, r4, 4, 2);
        lemma_occurrences_run(z + r1 + r2 + r3 + r4, r5, 5, 2);
        lemma_occurrences_run(z + r1 + r2 + r3 + r4 + r5, r6, 6, 2);
        lemma_bytes_of(fs, 2, m.path.len() > 0, encode_utf8(m.path));
    }
    assert(repeated_of(fs, 3) == Some(sent_list_entry_payloads(m.query))) by {
        lemma_occurrences_run(z, r1, 1, 3);
        lemma_occurrences_run(z + r1, r2, 2, 3);
        lemma_occurrences_run(z + r1 + r2, r3, 3, 3);
        lemma_occurrences_run(z + r1 + r2 + r3, r4, 4, 3);
        lemma_occurrences_run(z + r1 + r2 + r3 + r4, r5, 5, 3);
        lemma_occurrences_run(z + r1 + r2 + r3 + r4 + r5, r6, 6, 3);
        lemma_repeated_of(fs, 3, sent_list_entry_payloads(m.query));
    }
    assert(repeated_of(fs, 4) == Some(sent_list_entry_payloads(m.headers))) by {
        lemma_occurrences_run(z, r1, 1, 4);
        lemma_occurrences_run(z + r1, r2, 2, 4);
        lemma_occurrences_run(z + r1 + r2, r3, 3, 4);
        lemma_occurrences_run(z + r1 + r2 + r3, r4, 4, 4);
        lemma_occurrences_run(z + r1 + r2 + r3 + r4, r5, 5, 4);
        lemma_occurrences_run(z + r1 + r2 + r3 + r4 + r5, r6, 6, 4);
        lemma_repeated_of(fs, 4, sent_list_entry_payloads(m.headers));
    }
    assert(bytes_of(fs, 5) == Some(m.body)) by {
        lemma_occurrences_run(z, r1, 1, 5);
        lemma_occurrences_run(z + r1, r2, 2, 5);
        lemma_occurrences_run(z + r1 + r2, r3, 3, 5);
        lemma_occurrences_run(z + r1 + r2 + r3, r4, 4, 5);
        lemma_occurrences_run(z + r1 + r2 + r3 + r4, r5, 5, 5);
        lemma_occurrences_run(z + r1 + r2 + r3 + r4 + r5, r6, 6, 5);
        lemma_bytes_of(fs, 5, m.body.len() > 0, m.body);
    }
    assert(message_of(fs, 6) == Some(sent_context_value(m.context))) by {
        lemma_occurrences_run(z, r1, 1, 6);
        lemma_occurrences_run(z + r1, r2, 2, 6);
        lemma_occurrences_run(z + r1 + r2, r3, 3, 6);
        lemma_occurrences_run(z + r1 + r2 + r3, r4, 4, 6);
        lemma_occurrences_run(z + r1 + r2 + r3 + r4, r5, 5, 6);
        lemma_occurrences_run(z + r1 + r2 + r3 + r4 + r5, r6, 6, 6);
        lemma_message_of(fs, 6, sent_context_value(m.context));
    }
}


// ---------------------------------------------------------------------------
// What the decoders take from any bytes
// ---------------------------------------------------------------------------

/// A field that a `ConfigGetResponse` decoder accepts: field 1 a UTF-8 string,
/// field 2 a varint; any other field is passed over.
pub open spec fn config_get_response_field_ok(f: WireField) -> bool {
    &&& f.tag == 1 ==> f.wire == WIRE_LEN && valid_utf8(f.payload)
    &&& f.tag == 2 ==> f.wire == WIRE_VARINT
}

/// A configuration reply is read by field number, whatever else it holds: bytes
/// made of varint and length-delimited fields, field 1 a UTF-8 string and field
/// 2 a varint, decode to the last string of field 1 as the value and to whether
/// the last varint of field 2 is not zero as `exists`.
pub proof fn law_config_get_response_reads(b: Seq<u8>)
    ensures
        wire_fields(b) matches Some(fs) ==> ((forall|i: int|
            0 <= i < fs.len() ==> config_get_response_field_ok(#[trigger] fs[i]))
            ==> decode_config_get_response(b) == Some(
            ConfigGetResponseView {
                value: decode_utf8(last_payload(fs, 1)),
                exists: last_value(fs, 2) != 0,
            },
        )),
{
    let read = |fs: Seq<WireField>|
        ConfigGetResponseView {
            value: decode_utf8(last_payload(fs, 1)),
            exists: last_value(fs, 2) != 0,
        };
    let good = |f: WireField| config_get_response_field_ok(f);
    let s = config_get_response_steps();
    assert forall|fs: Seq<WireField>, t: u32, w: u8, bb: Seq<u8>|
        (#[trigger] wire_field_step(fs, t, w, bb)) matches Some((fs2, r)) ==> (good(fs2.last())
            ==> s(read(fs), t, w, bb) == Some((read(fs2), r))) by {
        if let Some((fs2, r)) = wire_field_step(fs, t, w, bb) {
            let f = fs2.last();
            assert(fs2 == fs.push(f));
            lemma_occurrences_push(fs, f, 1);
            lemma_occurrences_push(fs, f, 2);
            lemma_skip_follows(read(fs), fs, t, w, bb);
        }
    }
    lemma_decode_follows_fields(Seq::empty(), b, s, read, good);
    assert(read(Seq::empty()) == config_get_response_default()) by {
        assert(decode_utf8(Seq::<u8>::empty()) =~= Seq::<char>::empty());
    }
}


/// A field that a `BoolResult` decoder accepts: field 1 a varint, field 2 a
/// UTF-8 string; any other field is passed over.
pub open spec fn bool_result_field_ok(f: WireField) -> bool {
    &&& f.tag == 1 ==> f.wire == WIRE_VARINT
    &&& f.tag == 2 ==> f.wire == WIRE_LEN && valid_utf8(f.payload)
}

/// A success/error reply is read by field number, whatever else it holds: bytes
/// made of varint and length-delimited fields, field 1 a varint and field 2 a
/// UTF-8 string, decode to whether the last varint of field 1 is not zero and
/// to the last string of field 2.
pub proof fn law_bool_result_reads(b: Seq<u8>)
    ensures
        wire_fields(b) matches Some(fs) ==> ((forall|i: int|
            0 <= i < fs.len() ==> bool_result_field_ok(#[trigger] fs[i])) ==> decode_bool_result(b) == Some(
            BoolResultView {
                success: last_value(fs, 1) != 0,
                error: decode_utf8(last_payload(fs, 2)),
            },
        )),
{
    let read = |fs: Seq<WireField>|
        BoolResultView { success: last_value(fs, 1) != 0, error: decode_utf8(last_payload(fs, 2)) };
    let good = |f: WireField| bool_result_field_ok(f);
    let s = bool_result_steps();
    assert forall|fs: Seq<WireField>, t: u32, w: u8, bb: Seq<u8>|
        (#[trigger] wire_field_step(fs, t, w, bb)) matches Some((fs2, r)) ==> (good(fs2.last())
            ==> s(read(fs), t, w, bb) == Some((read(fs2), r))) by {
        if let Some((fs2, r)) = wire_field_step(fs, t, w, bb) {
            let f = fs2.last();
            assert(fs2 == fs.push(f));
            lemma_occurrences_push(fs, f, 1);
            lemma_occurrences_push(fs, f, 2);
            lemma_skip_follows(read(fs), fs, t, w, bb);
        }
    }
    lemma_decode_follows_fields(Seq::empty(), b, s, read, good);
    assert(read(Seq::empty()) == bool_result_default()) by {
        assert(decode_utf8(Seq::<u8>::empty()) =~= Seq::<char>::empty());
    }
}

/// A field that a `RedisGetResponse` decoder accepts: field 1 a UTF-8 string,
/// field 2 a varint; any other field is passed over.
pub open spec fn redis_get_response_field_ok(f: WireField) -> bool {
    &&& f.tag == 1 ==> f.wire == WIRE_LEN && valid_utf8(f.payload)
    &&& f.tag == 2 ==> f.wire == WIRE_VARINT
}

/// A Redis read's reply is read by field number, whatever else it holds: bytes
/// made of varint and length-delimited fields, field 1 a UTF-8 string and field
/// 2 a varint, decode to the last string of field 1 and whether the last varint
/// of field 2 is not zero.
pub proof fn law_redis_get_response_reads(b: Seq<u8>)
    ensures
        wire_fields(b) matches Some(fs) ==> ((forall|i: int|
            0 <= i < fs.len() ==> redis_get_response_field_ok(#[trigger] fs[i])) ==> decode_redis_get_response(b) == Some(
            RedisGetResponseView {
                value: decode_utf8(last_payload(fs, 1)),
                exists: last_value(fs, 2) != 0,
            },
        )),
{
    let read = |fs: Seq<WireField>|
        RedisGetResponseView { value: decode_utf8(last_payload(fs, 1)), exists: last_value(fs, 2) != 0 };
    let good = |f: WireField| redis_get_response_field_ok(f);
    let s = redis_get_response_steps();
    assert forall|fs: Seq<WireField>, t: u32, w: u8, bb: Seq<u8>|
        (#[trigger] wire_field_step(fs, t, w, bb)) matches Some((fs2, r)) ==> (good(fs2.last())
            ==> s(read(fs), t, w, bb) == Some((read(fs2), r))) by {
        if let Some((fs2, r)) = wire_field_step(fs, t, w, bb) {
            let f = fs2.last();
            assert(fs2 == fs.push(f));
            lemma_occurrences_push(fs, f, 1);
            lemma_occurrences_push(fs, f, 2);
            lemma_skip_follows(read(fs), fs, t, w, bb);
        }
    }
    lemma_decode_follows_fields(Seq::empty(), b, s, read, good);
    assert(read(Seq::empty()) == redis_get_response_default()) by {
        assert(decode_utf8(Seq::<u8>::empty()) =~= Seq::<char>::empty());
    }
}

/// A field that a `AsyncSubmitResponse` decoder accepts: field 1 a varint; any
/// other field is passed over.
pub open spec fn async_submit_response_field_ok(f: WireField) -> bool {
    &&& f.tag == 1 ==> f.wire == WIRE_VARINT
}

/// A submit's reply is read by field number, whatever else it holds: bytes made
/// of varint and length-delimited fields, field 1 a varint, decode to the last
/// varint of field 1 as the task id.
pub proof fn law_async_submit_response_reads(b: Seq<u8>)
    ensures
        wire_fields(b) matches Some(fs) ==> ((forall|i: int|
            0 <= i < fs.len() ==> async_submit_response_field_ok(#[trigger] fs[i])) ==> decode_async_submit_response(b) == Some(
            AsyncSubmitResponse { task_id: last_value(fs, 1) as u64 },
        )),
{
    let read = |fs: Seq<WireField>|
        AsyncSubmitResponse { task_id: last_value(fs, 1) as u64 };
    let good = |f: WireField| async_submit_response_field_ok(f);
    let s = async_submit_response_steps();
    assert forall|fs: Seq<WireField>, t: u32, w: u8, bb: Seq<u8>|
        (#[trigger] wire_field_step(fs, t, w, bb)) matches Some((fs2, r)) ==> (good(fs2.last())
            ==> s(read(fs), t, w, bb) == Some((read(fs2), r))) by {
        if let Some((fs2, r)) = wire_field_step(fs, t, w, bb) {
            let f = fs2.last();
            assert(fs2 == fs.push(f));
            lemma_occurrences_push(fs, f, 1);
            lemma_skip_follows(read(fs), fs, t, w, bb);
        }
    }
    lemma_decode_follows_fields(Seq::empty(), b, s, read, good);
    assert(read(Seq::empty()) == AsyncSubmitResponse { task_id: 0 }) by {
        assert(decode_utf8(Seq::<u8>::empty()) =~= Seq::<char>::empty());
    }
}

/// A field that a `AsyncWaitAnyResponse` decoder accepts: field 1 a varint; any
/// other field is passed over.
pub open spec fn async_wait_any_response_field_ok(f: WireField) -> bool {
    &&& f.tag == 1 ==> f.wire == WIRE_VARINT
}

/// A wait's reply is read by field number, whatever else it holds: bytes made
/// of varint and length-delimited fields, field 1 a varint, decode to the last
/// varint of field 1 as the task id.
pub proof fn law_async_wait_any_response_reads(b: Seq<u8>)
    ensures
        wire_fields(b) matches Some(fs) ==> ((forall|i: int|
            0 <= i < fs.len() ==> async_wait_any_response_field_ok(#[trigger] fs[i])) ==> decode_async_wait_any_response(b) == Some(
            AsyncWaitAnyResponse { task_id: last_value(fs, 1) as u64 },
        )),
{
    let read = |fs: Seq<WireField>|
        AsyncWaitAnyResponse { task_id: last_value(fs, 1) as u64 };
    let good = |f: WireField| async_wait_any_response_field_ok(f);
    let s = async_wait_any_response_steps();
    assert forall|fs: Seq<WireField>, t: u32, w: u8, bb: Seq<u8>|
        (#[trigger] wire_field_step(fs, t, w, bb)) matches Some((fs2, r)) ==> (good(fs2.last())
            ==> s(read(fs), t, w, bb) == Some((read(fs2), r))) by {
        if let Some((fs2, r)) = wire_field_step(fs, t, w, bb) {
            let f = fs2.last();
            assert(fs2 == fs.push(f));
            lemma_occurrences_push(fs, f, 1);
            lemma_skip_follows(read(fs), fs, t, w, bb);
        }
    }
    lemma_decode_follows_fields(Seq::empty(), b, s, read, good);
    assert(read(Seq::empty()) == AsyncWaitAnyResponse { task_id: 0 }) by {
        assert(decode_utf8(Seq::<u8>::empty()) =~= Seq::<char>::empty());
    }
}

/// A field that a `AsyncResolveResponse` decoder accepts: field 1 a varint,
/// field 2 length-delimited, field 3 a UTF-8 string; any other field is passed
/// over.
pub open spec fn async_resolve_response_field_ok(f: WireField) -> bool {
    &&& f.tag == 1 ==> f.wire == WIRE_VARINT
    &&& f.tag == 2 ==> f.wire == WIRE_LEN
    &&& f.tag == 3 ==> f.wire == WIRE_LEN && valid_utf8(f.payload)
}

/// A resolve's reply is read by field number, whatever else it holds: bytes
/// made of varint and length-delimited fields, field 1 a varint, field 2
/// length-delimited and field 3 a UTF-8 string, decode to whether the last
/// varint of field 1 is not zero, the last payload of field 2 and the last
/// string of field 3.
pub proof fn law_async_resolve_response_reads(b: Seq<u8>)
    ensures
        wire_fields(b) matches Some(fs) ==> ((forall|i: int|
            0 <= i < fs.len() ==> async_resolve_response_field_ok(#[trigger] fs[i])) ==> decode_async_resolve_response(b) == Some(
            AsyncResolveResponseView {
                done: last_value(fs, 1) != 0,
                result: last_payload(fs, 2),
                error: decode_utf8(last_payload(fs, 3)),
            },
        )),
{
    let read = |fs: Seq<WireField>|
        AsyncResolveResponseView { done: last_value(fs, 1) != 0, result: last_payload(fs, 2), error: decode_utf8(last_payload(fs, 3)) };
    let good = |f: WireField| async_resolve_response_field_ok(f);
    let s = async_resolve_response_steps();
    assert forall|fs: Seq<WireField>, t: u32, w: u8, bb: Seq<u8>|
        (#[trigger] wire_field_step(fs, t, w, bb)) matches Some((fs2, r)) ==> (good(fs2.last())
            ==> s(read(fs), t, w, bb) == Some((read(fs2), r))) by {
        if let Some((fs2, r)) = wire_field_step(fs, t, w, bb) {
            let f = fs2.last();
            assert(fs2 == fs.push(f));
            lemma_occurrences_push(fs, f, 1);
            lemma_occurrences_push(fs, f, 2);
            lemma_occurrences_push(fs, f, 3);
            lemma_skip_follows(read(fs), fs, t, w, bb);
        }
    }
    lemma_decode_follows_fields(Seq::empty(), b, s, read, good);
    assert(read(Seq::empty()) == async_resolve_response_default()) by {
        assert(decode_utf8(Seq::<u8>::empty()) =~= Seq::<char>::empty());
    }
}

/// A field that a `HttpRequestResponse` decoder accepts: field 1 a varint,
/// field 2 a map entry, field 3 length-delimited; any other field is passed
/// over.
pub open spec fn http_request_response_field_ok(f: WireField) -> bool {
    &&& f.tag == 1 ==> f.wire == WIRE_VARINT
    &&& f.tag == 2 ==> f.wire == WIRE_LEN && decode_map_entry(f.payload) is Some
    &&& f.tag == 3 ==> f.wire == WIRE_LEN
}

/// An HTTP request's reply is read by field number, whatever else it holds:
/// bytes made of varint and length-delimited fields, field 1 a varint, field 2
/// map entries and field 3 length-delimited, decode to the last varint of field
/// 1 as the status, every entry of field 2 in order, and the last payload of
/// field 3 as the body.
pub proof fn law_http_request_response_reads(b: Seq<u8>)
    ensures
        wire_fields(b) matches Some(fs) ==> ((forall|i: int|
            0 <= i < fs.len() ==> http_request_response_field_ok(#[trigger] fs[i])) ==> decode_http_request_response(b) == Some(
            HttpRequestResponseView {
                status: (last_value(fs, 1) as u64) as i32,
                headers: decoded_entries(all_payloads(fs, 2)),
                body: last_payload(fs, 3),
            },
        )),
{
    let read = |fs: Seq<WireField>|
        HttpRequestResponseView { status: (last_value(fs, 1) as u64) as i32, headers: decoded_entries(all_payloads(fs, 2)), body: last_payload(fs, 3) };
    let good = |f: WireField| http_request_response_field_ok(f);
    let s = http_request_response_steps();
    assert forall|fs: Seq<WireField>, t: u32, w: u8, bb: Seq<u8>|
        (#[trigger] wire_field_step(fs, t, w, bb)) matches Some((fs2, r)) ==> (good(fs2.last())
            ==> s(read(fs), t, w, bb) == Some((read(fs2), r))) by {
        if let Some((fs2, r)) = wire_field_step(fs, t, w, bb) {
            let f = fs2.last();
            assert(fs2 == fs.push(f));
            lemma_occurrences_push(fs, f, 1);
            lemma_occurrences_push(fs, f, 2);
            lemma_all_payloads_push(fs, f, 2);
            lemma_occurrences_push(fs, f, 3);
            lemma_skip_follows(read(fs), fs, t, w, bb);
        }
    }
    lemma_decode_follows_fields(Seq::empty(), b, s, read, good);
    assert(read(Seq::empty()) == http_request_response_default()) by {
        assert(decode_utf8(Seq::<u8>::empty()) =~= Seq::<char>::empty());
        lemma_all_payloads_empty(2);
    }
}

/// A field that a `DbQueryResponse` decoder accepts: field 1 an encoded
/// `Struct`, field 2 a varint, field 3 a UTF-8 string; any other field is
/// passed over.
pub open spec fn db_query_response_field_ok(f: WireField) -> bool {
    &&& f.tag == 1 ==> f.wire == WIRE_LEN && struct_payload_decodes(f.payload)
    &&& f.tag == 2 ==> f.wire == WIRE_VARINT
    &&& f.tag == 3 ==> f.wire == WIRE_LEN && valid_utf8(f.payload)
}

/// A database query's reply is read by field number, whatever else it holds:
/// bytes made of varint and length-delimited fields, field 1 encoded `Struct`s,
/// field 2 a varint and field 3 a UTF-8 string, decode to every row of field 1
/// in order, the last varint of field 2 as the total and the last string of
/// field 3 as the error.
pub proof fn law_db_query_response_reads(b: Seq<u8>)
    ensures
        wire_fields(b) matches Some(fs) ==> ((forall|i: int|
            0 <= i < fs.len() ==> db_query_response_field_ok(#[trigger] fs[i])) ==> decode_db_query_response(b) == Some(
            DbQueryResponseView {
                rows: all_payloads(fs, 1),
                total: (last_value(fs, 2) as u64) as i64,
                error: decode_utf8(last_payload(fs, 3)),
            },
        )),
{
    let read = |fs: Seq<WireField>|
        DbQueryResponseView { rows: all_payloads(fs, 1), total: (last_value(fs, 2) as u64) as i64, error: decode_utf8(last_payload(fs, 3)) };
    let good = |f: WireField| db_query_response_field_ok(f);
    let s = db_query_response_steps();
    assert forall|fs: Seq<WireField>, t: u32, w: u8, bb: Seq<u8>|
        (#[trigger] wire_field_step(fs, t, w, bb)) matches Some((fs2, r)) ==> (good(fs2.last())
            ==> s(read(fs), t, w, bb) == Some((read(fs2), r))) by {
        if let Some((fs2, r)) = wire_field_step(fs, t, w, bb) {
            let f = fs2.last();
            assert(fs2 == fs.push(f));
            lemma_occurrences_push(fs, f, 1);
            lemma_all_payloads_push(fs, f, 1);
            lemma_occurrences_push(fs, f, 2);
            lemma_occurrences_push(fs, f, 3);
            lemma_skip_follows(read(fs), fs, t, w, bb);
        }
    }
    lemma_decode_follows_fields(Seq::empty(), b, s, read, good);
    assert(read(Seq::empty()) == db_query_response_default()) by {
        assert(decode_utf8(Seq::<u8>::empty()) =~= Seq::<char>::empty());
        lemma_all_payloads_empty(1);
    }
}


} // verus!
