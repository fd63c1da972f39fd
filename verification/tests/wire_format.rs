use ppanel_sdk::proto::{
    AsyncResolveRequest, AsyncResolveResponse, AsyncSubmitResponse, AsyncWaitAnyResponse,
    BoolResult, ConfigGetResponse, DbQueryResponse, HttpRequestResponse, RedisGetResponse,
    RedisSetRequest,
};
use prost::Message;

fn bool_result(success: bool, error: &str) -> BoolResult {
    BoolResult { success, error: error.to_string() }
}

#[test]
fn bool_result_encodes_fields_in_tag_order() {
    assert_eq!(bool_result(true, "x").encode_to_vec(), vec![0x08, 0x01, 0x12, 0x01, b'x']);
}

#[test]
fn default_fields_are_left_out() {
    assert!(bool_result(false, "").encode_to_vec().is_empty());
    assert!(AsyncSubmitResponse { task_id: 0 }.encode_to_vec().is_empty());
}

#[test]
fn varint_uses_seven_bits_per_byte() {
    assert_eq!(AsyncResolveRequest { task_id: 300 }.encode_to_vec(), vec![0x08, 0xAC, 0x02]);
    assert_eq!(AsyncResolveRequest { task_id: 127 }.encode_to_vec(), vec![0x08, 0x7F]);
    assert_eq!(AsyncResolveRequest { task_id: 128 }.encode_to_vec(), vec![0x08, 0x80, 0x01]);
    let max = AsyncResolveRequest { task_id: u64::MAX }.encode_to_vec();
    assert_eq!(max.len(), 11);
    assert_eq!(max[10], 0x01);
}

#[test]
fn negative_int32_is_sign_extended() {
    let bytes = HttpRequestResponse { status: -1, headers: vec![], body: vec![] }.encode_to_vec();
    assert_eq!(bytes, vec![0x08, 0xFF, 0xFF, 0xFF, 0xFF, 0xFF, 0xFF, 0xFF, 0xFF, 0xFF, 0x01]);
    let back = HttpRequestResponse::decode(&bytes).unwrap();
    assert_eq!(back.status, -1);
}

#[test]
fn encoding_matches_prost() {
    let req = RedisSetRequest {
        key: "counter".to_string(),
        value: "1".to_string(),
        ttl_seconds: 3600,
    };
    let mut expected = Vec::new();
    prost::encoding::string::encode(1, &"counter".to_string(), &mut expected);
    prost::encoding::string::encode(2, &"1".to_string(), &mut expected);
    prost::encoding::int64::encode(3, &3600i64, &mut expected);
    assert_eq!(req.encode_to_vec(), expected);
}

#[test]
fn bool_result_roundtrip() {
    for (s, e) in [(true, ""), (false, "denied"), (true, "warn: 日本"), (false, "")] {
        let m = bool_result(s, e);
        let back = BoolResult::decode(&m.encode_to_vec()).unwrap();
        assert_eq!(back.success, s);
        assert_eq!(back.error, e);
    }
}

#[test]
fn value_replies_roundtrip() {
    let m = RedisGetResponse { value: "42".to_string(), exists: true };
    let back = RedisGetResponse::decode(&m.encode_to_vec()).unwrap();
    assert_eq!((back.value.as_str(), back.exists), ("42", true));
    let m = ConfigGetResponse { value: "PPanel".to_string(), exists: false };
    let back = ConfigGetResponse::decode(&m.encode_to_vec()).unwrap();
    assert_eq!((back.value.as_str(), back.exists), ("PPanel", false));
}

#[test]
fn task_replies_roundtrip() {
    for id in [0u64, 1, 64, 300, u64::MAX] {
        let back = AsyncSubmitResponse::decode(&AsyncSubmitResponse { task_id: id }.encode_to_vec());
        assert_eq!(back.unwrap().task_id, id);
        let back = AsyncWaitAnyResponse::decode(&AsyncWaitAnyResponse { task_id: id }.encode_to_vec());
        assert_eq!(back.unwrap().task_id, id);
    }
}

#[test]
fn resolve_reply_roundtrip() {
    let m = AsyncResolveResponse { done: true, result: vec![1, 2, 3], error: "e".to_string() };
    let back = AsyncResolveResponse::decode(&m.encode_to_vec()).unwrap();
    assert!(back.done);
    assert_eq!(back.result, vec![1, 2, 3]);
    assert_eq!(back.error, "e");
}

#[test]
fn http_reply_roundtrip() {
    let m = HttpRequestResponse { status: 404, headers: vec![], body: b"missing".to_vec() };
    let back = HttpRequestResponse::decode(&m.encode_to_vec()).unwrap();
    assert_eq!(back.status, 404);
    assert_eq!(back.body, b"missing".to_vec());
}

fn struct_row(name: &str) -> Vec<u8> {
    let mut fields = std::collections::BTreeMap::new();
    fields.insert(
        "name".to_string(),
        prost_types::Value { kind: Some(prost_types::value::Kind::StringValue(name.to_string())) },
    );
    prost_types::Struct { fields }.encode_to_vec()
}

#[test]
fn db_reply_roundtrip() {
    let m = DbQueryResponse {
        rows: vec![struct_row("alice"), struct_row("bob"), vec![]],
        total: 2,
        error: String::new(),
    };
    let back = DbQueryResponse::decode(&m.encode_to_vec()).unwrap();
    assert_eq!(back.rows, m.rows);
    assert_eq!(back.total, 2);
    assert_eq!(back.error, "");
}

#[test]
fn db_reply_with_malformed_row_is_refused() {
    let m = DbQueryResponse { rows: vec![vec![0x0A, 0x05, 0x01]], total: 0, error: String::new() };
    assert!(DbQueryResponse::decode(&m.encode_to_vec()).is_none());
    assert!(DbQueryResponse::decode_or_default(&m.encode_to_vec()).rows.is_empty());
}

#[test]
fn empty_bytes_decode_to_default() {
    let m = BoolResult::decode(&[]).unwrap();
    assert!(!m.success);
    assert!(m.error.is_empty());
    assert_eq!(AsyncSubmitResponse::decode(&[]).unwrap().task_id, 0);
}

#[test]
fn unknown_fields_are_skipped() {
    // field 3 varint, field 4 length-delimited, field 5 fixed32, field 6 fixed64
    let mut bytes = vec![0x18, 0x2A, 0x22, 0x02, b'a', b'b', 0x2D, 1, 2, 3, 4];
    bytes.extend_from_slice(&[0x31, 1, 2, 3, 4, 5, 6, 7, 8]);
    bytes.extend_from_slice(&bool_result(true, "ok").encode_to_vec());
    let m = BoolResult::decode(&bytes).unwrap();
    assert!(m.success);
    assert_eq!(m.error, "ok");
}

#[test]
fn last_occurrence_of_a_field_wins() {
    let m = BoolResult::decode(&[0x12, 0x01, b'a', 0x12, 0x01, b'b']).unwrap();
    assert_eq!(m.error, "b");
}

#[test]
fn non_canonical_varint_is_accepted() {
    assert_eq!(AsyncSubmitResponse::decode(&[0x08, 0x81, 0x00]).unwrap().task_id, 1);
}

#[test]
fn malformed_messages_are_refused() {
    // truncated varint
    assert!(BoolResult::decode(&[0x08]).is_none());
    assert!(BoolResult::decode(&[0x08, 0x80]).is_none());
    // length beyond the buffer
    assert!(BoolResult::decode(&[0x12, 0x05, b'a']).is_none());
    // invalid UTF-8
    assert!(BoolResult::decode(&[0x12, 0x01, 0xFF]).is_none());
    // wire type that does not match the field
    assert!(BoolResult::decode(&[0x0A, 0x00]).is_none());
    // tag 0
    assert!(BoolResult::decode(&[0x00, 0x00]).is_none());
    // wire types 6 and 7
    assert!(BoolResult::decode(&[0x0E, 0x00]).is_none());
    assert!(BoolResult::decode(&[0x0F, 0x00]).is_none());
    // a varint above u64::MAX
    assert!(AsyncSubmitResponse::decode(&[0x08, 0xFF, 0xFF, 0xFF, 0xFF, 0xFF, 0xFF, 0xFF, 0xFF, 0xFF, 0x02]).is_none());
    // an end-group key at the top level
    assert!(BoolResult::decode(&[0x1C]).is_none());
}

#[test]
fn decode_or_default_falls_back() {
    let m = BoolResult::decode_or_default(&[0x08]);
    assert!(!m.success);
    assert!(m.error.is_empty());
    let m = AsyncResolveResponse::decode_or_default(&[0xFF]);
    assert!(!m.done);
}

#[test]
fn unknown_groups_are_skipped() {
    // start group 3, a varint field inside, end group 3, then success = true
    let m = BoolResult::decode(&[0x1B, 0x08, 0x01, 0x1C, 0x08, 0x01]).unwrap();
    assert!(m.success);
    // an end-group key of another tag closes nothing
    assert!(BoolResult::decode(&[0x1B, 0x24, 0x08, 0x01]).is_none());
    // a group that never ends
    assert!(BoolResult::decode(&[0x1B, 0x08, 0x01]).is_none());
}

#[test]
fn truncated_fixed_width_fields_are_refused() {
    assert!(BoolResult::decode(&[0x1D, 1, 2, 3]).is_none());
    assert!(BoolResult::decode(&[0x19, 1, 2, 3, 4, 5, 6, 7]).is_none());
}

fn hs(pairs: &[(&str, &str)]) -> Vec<(String, String)> {
    pairs.iter().map(|(k, v)| (k.to_string(), v.to_string())).collect()
}

#[test]
fn http_reply_headers_roundtrip() {
    let m = HttpRequestResponse {
        status: 200,
        headers: hs(&[("Content-Type", "application/json"), ("X-Id", "7")]),
        body: b"{}".to_vec(),
    };
    let back = HttpRequestResponse::decode(&m.encode_to_vec()).unwrap();
    assert_eq!(back.status, 200);
    assert_eq!(back.headers, m.headers);
    assert_eq!(back.body, b"{}".to_vec());
}

#[test]
fn http_reply_header_entries_in_wire_order() {
    let bytes = vec![
        0x12, 6, 0x0A, 1, b'k', 0x12, 1, b'1',
        0x12, 6, 0x0A, 1, b'k', 0x12, 1, b'2',
        0x12, 3, 0x12, 1, b'v',
    ];
    let back = HttpRequestResponse::decode(&bytes).unwrap();
    assert_eq!(back.headers, hs(&[("k", "1"), ("k", "2"), ("", "v")]));
    let mut expected = std::collections::BTreeMap::new();
    prost::encoding::btree_map::merge(
        prost::encoding::string::merge,
        prost::encoding::string::merge,
        &mut expected,
        &mut &bytes[1..8],
        prost::encoding::DecodeContext::default(),
    )
    .unwrap();
    assert_eq!(expected.get("k").map(|s| s.as_str()), Some("1"));
}

#[test]
fn http_reply_header_entry_errors() {
    // An entry whose length runs past the end is refused.
    assert!(HttpRequestResponse::decode(&[0x12, 9, 0x0A, 1, b'k']).is_none());
    // An entry whose key is not UTF-8 is refused.
    assert!(HttpRequestResponse::decode(&[0x12, 3, 0x0A, 1, 0xFF]).is_none());
    // An empty entry is an empty key with an empty value.
    let back = HttpRequestResponse::decode(&[0x12, 0]).unwrap();
    assert_eq!(back.headers, hs(&[("", "")]));
}
