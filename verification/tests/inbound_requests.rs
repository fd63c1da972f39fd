use ppanel_sdk::inbound::{EmitEventRequest, HandleRequest, InitRequest};
use prost::Message;

fn text(tag: u32, v: &str, buf: &mut Vec<u8>) {
    prost::encoding::string::encode(tag, &v.to_string(), buf);
}

fn nested(tag: u32, payload: &[u8], buf: &mut Vec<u8>) {
    prost::encoding::bytes::encode(tag, &payload.to_vec(), buf);
}

fn struct_with(name: &str, value: &str) -> Vec<u8> {
    let mut fields = std::collections::BTreeMap::new();
    fields.insert(
        name.to_string(),
        prost_types::Value { kind: Some(prost_types::value::Kind::StringValue(value.to_string())) },
    );
    prost_types::Struct { fields }.encode_to_vec()
}

fn list_entry(key: &str, values: &[&str]) -> Vec<u8> {
    let mut list = Vec::new();
    for v in values {
        text(1, v, &mut list);
    }
    let mut entry = Vec::new();
    text(1, key, &mut entry);
    nested(2, &list, &mut entry);
    entry
}

fn owned(values: &[&str]) -> Vec<String> {
    values.iter().map(|v| v.to_string()).collect()
}

#[test]
fn emit_event_request_decodes() {
    let payload = struct_with("id", "42");
    let mut buf = Vec::new();
    text(1, "user.created", &mut buf);
    nested(2, &payload, &mut buf);
    let r = EmitEventRequest::decode(&buf).unwrap();
    assert_eq!(r.event, "user.created");
    assert_eq!(r.payload, Some(payload));
    let empty = EmitEventRequest::decode(&[]).unwrap();
    assert_eq!((empty.event.as_str(), empty.payload), ("", None));
}

#[test]
fn repeated_struct_payloads_are_merged() {
    let (a, b) = (struct_with("a", "1"), struct_with("b", "2"));
    let mut buf = Vec::new();
    nested(2, &a, &mut buf);
    nested(2, &b, &mut buf);
    let r = EmitEventRequest::decode(&buf).unwrap();
    let joined = r.payload.unwrap();
    assert_eq!(joined, [a, b].concat());
    let merged = prost_types::Struct::decode(joined.as_slice()).unwrap();
    assert_eq!(merged.fields.len(), 2);
}

#[test]
fn malformed_struct_payload_is_refused() {
    let mut buf = Vec::new();
    nested(2, &[0x0A, 0x05, 0x0A], &mut buf);
    assert!(EmitEventRequest::decode(&buf).is_none());
    assert!(InitRequest::decode(&[0x12, 0x03, 0x0A, 0x05, 0x0A]).is_none());
}

#[test]
fn init_request_decodes() {
    let mut host = Vec::new();
    text(1, "PPanel", &mut host);
    let config = struct_with("api_key", "k");
    let mut buf = Vec::new();
    nested(1, &host, &mut buf);
    nested(2, &config, &mut buf);
    let r = InitRequest::decode(&buf).unwrap();
    assert_eq!(r.host_config.unwrap().site_name, "PPanel");
    assert_eq!(r.config, Some(config));
}

#[test]
fn nested_message_occurrences_merge() {
    let mut host = Vec::new();
    text(1, "First", &mut host);
    let mut buf = Vec::new();
    nested(1, &host, &mut buf);
    nested(1, &[], &mut buf);
    let r = InitRequest::decode(&buf).unwrap();
    assert_eq!(r.host_config.unwrap().site_name, "First");
    let mut second = Vec::new();
    text(1, "Second", &mut second);
    nested(1, &second, &mut buf);
    assert_eq!(InitRequest::decode(&buf).unwrap().host_config.unwrap().site_name, "Second");
}

#[test]
fn nested_message_needs_its_wire_type() {
    // `host_config` sent as a varint.
    assert!(InitRequest::decode(&[0x08, 0x01]).is_none());
    // A `site_name` that is not UTF-8.
    assert!(InitRequest::decode(&[0x0A, 0x03, 0x0A, 0x01, 0xFF]).is_none());
}

#[test]
fn handle_request_decodes() {
    let mut ctx = Vec::new();
    prost::encoding::int64::encode(1, &7i64, &mut ctx);
    prost::encoding::bool::encode(2, &true, &mut ctx);
    text(3, "10.0.0.1", &mut ctx);
    let mut buf = Vec::new();
    text(1, "POST", &mut buf);
    text(2, "/api/items", &mut buf);
    nested(3, &list_entry("page", &["1", "2"]), &mut buf);
    nested(4, &list_entry("accept", &["json"]), &mut buf);
    nested(5, b"{}", &mut buf);
    nested(6, &ctx, &mut buf);
    let r = HandleRequest::decode(&buf).unwrap();
    assert_eq!((r.method.as_str(), r.path.as_str()), ("POST", "/api/items"));
    assert_eq!(r.query, vec![("page".to_string(), owned(&["1", "2"]))]);
    assert_eq!(r.headers, vec![("accept".to_string(), owned(&["json"]))]);
    assert_eq!(r.body, b"{}".to_vec());
    let c = r.context.unwrap();
    assert_eq!((c.user_id, c.is_admin, c.client_ip.as_str()), (7, true, "10.0.0.1"));
}

#[test]
fn handle_request_skips_unknown_fields_at_every_level() {
    let mut ctx = Vec::new();
    prost::encoding::int64::encode(1, &-3i64, &mut ctx);
    // An unknown group, tag 9, inside the context.
    ctx.extend_from_slice(&[0x4B, 0x08, 0x01, 0x4C]);
    let mut entry = list_entry("k", &["v"]);
    // An unknown varint, tag 7, inside the entry.
    entry.extend_from_slice(&[0x38, 0x05]);
    let mut buf = Vec::new();
    nested(6, &ctx, &mut buf);
    nested(3, &entry, &mut buf);
    // An unknown fixed32, tag 15, at the top.
    buf.extend_from_slice(&[0x7D, 1, 2, 3, 4]);
    let r = HandleRequest::decode(&buf).unwrap();
    assert_eq!(r.context.unwrap().user_id, -3);
    assert_eq!(r.query, vec![("k".to_string(), owned(&["v"]))]);
}

#[test]
fn map_entries_keep_wire_order() {
    let mut buf = Vec::new();
    nested(4, &list_entry("x", &["1"]), &mut buf);
    nested(4, &list_entry("x", &["2"]), &mut buf);
    nested(4, &[], &mut buf);
    let r = HandleRequest::decode(&buf).unwrap();
    assert_eq!(
        r.headers,
        vec![
            ("x".to_string(), owned(&["1"])),
            ("x".to_string(), owned(&["2"])),
            (String::new(), vec![]),
        ]
    );
}

#[test]
fn map_entry_values_merge() {
    let mut list_a = Vec::new();
    text(1, "a", &mut list_a);
    let mut list_b = Vec::new();
    text(1, "b", &mut list_b);
    let mut entry = Vec::new();
    text(1, "k", &mut entry);
    nested(2, &list_a, &mut entry);
    nested(2, &list_b, &mut entry);
    let mut buf = Vec::new();
    nested(3, &entry, &mut buf);
    let r = HandleRequest::decode(&buf).unwrap();
    assert_eq!(r.query, vec![("k".to_string(), owned(&["a", "b"]))]);
}

#[test]
fn handle_request_errors() {
    // An entry that runs past the end.
    assert!(HandleRequest::decode(&[0x1A, 0x09, 0x0A, 0x01, b'k']).is_none());
    // A context sent as a varint.
    assert!(HandleRequest::decode(&[0x30, 0x01]).is_none());
    // A context whose `is_admin` is a string.
    assert!(HandleRequest::decode(&[0x32, 0x03, 0x12, 0x01, b'x']).is_none());
    // A list value sent as a varint.
    assert!(HandleRequest::decode(&[0x1A, 0x02, 0x10, 0x01]).is_none());
    // A truncated key.
    assert!(HandleRequest::decode(&[0x80]).is_none());
}
