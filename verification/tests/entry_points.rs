use ppanel_sdk::entry::{
    default_export, ensure_no_attr, failure_reply, handler_error_response, init_reply,
    middleware_error_response, parse_export_attr, AttrPair, AttrValue, ExportAttr, NamedEntry,
};

fn pair(key: Option<&str>, value: AttrValue) -> AttrPair {
    AttrPair { key: key.map(|k| k.to_string()), value }
}

fn string(v: &str) -> AttrValue {
    AttrValue::Str(v.to_string())
}

#[test]
fn default_export_names() {
    assert_eq!(default_export(NamedEntry::Handler, "hello"), "handle_hello");
    assert_eq!(default_export(NamedEntry::EventHandler, "demo_ping"), "on_demo_ping");
    assert_eq!(default_export(NamedEntry::Middleware, "demo_guard"), "mw_demo_guard");
}

#[test]
fn entry_points_without_attributes() {
    assert_eq!(ensure_no_attr(true, "init"), Ok(()));
    assert_eq!(ensure_no_attr(false, "start"), Err("#[ppanel_sdk::start] does not accept attributes".to_string()));
}

#[test]
fn no_attribute_keeps_the_default() {
    assert_eq!(parse_export_attr(&ExportAttr::Empty, "handle_hello".into(), "handler"), Ok("handle_hello".to_string()));
    assert_eq!(parse_export_attr(&ExportAttr::Pairs(vec![]), "d".into(), "handler"), Ok("d".to_string()));
}

#[test]
fn export_attribute_names_the_export() {
    let attr = ExportAttr::Pairs(vec![pair(Some("export"), string("handle_hello"))]);
    assert_eq!(parse_export_attr(&attr, "handle_hi".into(), "handler"), Ok("handle_hello".to_string()));
    let attr = ExportAttr::Pairs(vec![pair(Some("export"), string("a")), pair(Some("export"), string("b"))]);
    assert_eq!(parse_export_attr(&attr, "d".into(), "handler"), Ok("b".to_string()));
}

#[test]
fn attribute_errors() {
    let attr = ExportAttr::Unparsable("expected `=`".into());
    assert_eq!(
        parse_export_attr(&attr, "d".into(), "middleware"),
        Err("invalid #[ppanel_sdk::middleware] attribute: expected `=`".to_string())
    );
    let attr = ExportAttr::Pairs(vec![pair(None, string("x"))]);
    assert_eq!(parse_export_attr(&attr, "d".into(), "handler"), Err("attribute key must be an identifier".to_string()));
    let attr = ExportAttr::Pairs(vec![pair(Some("name"), string("x"))]);
    assert_eq!(
        parse_export_attr(&attr, "d".into(), "event_handler"),
        Err("unsupported #[ppanel_sdk::event_handler(name = ...)] attribute; use export = \"wasm_export_name\"".to_string())
    );
    let attr = ExportAttr::Pairs(vec![pair(Some("export"), AttrValue::OtherLiteral)]);
    assert_eq!(parse_export_attr(&attr, "d".into(), "handler"), Err("export must be a string literal".to_string()));
    let attr = ExportAttr::Pairs(vec![pair(Some("export"), AttrValue::NotLiteral)]);
    assert_eq!(parse_export_attr(&attr, "d".into(), "handler"), Err("export must be a string literal".to_string()));
    let attr = ExportAttr::Pairs(vec![pair(Some("export"), string("ok")), pair(None, string("x"))]);
    assert_eq!(parse_export_attr(&attr, "d".into(), "handler"), Err("attribute key must be an identifier".to_string()));
}

#[test]
fn failure_responses() {
    let r = handler_error_response("block_on: boom");
    assert_eq!(r.status, 500);
    assert!(r.headers.is_empty());
    assert_eq!(r.body, br#"{"error":"block_on: boom"}"#.to_vec());
    let r = middleware_error_response("decode request: bad");
    assert_eq!((r.action.as_str(), r.status), ("abort", 500));
    assert_eq!(r.body, br#"{"error":"decode request: bad"}"#.to_vec());
    let r = failure_reply("decode event: bad");
    assert!(!r.success);
    assert_eq!(r.error, "decode event: bad");
}

#[test]
fn init_outcomes() {
    let r = init_reply(Ok(()));
    assert!(r.success && r.error.is_empty());
    let r = init_reply(Err("no config".into()));
    assert!(!r.success);
    assert_eq!(r.error, "no config");
}
