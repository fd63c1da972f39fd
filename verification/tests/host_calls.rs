use ppanel_sdk::host::{
    bool_reply, config, db_sync, events, http_sync, log, middleware, queue, redis, route,
    scheduler, HostImport,
};
use ppanel_sdk::proto::{
    BoolResult, ConfigGetResponse, DbQueryRequest, DbQueryResponse, EmitEventRequest,
    HttpRequestRequest, HttpRequestResponse, LogRequest, RedisGetResponse, RegisterRouteRequest,
};

fn s(x: &str) -> String {
    x.to_string()
}

#[test]
fn log_levels() {
    let call = log::info("hello");
    assert_eq!(call.import, HostImport::Log);
    assert_eq!(call.request, vec![0x0A, 4, b'i', b'n', b'f', b'o', 0x12, 5, b'h', b'e', b'l', b'l', b'o']);
    let expected = LogRequest { level: s("warn"), message: s("w"), fields: vec![] }.encode_to_vec();
    assert_eq!(log::warn("w").request, expected);
    let expected = LogRequest { level: s("error"), message: s(""), fields: vec![] }.encode_to_vec();
    assert_eq!(log::error("").request, expected);
}

#[test]
fn route_register_has_no_middleware() {
    let call = route::register("GET", "/hello", "handle_hello");
    assert_eq!(call.import, HostImport::RegisterRoute);
    let expected = RegisterRouteRequest {
        method: s("GET"),
        path: s("/hello"),
        handler: s("handle_hello"),
        middleware: vec![],
    };
    assert_eq!(call.request, expected.encode_to_vec());
}

#[test]
fn route_register_with_middleware_names_it() {
    let call = route::register_with_middleware("GET", "/guarded", "demo_guard", "handle_guarded");
    let expected = RegisterRouteRequest {
        method: s("GET"),
        path: s("/guarded"),
        handler: s("handle_guarded"),
        middleware: vec![s("demo_guard")],
    };
    assert_eq!(call.request, expected.encode_to_vec());
    let tail = [0x22, 10, b'd', b'e', b'm', b'o', b'_', b'g', b'u', b'a', b'r', b'd'];
    assert!(call.request.ends_with(&tail));
}

#[test]
fn repeated_strings_keep_empty_elements() {
    let r = RegisterRouteRequest { method: s(""), path: s(""), handler: s(""), middleware: vec![s(""), s("a")] };
    assert_eq!(r.encode_to_vec(), vec![0x22, 0x00, 0x22, 0x01, b'a']);
}

#[test]
fn bool_reply_reads_success_and_error() {
    assert_eq!(bool_reply(&BoolResult { success: true, error: s("") }.encode_to_vec()), Ok(()));
    assert_eq!(bool_reply(&BoolResult { success: false, error: s("denied") }.encode_to_vec()), Err(s("denied")));
}

#[test]
fn missing_bool_reply_is_an_empty_error() {
    assert_eq!(bool_reply(&[]), Err(s("")));
    assert_eq!(bool_reply(&[0xFF]), Err(s("")));
}

#[test]
fn redis_get_and_reply() {
    let call = redis::get("counter");
    assert_eq!(call.import, HostImport::RedisGet);
    assert_eq!(call.request, vec![0x0A, 7, b'c', b'o', b'u', b'n', b't', b'e', b'r']);
    let found = RedisGetResponse { value: s("7"), exists: true }.encode_to_vec();
    assert_eq!(redis::get_reply(&found), Ok(s("7")));
    let missing = RedisGetResponse { value: s("7"), exists: false }.encode_to_vec();
    assert_eq!(redis::get_reply(&missing), Err(s("not found")));
    assert_eq!(redis::get_reply(&[]), Err(s("not found")));
}

#[test]
fn redis_set_request() {
    let call = redis::set("counter", "1", 3600);
    assert_eq!(call.import, HostImport::RedisSet);
    let mut expected = vec![0x0A, 7, b'c', b'o', b'u', b'n', b't', b'e', b'r', 0x12, 1, b'1'];
    expected.extend_from_slice(&[0x18, 0x90, 0x1C]);
    assert_eq!(call.request, expected);
}

#[test]
fn config_get_and_reply() {
    let call = config::get("Site.SiteName");
    assert_eq!(call.import, HostImport::ConfigGet);
    let found = ConfigGetResponse { value: s("PPanel"), exists: true }.encode_to_vec();
    assert_eq!(config::get_reply(&found), Ok(s("PPanel")));
    assert_eq!(config::get_reply(&[]), Err(s("not found")));
}

#[test]
fn events_emit_and_subscribe() {
    let payload = vec![0x0A, 0x00];
    let call = events::emit("demo.ping", &payload);
    assert_eq!(call.import, HostImport::EmitEvent);
    let expected = EmitEventRequest { event: s("demo.ping"), payload: Some(payload.clone()) };
    assert_eq!(call.request, expected.encode_to_vec());
    let call = events::emit("e", &[]);
    assert_eq!(call.request, vec![0x0A, 1, b'e', 0x12, 0x00]);
    let call = events::subscribe("demo.ping", "on_demo_ping");
    assert_eq!(call.import, HostImport::SubscribeEvent);
}

#[test]
fn http_sync_request_and_reply() {
    let headers = vec![(s("Accept"), s("json")), (s(""), s("v"))];
    let call = http_sync::request("GET", "https://a", headers.clone(), b"x");
    assert_eq!(call.import, HostImport::HttpRequest);
    let expected = HttpRequestRequest { method: s("GET"), url: s("https://a"), headers, body: b"x".to_vec() };
    assert_eq!(call.request, expected.encode_to_vec());
    let reply = HttpRequestResponse { status: 201, headers: vec![], body: b"ok".to_vec() }.encode_to_vec();
    let r = http_sync::request_reply(&reply).unwrap();
    assert_eq!((r.status, r.body), (201, b"ok".to_vec()));
    let r = http_sync::request_reply(&[0x08]).unwrap();
    assert_eq!((r.status, r.body.len()), (0, 0));
}

#[test]
fn map_entries_leave_out_empty_keys_and_values() {
    let r = HttpRequestRequest { method: s(""), url: s(""), headers: vec![(s("k"), s("")), (s(""), s(""))], body: vec![] };
    assert_eq!(r.encode_to_vec(), vec![0x1A, 3, 0x0A, 1, b'k', 0x1A, 0]);
}

#[test]
fn db_sync_query_and_reply() {
    let call = db_sync::query("user", "find");
    assert_eq!(call.import, HostImport::DbQuery);
    assert_eq!(call.request, vec![0x0A, 4, b'u', b's', b'e', b'r', 0x12, 4, b'f', b'i', b'n', b'd']);
    let raw = DbQueryRequest {
        model: s("user"),
        operation: s("find"),
        conditions: Some(vec![0x0A, 0x00]),
        fields: None,
        limit: 10,
        offset: 0,
    };
    let call = db_sync::query_raw(&raw);
    let mut expected = vec![0x0A, 4, b'u', b's', b'e', b'r', 0x12, 4, b'f', b'i', b'n', b'd'];
    expected.extend_from_slice(&[0x1A, 2, 0x0A, 0x00, 0x28, 10]);
    assert_eq!(call.request, expected);
    let reply = DbQueryResponse { rows: vec![], total: 3, error: s("") }.encode_to_vec();
    assert_eq!(db_sync::query_reply(&reply).unwrap().total, 3);
}

#[test]
fn scheduler_middleware_queue_calls() {
    assert_eq!(scheduler::register("n", "* * * * *", "h").import, HostImport::ScheduleTask);
    let call = middleware::register("demo_guard", "mw_demo_guard");
    assert_eq!(call.import, HostImport::RegisterMiddleware);
    assert_eq!(call.request[0..2], [0x0A, 10]);
    let call = queue::enqueue("t", &[]);
    assert_eq!(call.import, HostImport::EnqueueTask);
    assert_eq!(call.request, vec![0x0A, 1, b't', 0x12, 0x00]);
}
