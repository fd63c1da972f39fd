use ppanel_sdk::host::db_async::{self, DbFuture};
use ppanel_sdk::host::http::{self, HttpFuture};
use ppanel_sdk::host::redis_async::{self, RedisFuture, RedisSetFuture};
use ppanel_sdk::host::HostImport;
use ppanel_sdk::proto::{
    AsyncResolveRequest, AsyncSubmitRequest, BoolResult, DbQueryRequest, DbQueryResponse,
    HttpRequestRequest, HttpRequestResponse, RedisGetRequest, RedisGetResponse, RedisSetRequest,
};
use ppanel_sdk::runtime::PollState;

fn submitted(op: &str, params: Vec<u8>) -> Vec<u8> {
    AsyncSubmitRequest { op_type: op.to_string(), params }.encode_to_vec()
}

#[test]
fn http_get_and_post_submit_requests() {
    let call = http::get("https://x");
    assert_eq!(call.import, HostImport::AsyncSubmit);
    let inner = HttpRequestRequest { method: "GET".into(), url: "https://x".into(), headers: vec![], body: vec![] };
    assert_eq!(call.request, submitted("http_get", inner.encode_to_vec()));
    let call = http::post("https://x", b"b");
    let inner = HttpRequestRequest { method: "POST".into(), url: "https://x".into(), headers: vec![], body: b"b".to_vec() };
    assert_eq!(call.request, submitted("http_post", inner.encode_to_vec()));
}

#[test]
fn http_future_ready_with_response() {
    let mut f = HttpFuture::new(4);
    assert_eq!(f.id(), 4);
    assert_eq!(f.resolve_call().request, AsyncResolveRequest { task_id: 4 }.encode_to_vec());
    let data = HttpRequestResponse { status: 200, headers: vec![], body: b"{}".to_vec() }.encode_to_vec();
    match f.poll(Ok(data)) {
        PollState::Ready(Ok(r)) => assert_eq!((r.status, r.body), (200, b"{}".to_vec())),
        other => panic!("unexpected {:?}", other),
    }
    assert!(f.is_done());
}

#[test]
fn http_status_is_truncated_to_16_bits() {
    let mut f = HttpFuture::new(1);
    let data = HttpRequestResponse { status: 65537, headers: vec![], body: vec![] }.encode_to_vec();
    match f.poll(Ok(data)) {
        PollState::Ready(Ok(r)) => assert_eq!(r.status, 1),
        other => panic!("unexpected {:?}", other),
    }
}

#[test]
fn http_future_pending_then_error() {
    let mut f = HttpFuture::new(1);
    assert!(matches!(f.poll(Err("pending".to_string())), PollState::Pending));
    assert!(!f.is_done());
    match f.poll(Err("task not found".to_string())) {
        PollState::Ready(Err(e)) => assert_eq!(e, "task not found"),
        other => panic!("unexpected {:?}", other),
    }
    assert!(f.is_done());
}

#[test]
fn redis_async_submits() {
    let call = redis_async::get("k");
    assert_eq!(call.request, submitted("redis_get", RedisGetRequest { key: "k".into() }.encode_to_vec()));
    let call = redis_async::set("k", "v", 60);
    let inner = RedisSetRequest { key: "k".into(), value: "v".into(), ttl_seconds: 60 };
    assert_eq!(call.request, submitted("redis_set", inner.encode_to_vec()));
}

#[test]
fn redis_future_reads_value_or_not_found() {
    let mut f = RedisFuture::new(2);
    let data = RedisGetResponse { value: "hello from async".into(), exists: true }.encode_to_vec();
    match f.poll(Ok(data)) {
        PollState::Ready(Ok(v)) => assert_eq!(v, "hello from async"),
        other => panic!("unexpected {:?}", other),
    }
    let mut f = RedisFuture::new(2);
    match f.poll(Ok(vec![])) {
        PollState::Ready(Err(e)) => assert_eq!(e, "not found"),
        other => panic!("unexpected {:?}", other),
    }
    assert!(f.is_done());
}

#[test]
fn redis_set_future_reads_bool_result() {
    let mut f = RedisSetFuture::new(3);
    let ok = BoolResult { success: true, error: String::new() }.encode_to_vec();
    assert!(matches!(f.poll(Ok(ok)), PollState::Ready(Ok(()))));
    let mut f = RedisSetFuture::new(3);
    let bad = BoolResult { success: false, error: "permission denied".into() }.encode_to_vec();
    match f.poll(Ok(bad)) {
        PollState::Ready(Err(e)) => assert_eq!(e, "permission denied"),
        other => panic!("unexpected {:?}", other),
    }
    let mut f = RedisSetFuture::new(3);
    assert!(matches!(f.poll(Err("pending".into())), PollState::Pending));
}

#[test]
fn db_async_submits_query() {
    let call = db_async::query("user", "find");
    let inner = DbQueryRequest {
        model: "user".into(),
        operation: "find".into(),
        conditions: None,
        fields: None,
        limit: 0,
        offset: 0,
    };
    assert_eq!(call.request, submitted("db_query", inner.encode_to_vec()));
}

#[test]
fn db_future_error_or_rows() {
    let mut f = DbFuture::new(8);
    let bad = DbQueryResponse { rows: vec![], total: 0, error: "no such model".into() }.encode_to_vec();
    match f.poll(Ok(bad)) {
        PollState::Ready(Err(e)) => assert_eq!(e, "no such model"),
        other => panic!("unexpected {:?}", other),
    }
    assert!(f.is_done());
    let mut f = DbFuture::new(8);
    let good = DbQueryResponse { rows: vec![vec![]], total: 1, error: String::new() }.encode_to_vec();
    match f.poll(Ok(good)) {
        PollState::Ready(Ok(rows)) => assert_eq!(rows, vec![Vec::<u8>::new()]),
        other => panic!("unexpected {:?}", other),
    }
}

#[test]
fn db_future_stays_pending_until_resolved() {
    let mut f = DbFuture::new(12);
    assert_eq!(f.id(), 12);
    for _ in 0..3 {
        assert_eq!(f.resolve_call().request, AsyncResolveRequest { task_id: 12 }.encode_to_vec());
        assert!(matches!(f.poll(Err("pending".to_string())), PollState::Pending));
        assert!(!f.is_done());
        assert_eq!(f.id(), 12);
    }
    match f.poll(Err("db down".to_string())) {
        PollState::Ready(Err(e)) => assert_eq!(e, "db down"),
        other => panic!("unexpected {:?}", other),
    }
    assert!(f.is_done());
}

#[test]
fn redis_futures_give_their_task_id() {
    assert_eq!(RedisFuture::new(5).id(), 5);
    assert_eq!(RedisSetFuture::new(6).id(), 6);
}
