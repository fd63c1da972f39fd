use ppanel_sdk::proto::{AsyncResolveResponse, AsyncSubmitResponse, AsyncWaitAnyResponse};
use ppanel_sdk::runtime::sys::{
    async_resolve, async_resolve_reply, async_submit, async_submit_reply, async_wait_any,
    async_wait_any_reply,
};
use ppanel_sdk::runtime::{
    BlockOn, BlockOnAction, BlockOnError, PendingTasks, PollState, MAX_POLL_ITERATIONS,
};
use ppanel_sdk::host::HostImport;
use ppanel_sdk::proto::{AsyncResolveRequest, AsyncSubmitRequest};

fn resolved(done: bool, result: &[u8], error: &str) -> Vec<u8> {
    AsyncResolveResponse { done, result: result.to_vec(), error: error.to_string() }.encode_to_vec()
}

#[test]
fn pending_count_starts_at_zero() {
    assert_eq!(PendingTasks::new().pending_count(), 0);
}

#[test]
fn pending_count_saturates() {
    let mut p = PendingTasks::new();
    p.dec_pending();
    assert_eq!(p.pending_count(), 0);
    p.inc_pending();
    p.inc_pending();
    assert_eq!(p.pending_count(), 2);
    p.dec_pending();
    assert_eq!(p.pending_count(), 1);
}

#[test]
fn submit_call_wraps_the_operation() {
    let call = async_submit("redis_get", &[0x0A, 1, b'k']);
    assert_eq!(call.import, HostImport::AsyncSubmit);
    let expected = AsyncSubmitRequest { op_type: "redis_get".to_string(), params: vec![0x0A, 1, b'k'] };
    assert_eq!(call.request, expected.encode_to_vec());
}

#[test]
fn accepted_submit_counts_a_task() {
    let mut p = PendingTasks::new();
    let id = async_submit_reply(&mut p, &AsyncSubmitResponse { task_id: 9 }.encode_to_vec());
    assert_eq!(id, 9);
    assert_eq!(p.pending_count(), 1);
}

#[test]
fn refused_submit_counts_nothing() {
    let mut p = PendingTasks::new();
    assert_eq!(async_submit_reply(&mut p, &AsyncSubmitResponse { task_id: 0 }.encode_to_vec()), 0);
    assert_eq!(async_submit_reply(&mut p, &[]), 0);
    assert_eq!(p.pending_count(), 0);
}

#[test]
fn submit_then_resolve_restores_the_count() {
    let mut p = PendingTasks::new();
    let id = async_submit_reply(&mut p, &AsyncSubmitResponse { task_id: 3 }.encode_to_vec());
    let call = async_resolve(id);
    assert_eq!(call.import, HostImport::AsyncResolve);
    assert_eq!(call.request, AsyncResolveRequest { task_id: 3 }.encode_to_vec());
    let out = async_resolve_reply(&mut p, id, &resolved(true, b"data", ""));
    assert_eq!(out, Ok(b"data".to_vec()));
    assert_eq!(p.pending_count(), 0);
}

#[test]
fn resolve_reports_host_error() {
    let mut p = PendingTasks::new();
    p.inc_pending();
    assert_eq!(async_resolve_reply(&mut p, 4, &resolved(true, b"x", "task not found")), Err("task not found".to_string()));
    assert_eq!(p.pending_count(), 0);
}

#[test]
fn running_task_is_pending() {
    let mut p = PendingTasks::new();
    p.inc_pending();
    assert_eq!(async_resolve_reply(&mut p, 4, &resolved(false, b"", "")), Err("pending".to_string()));
    assert_eq!(p.pending_count(), 1);
    assert_eq!(async_resolve_reply(&mut p, 4, &[]), Err("pending".to_string()));
    assert_eq!(p.pending_count(), 1);
}

#[test]
fn resolving_a_refused_task_keeps_the_count() {
    let mut p = PendingTasks::new();
    let counted = async_submit_reply(&mut p, &AsyncSubmitResponse { task_id: 8 }.encode_to_vec());
    let refused = async_submit_reply(&mut p, &AsyncSubmitResponse { task_id: 0 }.encode_to_vec());
    assert_eq!((counted, refused), (8, 0));
    assert_eq!(p.pending_count(), 1);
    assert_eq!(
        async_resolve_reply(&mut p, refused, &resolved(true, b"", "task not found")),
        Err("task not found".to_string())
    );
    assert_eq!(p.pending_count(), 1);
    assert_eq!(async_resolve_reply(&mut p, counted, &resolved(true, b"v", "")), Ok(b"v".to_vec()));
    assert_eq!(p.pending_count(), 0);
}

#[test]
fn count_follows_outstanding_tasks() {
    let mut p = PendingTasks::new();
    let a = async_submit_reply(&mut p, &AsyncSubmitResponse { task_id: 1 }.encode_to_vec());
    let b = async_submit_reply(&mut p, &AsyncSubmitResponse { task_id: 2 }.encode_to_vec());
    let c = async_submit_reply(&mut p, &AsyncSubmitResponse { task_id: 3 }.encode_to_vec());
    assert_eq!(p.pending_count(), 3);
    assert_eq!(async_resolve_reply(&mut p, b, &resolved(false, b"", "")), Err("pending".to_string()));
    assert_eq!(p.pending_count(), 3);
    assert_eq!(async_resolve_reply(&mut p, b, &resolved(true, b"", "")), Ok(vec![]));
    assert_eq!(async_resolve_reply(&mut p, a, &resolved(true, b"", "boom")), Err("boom".to_string()));
    assert_eq!(p.pending_count(), 1);
    assert_eq!(async_resolve_reply(&mut p, c, &resolved(true, b"z", "")), Ok(b"z".to_vec()));
    assert_eq!(p.pending_count(), 0);
}

#[test]
fn wait_any_call_and_reply() {
    let call = async_wait_any();
    assert_eq!(call.import, HostImport::AsyncWaitAny);
    assert!(call.request.is_empty());
    assert_eq!(async_wait_any_reply(&AsyncWaitAnyResponse { task_id: 5 }.encode_to_vec()), 5);
    assert_eq!(async_wait_any_reply(&[0x08]), 0);
}

#[test]
fn ready_future_finishes_the_loop() {
    let mut b = BlockOn::new();
    match b.after_poll(PollState::Ready(7u32), 0) {
        BlockOnAction::Finish(Ok(v)) => assert_eq!(v, 7),
        other => panic!("unexpected {:?}", other),
    }
    assert_eq!(b.polls(), 1);
}

#[test]
fn pending_future_without_tasks_stalls() {
    let mut b = BlockOn::new();
    match b.after_poll(PollState::<u32>::Pending, 0) {
        BlockOnAction::Finish(Err(e)) => {
            assert_eq!(e, BlockOnError::Stalled);
            assert_eq!(e.message(), "future stalled: returned Pending with no async tasks submitted");
        },
        other => panic!("unexpected {:?}", other),
    }
}

#[test]
fn pending_future_with_tasks_waits() {
    let mut b = BlockOn::new();
    assert!(matches!(b.after_poll(PollState::<u32>::Pending, 2), BlockOnAction::WaitAny));
    assert_eq!(b.after_wait(), None);
}

#[test]
fn loop_gives_up_after_the_cap() {
    let mut b = BlockOn::new();
    let mut polls = 0u32;
    loop {
        polls += 1;
        assert!(matches!(b.after_poll(PollState::<u32>::Pending, 1), BlockOnAction::WaitAny));
        if let Some(e) = b.after_wait() {
            assert_eq!(e, BlockOnError::Exceeded);
            assert_eq!(e.message(), "future exceeded max poll iterations — probable infinite loop");
            break;
        }
    }
    assert_eq!(polls, MAX_POLL_ITERATIONS);
    assert_eq!(b.polls(), 10000);
}
