//! The server's state and its answers.

use dsync::barrier::{cmd_barrier, Outcome, TIMEOUT_EXIT_CODE};
use dsync::client::{connect_error, parse_failure, request, ConnectFailure};
use dsync::protocol::{
    default_replica, BarrierResponse, PendingStatus, Request, RequestOp, Response, RpcResult,
    StatusResponse, SyncedStatus, SyncingStatus, Timeout, DEFAULT_REPLICA, VERSION,
};
use dsync::server::{
    barrier_failure, barrier_timed_out, clock_failure, coverage_after_query, handle_request,
    is_blank, lock_held_message, lock_path, pending_files, socket_path, wait_for_coverage,
    Barrier, BarrierEvent, BarrierStep, Coverage, RequestStep, StatusStep,
};
use dsync::state::{ReplicaState, ServerState, SyncedClock, SyncingClock};
use dsync::status::render_status;
use dsync::target::Target;
use dsync::wquery::{ChangedFile, SinceResult};
use watchman_client::prelude::{Clock, ClockSpec};

fn clock() -> Clock {
    Clock::Spec(ClockSpec::default())
}

fn replica() -> Target {
    Target::Local(b"/tmp/replica".to_vec())
}

fn synced(seq: u64, at: u64) -> SyncedClock<u64> {
    SyncedClock { seq, clock: clock(), completed_at: at }
}

/// A server whose replica last synced the given sequence number.
fn server(seq: Option<u64>) -> ServerState<u64> {
    let mut state = ServerState::new(4242, 1000);
    state.add_replica(DEFAULT_REPLICA, replica());
    if let Some(seq) = seq {
        state.record_synced(DEFAULT_REPLICA, synced(seq, 1100));
    }
    state
}

#[test]
fn seq_is_monotonic() {
    let mut state: ServerState<u64> = ServerState::new(1, 0);
    let a = state.next_seq();
    let b = state.next_seq();
    assert!(b > a);
    assert_eq!((a, b), (1, 2));
}

#[test]
fn replica_registration_and_updates() {
    let mut state: ServerState<u64> = ServerState::new(1, 0);
    assert!(state.replica_names().is_empty());
    assert!(state.replica("default").is_none());
    assert!(state.with_replica("default", |r| (r, ())).is_none());

    state.add_replica("default", replica());
    assert_eq!(state.replica_names(), vec!["default".to_string()]);

    state.with_replica("default", |mut r| {
        r.syncing = Some(SyncingClock { seq: 3, started_at: 7 });
        (r, ())
    });
    let snap = state.replica("default").unwrap();
    assert_eq!(snap.syncing.unwrap().seq, 3);
    assert!(snap.synced.is_none());
}

#[test]
fn record_synced_updates_state_and_wakes_subscribers() {
    let mut state: ServerState<u64> = ServerState::new(1, 0);
    state.add_replica("default", replica());
    state.with_replica("default", |mut r| {
        r.syncing = Some(SyncingClock { seq: 4, started_at: 7 });
        (r, ())
    });

    let seen = state.subscribe_synced();
    assert!(!state.synced_since(seen));

    state.record_synced("default", synced(4, 8));

    let snap = state.replica("default").unwrap();
    assert_eq!(snap.synced.unwrap().seq, 4);
    assert!(snap.syncing.is_none(), "syncing marker should be cleared");
    assert!(
        state.synced_since(seen),
        "subscribers should be woken by record_synced"
    );
}

#[test]
fn replicas_are_listed_in_order() {
    let mut state: ServerState<u64> = ServerState::new(1, 0);
    for name in ["m", "z", "a", "é", "ab"] {
        state.add_replica(name, replica());
    }
    assert_eq!(state.replica_names(), ["a", "ab", "m", "z", "é"]);
    assert!(state.set_syncing("m", Some(SyncingClock { seq: 1, started_at: 2 })));
    assert!(!state.set_syncing("nope", None));
    assert!(state.replica("m").unwrap().syncing.is_some());
    assert!(state.replica("z").unwrap().syncing.is_none());
    let kept = state.with_replica("z", |r| (r, 5)).unwrap();
    assert_eq!(kept, 5);
    // A copy holds the same clock.
    state.record_synced("z", synced(9, 1));
    let copy: ReplicaState<u64> = state.replica("z").unwrap();
    let text = serde_json::to_string(&copy.synced.unwrap().clock).unwrap();
    assert_eq!(text, "\"c:0:0\"");
}

fn base(
    synced: Option<SyncedStatus<u64>>,
    pending: Option<PendingStatus>,
) -> StatusResponse<u64> {
    StatusResponse {
        replica: "default".into(),
        pid: 4242,
        server_started_at: 1000,
        target: "host:/srv/replica".into(),
        synced,
        syncing: None,
        pending,
    }
}

#[test]
fn renders_up_to_date() {
    let status = base(
        Some(SyncedStatus { seq: 5, completed_at: 1100 }),
        Some(PendingStatus { files: 0, fresh_instance: false }),
    );
    assert_eq!(
        render_status(&status, "2.5s"),
        "default: pid 4242 -> host:/srv/replica: up-to-date (synced 2.5s ago)"
    );
}

#[test]
fn renders_pending_and_syncing() {
    let mut status = base(
        Some(SyncedStatus { seq: 5, completed_at: 1100 }),
        Some(PendingStatus { files: 3, fresh_instance: false }),
    );
    status.syncing = Some(SyncingStatus { seq: 6, started_at: 1101 });
    assert_eq!(
        render_status(&status, "1.0s"),
        "default: pid 4242 -> host:/srv/replica: 3 files pending (last sync 1.0s ago), sync in progress"
    );
}

#[test]
fn renders_initial_sync() {
    let status = base(None, None);
    assert_eq!(
        render_status(&status, ""),
        "default: pid 4242 -> host:/srv/replica: initial sync not yet complete"
    );
}

#[test]
fn renders_fresh_instance() {
    let status = base(
        Some(SyncedStatus { seq: 5, completed_at: 1100 }),
        Some(PendingStatus { files: 1, fresh_instance: true }),
    );
    let line = render_status(&status, "1.0s");
    assert!(line.contains("1 file pending"), "got: {line}");
    assert!(line.contains("watchman restarted"), "got: {line}");
}

#[test]
fn renders_without_a_pending_count() {
    let status = base(Some(SyncedStatus { seq: 5, completed_at: 1100 }), None);
    assert_eq!(
        render_status(&status, "3m"),
        "default: pid 4242 -> host:/srv/replica: synced 3m ago"
    );
}

fn ask(op: RequestOp, state: &ServerState<u64>) -> RequestStep<u64> {
    handle_request(&Request::new(op), state)
}

fn status_of(replica: &str) -> RequestOp {
    RequestOp::Status { replica: replica.to_string() }
}

#[test]
fn requests_of_another_version_are_refused() {
    let req = Request { version: 7, op: RequestOp::List };
    match handle_request(&req, &server(None)) {
        RequestStep::Refuse(text) => assert_eq!(
            text,
            "unsupported protocol version 7 (this server speaks 1)"
        ),
        other => panic!("unexpected {other:?}"),
    }
    assert_eq!(Request::new(RequestOp::List).version, VERSION);
}

#[test]
fn list_requests_name_the_replicas() {
    match ask(RequestOp::List, &server(None)) {
        RequestStep::List(list) => assert_eq!(list.replicas, ["default"]),
        other => panic!("unexpected {other:?}"),
    }
    assert_eq!(default_replica(None), "default");
    assert_eq!(default_replica(Some("x".to_string())), "x");
}

#[test]
fn status_requests() {
    match ask(status_of("no\"pe"), &server(None)) {
        RequestStep::Status(StatusStep::Reply(RpcResult::Error(text))) => {
            assert_eq!(text, "unknown replica \"no\\\"pe\"")
        }
        other => panic!("unexpected {other:?}"),
    }
    // No sync has completed: there is nothing to query against.
    match ask(status_of("default"), &server(None)) {
        RequestStep::Status(StatusStep::Reply(RpcResult::Okay(status))) => {
            assert_eq!(status.replica, "default");
            assert_eq!(status.pid, 4242);
            assert_eq!(status.server_started_at, 1000);
            assert_eq!(status.target, "/tmp/replica");
            assert!(status.synced.is_none() && status.syncing.is_none());
            assert_eq!(status.pending, None);
        }
        other => panic!("unexpected {other:?}"),
    }
    let mut state = server(Some(5));
    state.set_syncing("default", Some(SyncingClock { seq: 6, started_at: 1200 }));
    let query = match ask(status_of("default"), &state) {
        RequestStep::Status(StatusStep::AskPending(query)) => query,
        other => panic!("unexpected {other:?}"),
    };
    let pending = PendingStatus { files: 2, fresh_instance: true };
    match query.reply(Ok(pending)) {
        RpcResult::Okay(status) => {
            let s = status.synced.unwrap();
            assert_eq!((s.seq, s.completed_at), (5, 1100));
            let s = status.syncing.unwrap();
            assert_eq!((s.seq, s.started_at), (6, 1200));
            assert_eq!(status.pending, Some(pending));
        }
        other => panic!("unexpected {other:?}"),
    }
    match query.reply(Err("gone".to_string())) {
        RpcResult::Error(text) => assert_eq!(
            text,
            "watchman since-query for replica \"default\" failed: gone"
        ),
        other => panic!("unexpected {other:?}"),
    }
}

#[test]
fn pending_files_are_counted() {
    let file = ChangedFile { name: b"x".to_vec(), exists: true, file_type: None };
    let result = SinceResult::new(true, Some(vec![file.clone(), file]));
    assert_eq!(
        pending_files(&result),
        PendingStatus { files: 2, fresh_instance: true }
    );
    assert_eq!(
        pending_files(&SinceResult::new(false, None)),
        PendingStatus { files: 0, fresh_instance: false }
    );
}

fn barrier(replica: &str, timeout: Option<Timeout>) -> RequestOp {
    RequestOp::Barrier { replica: replica.to_string(), timeout }
}

#[test]
fn barrier_requests() {
    let state = server(None);
    match ask(barrier("nope", None), &state) {
        RequestStep::Refuse(text) => assert_eq!(text, "unknown replica \"nope\""),
        other => panic!("unexpected {other:?}"),
    }
    let bad = Timeout { text: "-1".to_string(), nanos: None };
    match ask(barrier("default", Some(bad)), &state) {
        RequestStep::Refuse(text) => assert_eq!(
            text,
            "invalid barrier timeout -1: must be a non-negative number of seconds"
        ),
        other => panic!("unexpected {other:?}"),
    }
    let good = Timeout { text: "2".to_string(), nanos: Some(2_000_000_000) };
    match ask(barrier("default", Some(good)), &state) {
        RequestStep::Barrier(b) => assert_eq!(
            b,
            Barrier {
                replica: "default".to_string(),
                timeout: Some(2_000_000_000),
                target_seq: None,
            }
        ),
        other => panic!("unexpected {other:?}"),
    }
    match ask(barrier("default", None), &state) {
        RequestStep::Barrier(b) => assert_eq!(b.timeout, None),
        other => panic!("unexpected {other:?}"),
    }
    assert_eq!(
        clock_failure("default", "oops"),
        "watchman clock read for replica \"default\" failed: oops"
    );
}

#[test]
fn barriers_park_until_covered() {
    // Nothing synced yet.
    assert!(matches!(
        wait_for_coverage("default", 3, &server(None)),
        Coverage::Park
    ));
    // Synced, but not far enough: a query decides.
    let snapshot = match wait_for_coverage("default", 3, &server(Some(2))) {
        Coverage::AskPending(snapshot) => snapshot,
        other => panic!("unexpected {other:?}"),
    };
    let some = PendingStatus { files: 1, fresh_instance: false };
    assert!(matches!(
        coverage_after_query("default", 3, &snapshot, Ok(some)),
        Coverage::Park
    ));
    let none = PendingStatus { files: 0, fresh_instance: false };
    match coverage_after_query("default", 3, &snapshot, Ok(none)) {
        Coverage::Covered(response) => {
            assert_eq!(response.replica, "default");
            assert_eq!(response.target_seq, 3);
            assert_eq!(response.pending, Some(none));
            assert!(response.is_covered());
            assert_eq!(cmd_barrier(&response), (Outcome::Synced, None));
        }
        other => panic!("unexpected {other:?}"),
    }
    match coverage_after_query("default", 3, &snapshot, Err("x".to_string())) {
        Coverage::Failed(text) => assert_eq!(
            text,
            "barrier for replica \"default\" failed: watchman since-query failed: x"
        ),
        other => panic!("unexpected {other:?}"),
    }
    // Synced far enough, however many changes keep coming.
    match wait_for_coverage("default", 3, &server(Some(3))) {
        Coverage::Covered(response) => {
            assert_eq!(response.pending, None);
            assert!(response.is_covered());
        }
        other => panic!("unexpected {other:?}"),
    }
    match wait_for_coverage("gone", 3, &server(Some(3))) {
        Coverage::Failed(text) => {
            assert_eq!(text, "barrier for replica \"gone\" failed: replica disappeared")
        }
        other => panic!("unexpected {other:?}"),
    }
    assert_eq!(
        barrier_failure("default", "the sync runner is gone"),
        "barrier for replica \"default\" failed: the sync runner is gone"
    );
}

fn parked() -> Barrier {
    Barrier { replica: "default".to_string(), timeout: None, target_seq: None }
}

fn error_of(step: BarrierStep<u64>) -> String {
    match step {
        BarrierStep::Reply(RpcResult::Error(text)) => text,
        other => panic!("unexpected {other:?}"),
    }
}

#[test]
fn a_barrier_from_its_clock_to_its_release() {
    let mut b = parked();
    let mut state = server(Some(2));
    assert!(matches!(
        b.step(BarrierEvent::ClockRead(Ok(())), &state),
        BarrierStep::AssignSeq
    ));
    // Synced, but not far enough.
    let snapshot = match b.step(BarrierEvent::SeqAssigned(Ok(4)), &state) {
        BarrierStep::AskPending(snapshot) => snapshot,
        other => panic!("unexpected {other:?}"),
    };
    assert_eq!(b.target_seq, Some(4));
    let pending = Ok(PendingStatus { files: 1, fresh_instance: false });
    assert!(matches!(
        b.step(BarrierEvent::QueryAnswered { snapshot, pending }, &state),
        BarrierStep::Park
    ));
    // A sync of an earlier event is not enough, one of a later event is.
    state.record_synced("default", synced(3, 1101));
    assert!(matches!(
        b.step(BarrierEvent::SyncCompleted, &state),
        BarrierStep::AskPending(_)
    ));
    state.record_synced("default", synced(5, 1102));
    match b.step(BarrierEvent::SyncCompleted, &state) {
        BarrierStep::Reply(RpcResult::Okay(response)) => {
            assert!(response.is_covered());
            assert_eq!(response.target_seq, 4);
            assert_eq!(response.synced.unwrap().completed_at, 1102);
        }
        other => panic!("unexpected {other:?}"),
    }
}

#[test]
fn barriers_that_fail_or_time_out() {
    let state = server(None);
    let failed = BarrierEvent::ClockRead(Err("oops".to_string()));
    assert_eq!(
        error_of(parked().step(failed, &state)),
        "watchman clock read for replica \"default\" failed: oops"
    );
    let failed = BarrierEvent::SeqAssigned(Err("gone".to_string()));
    assert_eq!(error_of(parked().step(failed, &state)), "gone");
    let mut b = parked();
    assert!(matches!(
        b.step(BarrierEvent::SeqAssigned(Ok(9)), &state),
        BarrierStep::Park
    ));
    match b.step(BarrierEvent::TimedOut, &state) {
        BarrierStep::Reply(RpcResult::Okay(response)) => assert!(!response.is_covered()),
        other => panic!("unexpected {other:?}"),
    }
    assert_eq!(
        error_of(b.step(BarrierEvent::RunnerGone("channel closed".to_string()), &state)),
        "barrier for replica \"default\" failed: the sync runner is gone: channel closed"
    );
    let empty: ServerState<u64> = ServerState::new(1, 0);
    assert_eq!(
        error_of(b.step(BarrierEvent::SyncCompleted, &empty)),
        "barrier for replica \"default\" failed: replica disappeared"
    );
}

#[test]
fn timed_out_barriers_report_the_current_state() {
    assert_eq!(TIMEOUT_EXIT_CODE, 3);
    let response = match barrier_timed_out("default", 9, &server(Some(2))) {
        RpcResult::Okay(response) => response,
        other => panic!("unexpected {other:?}"),
    };
    let (outcome, text) = cmd_barrier(&response);
    assert_eq!(outcome, Outcome::TimedOut);
    assert_eq!(
        text.unwrap(),
        "timed out waiting for sync: last completed sync covers seq 2, but this barrier needs seq 9"
    );
    let response = match barrier_timed_out("default", 9, &server(None)) {
        RpcResult::Okay(response) => response,
        other => panic!("unexpected {other:?}"),
    };
    assert_eq!(
        cmd_barrier(&response).1.unwrap(),
        "timed out waiting for sync: no sync has completed yet (this barrier needs seq 9)"
    );
    match barrier_timed_out("gone", 9, &server(None)) {
        RpcResult::Error(text) => {
            assert_eq!(text, "barrier for replica \"gone\" failed: replica disappeared")
        }
        other => panic!("unexpected {other:?}"),
    }
}

#[test]
fn coverage_as_the_client_sees_it() {
    let response = |seq: Option<u64>, files: Option<u64>| BarrierResponse {
        replica: "default".to_string(),
        target_seq: 5,
        synced: seq.map(|seq| SyncedStatus { seq, completed_at: 0u64 }),
        pending: files.map(|files| PendingStatus { files, fresh_instance: false }),
    };
    assert!(response(Some(5), None).is_covered());
    assert!(response(Some(6), Some(3)).is_covered());
    assert!(response(Some(4), Some(0)).is_covered());
    assert!(!response(Some(4), Some(1)).is_covered());
    assert!(!response(Some(4), None).is_covered());
    assert!(!response(None, Some(0)).is_covered());
}

#[test]
fn replies_as_the_client_takes_them() {
    let okay = Response::new(RpcResult::Okay(7u32));
    assert_eq!(request(Some(okay)), Ok(7));
    let err: Response<u32> = Response::new(RpcResult::Error("nope".to_string()));
    assert_eq!(request(Some(err)), Err("ds sync reported an error: nope".to_string()));
    let other = Response { version: 2, result: RpcResult::Okay(7u32) };
    assert_eq!(
        request(Some(other)),
        Err("server speaks protocol version 2 but we speak 1".to_string())
    );
    assert_eq!(
        request::<u32>(None),
        Err("ds sync closed the connection without responding".to_string())
    );
    assert_eq!(parse_failure("{junk \n"), "cannot parse server response: {junk");
}

#[test]
fn the_control_directory() {
    assert_eq!(socket_path(b"/repo"), b"/repo/.dsync/dsync.sock");
    assert_eq!(lock_path(b"/repo"), b"/repo/.dsync/lock");
    assert_eq!(
        lock_held_message(&lock_path(b"/repo")),
        "ds sync is already running in this repository (lock /repo/.dsync/lock is held)"
    );
    let path = socket_path(b"/repo");
    assert_eq!(
        connect_error(&path, ConnectFailure::NotFound, "x"),
        "no ds sync is running in this repository (cannot connect to /repo/.dsync/dsync.sock)"
    );
    assert_eq!(
        connect_error(&path, ConnectFailure::ConnectionRefused, "x"),
        "no ds sync is running in this repository (cannot connect to /repo/.dsync/dsync.sock)"
    );
    assert_eq!(
        connect_error(&path, ConnectFailure::Other, "x"),
        "cannot connect to /repo/.dsync/dsync.sock: x"
    );
}

#[test]
fn lines_on_a_connection() {
    assert!(is_blank(" \t\u{3000}"));
    assert!(is_blank(""));
    assert!(!is_blank(" x "));
    assert_eq!(
        dsync::server::parse_failure("bad"),
        "cannot parse request: bad"
    );
}
