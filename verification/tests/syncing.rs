//! The sync loop.

use dsync::fastpath::Outcome;
use dsync::git::{
    default_excludes_file, excludes_file, git_output, global_exclude_files,
    interim_rsync_filter_args,
};
use dsync::ignore::{builtin_ignored_expr, Rules};
use dsync::state::ServerState;
use dsync::sync::{
    begin_sync, end_sync, full_sync_message, heal_interval, read_notification, rsync_status,
    run_rsync, subscription_expr, sync_once, ChangeEvent, Notification, ReaderStep, Runner,
    RunnerStep, SyncMode, SyncOutcome, SyncProgress, SyncStep, Wake, HEAL_INTERVAL_MS,
};
use dsync::target::Target;
use dsync::wquery::{not_ignored, since_query};
use dsync::IgnoreSet;
use watchman_client::prelude::{Clock, ClockSpec};

fn clock(text: &str) -> Clock {
    Clock::Spec(ClockSpec::StringClock(text.to_string()))
}

fn rules(contents: &str) -> Rules {
    let mut set = IgnoreSet::new();
    set.add_source("", contents);
    Rules::load(Ok(set))
}

fn text(bytes: &[Vec<u8>]) -> Vec<&str> {
    bytes.iter().map(|b| std::str::from_utf8(b).unwrap()).collect()
}

fn event(files: Option<usize>, fresh_instance: bool) -> ChangeEvent {
    ChangeEvent { seq: 7, clock: clock("c:1:2"), files, fresh_instance }
}

#[test]
fn filter_args_always_exclude_git_and_dsync() {
    let args = interim_rsync_filter_args(&vec![]);
    let args = text(&args);
    assert!(args.contains(&"--exclude=.git"));
    assert!(args.contains(&"--exclude=.dsync"));
    assert!(args.contains(&"--filter=:- .gitignore"));
    // No --delete-excluded, ever.
    assert!(!args.iter().any(|a| a.contains("delete-excluded")));
}

#[test]
fn filter_args_pick_up_info_exclude_and_excludes_file() {
    let files = global_exclude_files(
        b"/repo",
        &Ok(Some(".git/info/exclude".to_string())),
        &Ok(Some("/home/me/global-ignore".to_string())),
        None,
        None,
    );
    let args = interim_rsync_filter_args(&files);
    // info/exclude must come before (higher precedence than) the global
    // excludes file.
    assert_eq!(
        text(&args)[3..],
        [
            "--filter=.- /repo/.git/info/exclude",
            "--filter=.- /home/me/global-ignore"
        ]
    );
}

#[test]
fn the_users_excludes_file() {
    assert_eq!(
        default_excludes_file(Some(b"/xdg"), Some(b"/home/me")),
        Some(b"/xdg/git/ignore".to_vec())
    );
    assert_eq!(
        default_excludes_file(Some(b""), Some(b"/home/me")),
        Some(b"/home/me/.config/git/ignore".to_vec())
    );
    assert_eq!(
        default_excludes_file(None, Some(b"/home/me/")),
        Some(b"/home/me/.config/git/ignore".to_vec())
    );
    assert_eq!(default_excludes_file(None, None), None);
    assert_eq!(
        excludes_file(&Ok(Some("/x".to_string())), Some(b"/xdg"), None),
        Some(b"/x".to_vec())
    );
    assert_eq!(
        excludes_file(&Ok(None), Some(b"/xdg"), None),
        Some(b"/xdg/git/ignore".to_vec())
    );
    assert_eq!(excludes_file(&Err("broken".to_string()), Some(b"/xdg"), None), None);
    // Without either, there is nothing to merge.
    assert!(global_exclude_files(b"/r", &Ok(None), &Ok(None), None, None).is_empty());
    assert!(
        global_exclude_files(b"/r", &Err("x".to_string()), &Err("x".to_string()), None, None)
            .is_empty()
    );
}

#[test]
fn what_git_says() {
    let args: Vec<String> = vec!["config".to_string(), "--get".to_string()];
    assert_eq!(git_output(&args, true, b" /x y\n", b""), Ok(Some("/x y".to_string())));
    assert_eq!(git_output(&args, true, b" \n", b"warning"), Ok(None));
    assert_eq!(git_output(&args, false, b"", b"fatal"), Ok(None));
    assert_eq!(
        git_output(&args, false, b"out", b"fatal: no\n"),
        Err("git config --get failed: fatal: no".to_string())
    );
    assert_eq!(
        git_output(&args, true, &[0xff, b'x'], b""),
        Ok(Some("\u{fffd}x".to_string()))
    );
}

#[test]
fn the_heal_interval() {
    assert_eq!(HEAL_INTERVAL_MS, 300_000);
    assert_eq!(heal_interval(None), 300_000);
    assert_eq!(heal_interval(Some("250")), 250);
    assert_eq!(heal_interval(Some("+0007")), 7);
    assert_eq!(heal_interval(Some("18446744073709551615")), u64::MAX);
    for bad in ["", "+", "-1", "1 ", "18446744073709551616", "1e3", "99999999999999999999999"] {
        assert_eq!(heal_interval(Some(bad)), 300_000, "{bad:?}");
    }
}

#[test]
fn notifications_are_tagged_in_receipt_order() {
    let mut state: ServerState<u64> = ServerState::new(1, 0);
    let changed = |files| Notification::FilesChanged {
        clock: clock("c:1:2"),
        files,
        fresh_instance: false,
    };
    match read_notification(&mut state, changed(Some(3))) {
        ReaderStep::Publish(e) => assert_eq!((e.seq, e.files), (1, Some(3))),
        other => panic!("unexpected {other:?}"),
    }
    assert!(matches!(
        read_notification(&mut state, Notification::StateChanged),
        ReaderStep::Skip
    ));
    assert_eq!(state.next_seq(), 2);
    match read_notification(&mut state, changed(None)) {
        ReaderStep::Publish(e) => assert_eq!((e.seq, e.files), (3, None)),
        other => panic!("unexpected {other:?}"),
    }
    match read_notification(&mut state, Notification::Canceled) {
        ReaderStep::Fail(why) => assert_eq!(
            why,
            "watchman canceled our subscription (was the watch deleted?)"
        ),
        other => panic!("unexpected {other:?}"),
    }
}

#[test]
fn the_fast_path_is_tried_only_when_it_is_safe() {
    let plain = rules("*.o\n");
    let negated = rules("!keep\n");
    let start = SyncProgress::Started;
    let small = event(Some(64), false);
    assert_eq!(sync_once(&plain, true, &small, false, &start), SyncStep::TryFastPath);
    assert_eq!(
        sync_once(&plain, true, &event(None, false), false, &start),
        SyncStep::TryFastPath
    );
    assert_eq!(sync_once(&plain, true, &small, true, &start), SyncStep::RunRsync);
    assert_eq!(sync_once(&plain, false, &small, false, &start), SyncStep::RunRsync);
    assert_eq!(sync_once(&negated, true, &small, false, &start), SyncStep::RunRsync);
    assert_eq!(
        sync_once(&plain, true, &event(Some(65), false), false, &start),
        SyncStep::RunRsync
    );
    assert_eq!(
        sync_once(&plain, true, &event(Some(1), true), false, &start),
        SyncStep::RunRsync
    );
}

#[test]
fn a_declined_fast_path_falls_back() {
    let r = rules("");
    let e = event(Some(1), false);
    let after = |outcome| sync_once(&r, true, &e, false, &SyncProgress::FastPath(outcome));
    assert_eq!(
        after(Ok(Outcome::Applied)),
        SyncStep::Finished(SyncOutcome::Synced(SyncMode::Fast))
    );
    assert_eq!(after(Ok(Outcome::NoChanges)), SyncStep::Finished(SyncOutcome::NoChanges));
    assert_eq!(after(Ok(Outcome::Fallback("x".to_string()))), SyncStep::RunRsync);
    assert_eq!(after(Err("x".to_string())), SyncStep::RunRsync);
    let done = |code| sync_once(&r, true, &e, false, &SyncProgress::Rsync(code));
    let full = SyncStep::Finished(SyncOutcome::Synced(SyncMode::Full));
    assert_eq!(done(Some(0)), full);
    assert_eq!(done(Some(24)), full);
    assert_eq!(done(Some(23)), SyncStep::Failed("rsync exited with status 23".to_string()));
    assert_eq!(done(None), SyncStep::Failed("rsync was killed by a signal".to_string()));
    assert_eq!(
        rsync_status(Some(-1)),
        Err("rsync exited with status -1".to_string())
    );
    assert_eq!(
        rsync_status(Some(i32::MIN)),
        Err("rsync exited with status -2147483648".to_string())
    );
    assert_eq!(SyncMode::Fast.label(), "fast");
    assert_eq!(SyncMode::Full.label(), "full");
    assert_eq!(full_sync_message(Some(3)), "full sync started (3 files changed)");
    assert_eq!(full_sync_message(None), "full sync started");
}

#[test]
fn the_full_rsync() {
    let remote = Target::Remote { host: "h".to_string(), path: "p".to_string() };
    let cmd = run_rsync(b"/repo", &remote, &rules("/x\n"), &vec![b"/unused".to_vec()]);
    assert_eq!(cmd.program, "rsync");
    assert_eq!(
        text(&cmd.args),
        [
            "-a",
            "--delete-after",
            "--modify-window=-1",
            "--filter=- /.git",
            "--filter=- /.dsync",
            "--filter=- /x",
            "/repo/",
            "h:p",
        ]
    );
    let pathological = rules("a/**/b/**/c/**/d/**/e/**/f\n");
    let here = Target::Local(b"/replica".to_vec());
    let cmd = run_rsync(b"/repo", &here, &pathological, &vec![b"/excludes".to_vec()]);
    assert_eq!(
        text(&cmd.args),
        [
            "-a",
            "--delete-after",
            "--modify-window=-1",
            "--exclude=.git",
            "--exclude=.dsync",
            "--filter=:- .gitignore",
            "--filter=.- /excludes",
            "/repo/",
            "/replica",
        ]
    );
}

#[test]
fn the_runner_retries_and_heals() {
    let mut runner = Runner::new();
    assert!(!runner.waits_to_retry());
    // No state to repair yet.
    assert_eq!(runner.woken(Wake::HealTick, false), RunnerStep::Wait);
    assert!(!runner.force_full);
    assert_eq!(runner.woken(Wake::Changed, true), RunnerStep::Settle);
    assert!(!runner.force_full);
    assert_eq!(runner.woken(Wake::HealTick, true), RunnerStep::Take);
    assert!(runner.force_full);
    // A failed full sync is retried in full.
    runner.finished(false);
    assert!(runner.waits_to_retry());
    assert_eq!(runner.woken(Wake::Retry, true), RunnerStep::Take);
    assert!(runner.force_full);
    runner.finished(true);
    assert!(!runner.waits_to_retry());
    assert!(!runner.force_full);
    assert_eq!(
        runner.woken(Wake::Ended, true),
        RunnerStep::Fail("watchman event stream ended".to_string())
    );
}

#[test]
fn syncs_are_recorded() {
    let mut state: ServerState<u64> = ServerState::new(1, 0);
    state.add_replica("default", Target::Local(b"/r".to_vec()));
    // The startup sync has nothing to query since.
    assert!(begin_sync(&mut state, "default", 7, 10).is_none());
    assert_eq!(state.replica("default").unwrap().syncing.unwrap().seq, 7);
    end_sync(&mut state, "default", event(None, true), false, 11);
    let r = state.replica("default").unwrap();
    assert!(r.syncing.is_none() && r.synced.is_none());
    assert!(!state.synced_since(0));
    begin_sync(&mut state, "default", 7, 12);
    end_sync(&mut state, "default", event(None, true), true, 13);
    assert!(state.synced_since(0));
    let r = state.replica("default").unwrap();
    assert!(r.syncing.is_none());
    let s = r.synced.unwrap();
    assert_eq!((s.seq, s.completed_at), (7, 13));
    // The next one queries since that clock.
    let prev = begin_sync(&mut state, "default", 8, 14).unwrap();
    assert_eq!(serde_json::to_string(&prev).unwrap(), "\"c:1:2\"");
    assert!(begin_sync(&mut state, "nope", 8, 14).is_none());
}

fn json(text: &str) -> serde_json::Value {
    serde_json::from_str(text).unwrap()
}

#[test]
fn since_queries() {
    let expr = not_ignored(&json(r#"["anyof", "x"]"#));
    assert_eq!(expr, json(r#"["not", ["anyof", "x"]]"#));
    let query = since_query("/root", None, &clock("c:1:2"), &expr).unwrap();
    assert_eq!(
        query,
        json(
            r#"["query", "/root", {
                "since": "c:1:2",
                "expression": ["not", ["anyof", "x"]],
                "fields": ["name", "exists", "type"],
                "sync_timeout": 60000
            }]"#
        )
    );
    let stamp = Clock::Spec(ClockSpec::UnixTimestamp(12));
    let query = since_query("/root", Some("sub"), &stamp, &expr).unwrap();
    assert_eq!(
        query,
        json(
            r#"["query", "/root", {
                "since": 12,
                "expression": ["not", ["anyof", "x"]],
                "fields": ["name", "exists", "type"],
                "sync_timeout": 60000,
                "relative_root": "sub"
            }]"#
        )
    );
}

#[test]
fn the_subscription_expression() {
    let dir_or_self = |name: &str| {
        format!(
            "Any([DirName(DirNameTerm {{ path: {name:?}, depth: None }}), \
             Name(NameTerm {{ paths: [{name:?}], wholename: true }})])"
        )
    };
    assert_eq!(
        format!("{:?}", subscription_expr()),
        format!("Not(Any([{}, {}]))", dir_or_self(".git"), dir_or_self(".dsync"))
    );
    assert_eq!(builtin_ignored_expr().as_array().unwrap().len(), 5);
}
