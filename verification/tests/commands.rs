//! Quoting, and the commands that are run.

use dsync::barrier::Outcome as Waited;
use dsync::command::CommandLine;
use dsync::exec::{
    bad_target_message, build_command, cmd_exec, exec_exit_code, exec_failure_message,
    remote_command, sh_quote, ExecAction, ExecEvent, ExecFailure, ExecRequest,
};
use dsync::fastpath::{
    apply, build_tar, check_budget, detect_compression, exit_failure, has_zstd, plan_changes,
    try_fast_path, unpacker_script, Compression, FastAttempt, FastProgress, FastStep, FileSize,
    Outcome, OverBudget, Plan, MAX_BYTES, MAX_FILES,
};
use dsync::target::Target;
use dsync::wquery::{ChangedFile, SinceResult};

fn argv(words: &[&str]) -> Vec<String> {
    words.iter().map(|w| w.to_string()).collect()
}

fn paths(rels: &[&str]) -> Vec<Vec<u8>> {
    rels.iter().map(|p| p.as_bytes().to_vec()).collect()
}

fn args(cmd: &CommandLine) -> Vec<&str> {
    cmd.args.iter().map(|a| std::str::from_utf8(a).unwrap()).collect()
}

fn remote() -> Target {
    Target::Remote {
        host: "user@host".into(),
        path: "replica".into(),
    }
}

fn replica() -> Target {
    Target::Local(b"/srv/replica".to_vec())
}

#[test]
fn quotes_for_sh() {
    assert_eq!(sh_quote("simple"), "simple");
    assert_eq!(sh_quote("a/b._-c=d:e,f@g%h+1"), "a/b._-c=d:e,f@g%h+1");
    assert_eq!(sh_quote(""), "''");
    assert_eq!(sh_quote("two words"), "'two words'");
    assert_eq!(sh_quote("a'b"), r"'a'\''b'");
    assert_eq!(sh_quote("$HOME"), "'$HOME'");
    assert_eq!(sh_quote("a;b&c|d"), "'a;b&c|d'");
    assert_eq!(sh_quote("*"), "'*'");
    assert_eq!(sh_quote("new\nline"), "'new\nline'");
    assert_eq!(sh_quote("é"), "'é'");
}

/// The words a POSIX shell reads in a line of plain words.
fn sh_words(text: &str) -> Vec<String> {
    let mut words = Vec::new();
    let mut word: Option<String> = None;
    let mut quoting = false;
    let mut chars = text.chars();
    while let Some(c) = chars.next() {
        if quoting {
            if c == '\'' {
                quoting = false;
            } else {
                word.get_or_insert_with(String::new).push(c);
            }
        } else if c == ' ' {
            words.extend(word.take());
        } else if c == '\'' {
            word.get_or_insert_with(String::new);
            quoting = true;
        } else if c == '\\' {
            word.get_or_insert_with(String::new).push(chars.next().unwrap());
        } else {
            word.get_or_insert_with(String::new).push(c);
        }
    }
    assert!(!quoting);
    words.extend(word.take());
    words
}

#[test]
fn quoted_words_read_back() {
    let words = argv(&[
        "printf",
        "%s\\n",
        "",
        "two words",
        "it's",
        "$HOME",
        "`cmd`",
        "a;b&c|d>e<f",
        "*",
        "\\",
        "\"quoted\"",
        "tab\tand\nnewline",
    ]);
    let quoted: Vec<String> = words.iter().map(|w| sh_quote(w)).collect();
    assert_eq!(sh_words(&quoted.join(" ")), words);
    let script = remote_command("it's here", &words);
    let (cd, exec) = script.split_once(" && ").unwrap();
    assert_eq!(sh_words(cd), ["cd", "it's here"]);
    assert_eq!(sh_words(exec)[0], "exec");
    assert_eq!(sh_words(exec)[1..], words[..]);
}

#[test]
fn builds_the_remote_command() {
    assert_eq!(
        remote_command("/srv/replica", &argv(&["make", "-j4"])),
        "cd /srv/replica && exec make -j4"
    );
    assert_eq!(
        remote_command("dir with spaces", &argv(&["echo", "it's a test"])),
        r"cd 'dir with spaces' && exec echo 'it'\''s a test'"
    );
}

#[test]
fn local_targets_run_in_the_replica() {
    let cmd = build_command(&replica(), &argv(&["make", "-j4"]), true);
    assert_eq!(cmd.program, "make");
    assert_eq!(args(&cmd), ["-j4"]);
    assert_eq!(cmd.cwd, Some(b"/srv/replica".to_vec()));
}

#[test]
fn remote_targets_run_via_ssh() {
    let cmd = build_command(&remote(), &argv(&["true"]), false);
    assert_eq!(cmd.program, "ssh");
    assert_eq!(args(&cmd), ["user@host", "cd replica && exec true"]);
    // No CWD override: the `cd` happens on the remote side.
    assert_eq!(cmd.cwd, None);

    // A TTY on our stdin requests one for the remote command.
    let cmd = build_command(&remote(), &argv(&["true"]), true);
    assert_eq!(args(&cmd), ["-t", "user@host", "cd replica && exec true"]);
}

#[test]
fn exec_waits_checks_and_runs() {
    let here = ExecRequest { target: replica(), argv: argv(&["make", "-j4"]), tty: false };
    let run = ExecAction::Run(build_command(&here.target, &here.argv, false));
    let check = ExecAction::Check(b"/srv/replica".to_vec());
    assert_eq!(cmd_exec(&here, ExecEvent::Started { no_wait: false }), ExecAction::Wait);
    assert_eq!(cmd_exec(&here, ExecEvent::Started { no_wait: true }), check);
    assert_eq!(cmd_exec(&here, ExecEvent::Waited(Waited::Synced)), check);
    assert_eq!(cmd_exec(&here, ExecEvent::Waited(Waited::TimedOut)), ExecAction::Exit(3));
    assert_eq!(cmd_exec(&here, ExecEvent::Checked { is_dir: true }), run);
    assert_eq!(
        cmd_exec(&here, ExecEvent::Checked { is_dir: false }),
        ExecAction::Fail(
            "replica directory /srv/replica does not exist (has a sync completed?)".to_string()
        )
    );
    let there = ExecRequest { target: remote(), argv: argv(&["true"]), tty: true };
    let run = ExecAction::Run(build_command(&there.target, &there.argv, true));
    assert_eq!(cmd_exec(&there, ExecEvent::Started { no_wait: true }), run);
    assert_eq!(cmd_exec(&there, ExecEvent::Waited(Waited::Synced)), run);
    assert_eq!(cmd_exec(&there, ExecEvent::Checked { is_dir: false }), run);
}

#[test]
fn exec_failures() {
    assert_eq!(exec_exit_code(ExecFailure::NotFound), 127);
    assert_eq!(exec_exit_code(ExecFailure::PermissionDenied), 126);
    assert_eq!(exec_exit_code(ExecFailure::Other), 1);
    assert_eq!(
        exec_failure_message(&replica(), &argv(&["nope", "x"]), "no such file"),
        "ds exec: cannot execute nope: no such file"
    );
    assert_eq!(
        exec_failure_message(&remote(), &argv(&["nope"]), "no such file"),
        "ds exec: cannot execute ssh: no such file"
    );
    assert_eq!(
        bad_target_message("x:"),
        "cannot parse sync target \"x:\" reported by ds sync"
    );
}

#[test]
fn unpacker_extracts_when_only_sends() {
    let script = unpacker_script(&vec![], true, Compression::Uncompressed);
    assert_eq!(script, "tar -x -f -");
}

#[test]
fn unpacker_compresses_when_requested() {
    let script = unpacker_script(&vec![], true, Compression::Zstd);
    assert_eq!(script, "tar -x --zstd -f -");
}

#[test]
fn unpacker_deletes_then_extracts() {
    let script = unpacker_script(&paths(&["a.txt", "dir/b"]), true, Compression::Uncompressed);
    assert_eq!(script, "rm -rf -- a.txt dir/b && tar -x -f -");
}

#[test]
fn unpacker_deletes_only() {
    let script = unpacker_script(&paths(&["gone"]), false, Compression::Uncompressed);
    assert_eq!(script, "rm -rf -- gone");
}

#[test]
fn unpacker_quotes_tricky_deletions() {
    let script = unpacker_script(&paths(&["a file", "x'y"]), false, Compression::Uncompressed);
    assert_eq!(script, r"rm -rf -- 'a file' 'x'\''y'");
    assert_eq!(sh_words(&script), ["rm", "-rf", "--", "a file", "x'y"]);
}

#[test]
fn the_unpacker_runs_in_the_replica() {
    let cmd = apply(&replica(), &paths(&["x"]), false, Compression::Zstd);
    assert_eq!(cmd.program, "sh");
    assert_eq!(args(&cmd), ["-c", "rm -rf -- x"]);
    assert_eq!(cmd.cwd, Some(b"/srv/replica".to_vec()));
    let cmd = apply(&remote(), &vec![], true, Compression::Zstd);
    assert_eq!(cmd.program, "ssh");
    assert_eq!(args(&cmd), ["user@host", "cd replica && tar -x --zstd -f -"]);
    assert_eq!(cmd.cwd, None);
}

#[test]
fn tar_reads_names_from_a_list() {
    let (cmd, list) = build_tar(b"/repo", &paths(&["a", "b c"]), Compression::Uncompressed);
    assert_eq!(cmd.program, "tar");
    assert_eq!(args(&cmd), ["-c", "-C", "/repo", "--null", "-T", "-", "-f", "-"]);
    assert_eq!(list, b"a\0b c\0");
    let (cmd, list) = build_tar(b"/repo", &vec![], Compression::Zstd);
    assert_eq!(
        args(&cmd),
        ["-c", "-C", "/repo", "--null", "-T", "-", "-f", "-", "--zstd"]
    );
    assert!(list.is_empty());
    let names: Vec<Vec<u8>> = vec![vec![0xff, b'\n'], b"x".to_vec()];
    let (_, list) = build_tar(b"/repo", &names, Compression::Zstd);
    let back: Vec<Vec<u8>> = list
        .split_inclusive(|b| *b == 0)
        .map(|name| name[..name.len() - 1].to_vec())
        .collect();
    assert_eq!(back, names);
}

#[test]
fn compression_needs_zstd_on_both_ends() {
    assert_eq!(detect_compression(&remote(), true, true), Compression::Zstd);
    assert_eq!(detect_compression(&remote(), true, false), Compression::Uncompressed);
    assert_eq!(detect_compression(&remote(), false, true), Compression::Uncompressed);
    assert_eq!(detect_compression(&replica(), true, true), Compression::Uncompressed);
    let cmd = has_zstd(None);
    assert_eq!((cmd.program.as_str(), args(&cmd)), ("zstd", vec!["-V"]));
    let cmd = has_zstd(Some("host"));
    assert_eq!((cmd.program.as_str(), args(&cmd)), ("ssh", vec!["host", "command -v zstd"]));
}

fn change(name: &str, exists: bool, kind: Option<&str>) -> ChangedFile {
    ChangedFile {
        name: name.as_bytes().to_vec(),
        exists,
        file_type: kind.map(|k| k.to_string()),
    }
}

#[test]
fn changes_are_sent_or_deleted() {
    let result = SinceResult::new(
        false,
        Some(vec![
            change("a", true, Some("f")),
            change("gone", false, Some("f")),
            change("dir", true, Some("d")),
            change("link", true, Some("l")),
            change("gone-dir", false, Some("d")),
            change("untyped", true, None),
        ]),
    );
    assert_eq!(
        plan_changes(&result),
        Plan::Apply {
            sends: paths(&["a", "link", "untyped"]),
            deletes: paths(&["gone", "gone-dir"]),
        }
    );
}

#[test]
fn nothing_to_do_and_too_much() {
    assert_eq!(
        plan_changes(&SinceResult::new(false, None)),
        Plan::Done(Outcome::NoChanges)
    );
    assert_eq!(
        plan_changes(&SinceResult::new(false, Some(vec![change("d", true, Some("d"))]))),
        Plan::Done(Outcome::NoChanges)
    );
    assert_eq!(
        plan_changes(&SinceResult::new(true, None)),
        Plan::Done(Outcome::Fallback("watchman reported a fresh instance".to_string()))
    );
    let many = |n: usize| {
        let files = (0..n).map(|i| change(&format!("f{i}"), true, Some("f"))).collect();
        SinceResult::new(false, Some(files))
    };
    assert!(matches!(plan_changes(&many(MAX_FILES)), Plan::Apply { .. }));
    assert_eq!(
        plan_changes(&many(MAX_FILES + 1)),
        Plan::Done(Outcome::Fallback(
            "65 changed files exceed the fast-path limit of 64".to_string()
        ))
    );
    // Deletions do not count.
    let deletions = (0..100).map(|i| change(&format!("f{i}"), false, None)).collect();
    assert!(matches!(
        plan_changes(&SinceResult::new(false, Some(deletions))),
        Plan::Apply { .. }
    ));
}

#[test]
fn the_byte_budget() {
    let sends = paths(&["a", "b"]);
    assert_eq!(MAX_BYTES, 8 * 1024 * 1024);
    let sizes = |a, b| vec![FileSize::Bytes(a), FileSize::Bytes(b)];
    assert_eq!(check_budget(&sends, &sizes(MAX_BYTES, 0)), Ok(()));
    let over = Err(OverBudget::Decline(
        "changed files exceed the fast-path byte budget of 8388608".to_string(),
    ));
    assert_eq!(check_budget(&sends, &sizes(MAX_BYTES, 1)), over);
    assert_eq!(check_budget(&sends, &sizes(1, u64::MAX)), over);
    assert_eq!(
        check_budget(&sends, &vec![FileSize::Bytes(1), FileSize::Vanished]),
        Err(OverBudget::Decline("b vanished mid-fast-path".to_string()))
    );
    assert_eq!(
        check_budget(
            &sends,
            &vec![FileSize::Failed("denied".to_string()), FileSize::Vanished]
        ),
        Err(OverBudget::Fail { path: b"a".to_vec(), cause: "denied".to_string() })
    );
    // The first file over the budget decides.
    assert_eq!(
        check_budget(&sends, &vec![FileSize::Bytes(MAX_BYTES + 1), FileSize::Vanished]),
        over
    );
}

fn attempt(target: Target, changes: Vec<ChangedFile>) -> FastAttempt {
    FastAttempt {
        repo_root: b"/repo".to_vec(),
        target,
        compression: Compression::Uncompressed,
        changes: SinceResult::new(false, Some(changes)),
    }
}

#[test]
fn an_attempt_measures_archives_and_unpacks() {
    let a = attempt(
        replica(),
        vec![change("new", true, Some("f")), change("old", false, None)],
    );
    match try_fast_path(&a, &FastProgress::Queried) {
        FastStep::Measure(files) => assert_eq!(files, paths(&["new"])),
        other => panic!("unexpected {other:?}"),
    }
    match try_fast_path(&a, &FastProgress::Measured(vec![FileSize::Bytes(3)])) {
        FastStep::Archive { cmd, names } => {
            assert_eq!(cmd.program, "tar");
            assert_eq!(names, b"new\0");
        }
        other => panic!("unexpected {other:?}"),
    }
    match try_fast_path(&a, &FastProgress::Archived) {
        FastStep::Unpack(cmd) => {
            assert_eq!(args(&cmd), ["-c", "rm -rf -- old && tar -x -f -"]);
            assert_eq!(cmd.cwd, Some(b"/srv/replica".to_vec()));
        }
        other => panic!("unexpected {other:?}"),
    }
    assert!(matches!(
        try_fast_path(&a, &FastProgress::Unpacked),
        FastStep::Done(Outcome::Applied)
    ));
    match try_fast_path(&a, &FastProgress::Measured(vec![FileSize::Vanished])) {
        FastStep::Done(Outcome::Fallback(why)) => assert_eq!(why, "new vanished mid-fast-path"),
        other => panic!("unexpected {other:?}"),
    }
    match try_fast_path(&a, &FastProgress::Measured(vec![FileSize::Failed("no".to_string())])) {
        FastStep::Fail { path, cause } => {
            assert_eq!((path, cause), (b"new".to_vec(), "no".to_string()))
        }
        other => panic!("unexpected {other:?}"),
    }
    // Deletions alone need no archive.
    let a = attempt(remote(), vec![change("old", false, None)]);
    match try_fast_path(&a, &FastProgress::Measured(vec![])) {
        FastStep::Unpack(cmd) => {
            assert_eq!(args(&cmd), ["user@host", "cd replica && rm -rf -- old"])
        }
        other => panic!("unexpected {other:?}"),
    }
    let a = attempt(remote(), vec![]);
    assert!(matches!(
        try_fast_path(&a, &FastProgress::Queried),
        FastStep::Done(Outcome::NoChanges)
    ));
}

#[test]
fn failures_of_programs() {
    assert_eq!(
        exit_failure("tar", "exit status: 2", b" no such file \n"),
        "tar exited with exit status: 2: no such file"
    );
}
