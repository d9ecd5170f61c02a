//! Sync targets and paths.

use std::collections::BTreeMap;

use dsync::paths::{components, join_path, starts_with, Component};
use dsync::repo::find_repo_root;
use dsync::target::{Resolution, Target, TargetError};

fn local(path: &str) -> Target {
    Target::Local(path.as_bytes().to_vec())
}

#[test]
fn parses_remote_targets() {
    assert_eq!(
        Target::parse("host:/srv/repo").unwrap(),
        Target::Remote {
            host: "host".into(),
            path: "/srv/repo".into()
        }
    );
    assert_eq!(
        Target::parse("user@host.example.com:relative/path").unwrap(),
        Target::Remote {
            host: "user@host.example.com".into(),
            path: "relative/path".into()
        }
    );
}

#[test]
fn parses_local_targets() {
    assert_eq!(Target::parse("/srv/replica").unwrap(), local("/srv/replica"));
    // A '/' before the ':' means local, per scp rules.
    let t = Target::parse("./odd:name").unwrap();
    match t {
        Target::Local(p) => assert!(p.ends_with(b"/odd:name"), "got {p:?}"),
        other => panic!("expected local target, got {other:?}"),
    }
    // Relative paths resolve against the current directory.
    let t = Target::parse("replica").unwrap();
    match t {
        Target::Local(p) => assert!(p.starts_with(b"/")),
        other => panic!("expected local target, got {other:?}"),
    }
}

#[test]
fn rejects_bad_targets() {
    assert!(Target::parse("").is_err());
    assert!(Target::parse("host:").is_err());
}

#[test]
fn target_errors_say_what_is_wrong() {
    assert_eq!(Target::parse("").unwrap_err().message(), "sync target must not be empty");
    assert_eq!(
        Target::parse("host:").unwrap_err().message(),
        "remote target \"host:\" must include a path after the colon"
    );
    let err = Target::parse_resolved("a \"b\"", Err("no cwd".to_string())).unwrap_err();
    assert_eq!(
        err,
        TargetError::Unresolvable {
            target: "a \"b\"".to_string(),
            cause: "no cwd".to_string()
        }
    );
    assert_eq!(err.message(), "cannot resolve local target path \"a \\\"b\\\"\"");
}

#[test]
fn resolution_decides_local_targets_only() {
    let there = || Ok(b"/there".to_vec());
    assert_eq!(Target::parse_resolved("x", there()).unwrap(), local("/there"));
    assert_eq!(Target::parse_resolved("/a:b", there()).unwrap(), local("/there"));
    assert_eq!(Target::parse_resolved(":b", there()).unwrap(), local("/there"));
    assert_eq!(
        Target::parse_resolved("a:b:c", Err(String::new())).unwrap(),
        Target::Remote { host: "a".into(), path: "b:c".into() }
    );
    assert_eq!(Target::parse_resolved("", there()), Err(TargetError::Empty));
}

#[test]
fn targets_as_text_read_back() {
    let remote = Target::parse("me@host:a dir").unwrap();
    assert_eq!(remote.display(), "me@host:a dir");
    assert_eq!(remote.rsync_dest(), b"me@host:a dir");
    assert_eq!(Target::parse(&remote.display()).unwrap(), remote);
    let replica = local("/srv/a:b/é");
    assert_eq!(replica.display(), "/srv/a:b/é");
    assert_eq!(replica.rsync_dest(), "/srv/a:b/é".as_bytes());
    assert_eq!(Target::parse(&replica.display()).unwrap(), replica);
    // What is no UTF-8 is replaced in the text only.
    let odd = Target::Local(vec![b'/', 0xff, b'x']);
    assert_eq!(odd.display(), "/\u{fffd}x");
    assert_eq!(odd.rsync_dest(), [b'/', 0xff, b'x']);
}

/// Resolves a path where `links` tells what the existing paths are.
fn resolve(path: &str, links: &BTreeMap<&str, &str>) -> Vec<u8> {
    let mut resolution = Resolution::new(path.as_bytes());
    while let Some(question) = resolution.question() {
        let question = String::from_utf8(question).unwrap();
        let answer = links.get(question.as_str()).map(|p| p.as_bytes().to_vec());
        resolution.answer(answer);
    }
    resolution.finish()
}

#[test]
fn rejects_target_inside_repo() {
    let repo = b"/tmp/t/repo";
    let exists: BTreeMap<&str, &str> = [
        ("/", "/"),
        ("/tmp", "/tmp"),
        ("/tmp/t", "/tmp/t"),
        ("/tmp/t/repo", "/tmp/t/repo"),
        ("/tmp/t/repo/sub", "/tmp/t/repo/sub"),
        ("/tmp/t/repo/sub/..", "/tmp/t/repo"),
        ("/tmp/t/link", "/tmp/t/repo/sub"),
    ]
    .into_iter()
    .collect();

    for bad in [
        "/tmp/t/repo",
        "/tmp/t/repo/sub",
        "/tmp/t/repo/not-yet-created/deeper",
        "/tmp/t/repo/sub/../sub/x",
        "/tmp/t/link/x",
        "/tmp/t/elsewhere/../repo/x",
    ] {
        let t = local(bad);
        let resolved = resolve(bad, &exists);
        assert!(
            t.validate_against_repo(&resolved, repo).is_err(),
            "{bad} should be rejected"
        );
    }
    let t = local("/tmp/t/link/x");
    let err = t
        .validate_against_repo(&resolve("/tmp/t/link/x", &exists), repo)
        .unwrap_err();
    assert_eq!(
        err.message(),
        "sync target /tmp/t/link/x is inside the repository /tmp/t/repo; \
         syncing a repo into itself would loop forever"
    );

    // Sibling whose name shares a prefix is not "inside".
    for ok in ["/tmp/t/elsewhere", "/tmp/t/repo2", "/tmp/t/repo/../x"] {
        let t = local(ok);
        let resolved = resolve(ok, &exists);
        assert!(t.validate_against_repo(&resolved, repo).is_ok(), "{ok} is fine");
    }
    let remote = Target::parse("host:/anything").unwrap();
    assert!(remote.validate_against_repo(b"", repo).is_ok());
}

#[test]
fn unresolvable_paths_are_resolved_as_text() {
    let none = BTreeMap::new();
    assert_eq!(resolve("/a/./b/../c", &none), b"/a/c");
    assert_eq!(resolve("/..", &none), b"/");
    let root: BTreeMap<&str, &str> = [("/", "/")].into_iter().collect();
    assert_eq!(resolve("/x/../../y", &root), b"/y");
}

#[test]
fn joining_and_splitting_paths() {
    assert_eq!(join_path(b"/a", b"b"), b"/a/b");
    assert_eq!(join_path(b"/a/", b"b"), b"/a/b");
    assert_eq!(join_path(b"/a", b"/b"), b"/b");
    assert_eq!(join_path(b"", b"b"), b"b");
    assert_eq!(join_path(b"a", b""), b"a/");
    assert_eq!(
        components(b"/a//./b/.."),
        vec![
            Component::Root,
            Component::Normal(b"a".to_vec()),
            Component::Normal(b"b".to_vec()),
            Component::Parent,
        ]
    );
    assert_eq!(components(b"./a"), vec![Component::Cur, Component::Normal(b"a".to_vec())]);
    assert!(components(b"").is_empty());
    assert!(starts_with(b"/a/b", b"/a"));
    assert!(starts_with(b"/a/b", b"/a/"));
    assert!(!starts_with(b"/ab", b"/a"));
    assert!(!starts_with(b"a/b", b"/a"));
}

#[test]
fn finds_root_from_subdirectory() {
    let has_git = |p: &Vec<u8>| p == b"/tmp/repo/.git";
    assert_eq!(find_repo_root(b"/tmp/repo/a/b/c", has_git), Ok(b"/tmp/repo".to_vec()));
    assert_eq!(find_repo_root(b"/tmp/repo", has_git), Ok(b"/tmp/repo".to_vec()));
    // The nearest one counts, and the root is one too.
    let nested = |p: &Vec<u8>| p == b"/r/.git" || p == b"/r/sub/.git" || p == b"/.git";
    assert_eq!(find_repo_root(b"/r/sub/x", nested), Ok(b"/r/sub".to_vec()));
    assert_eq!(find_repo_root(b"/other", nested), Ok(b"/".to_vec()));
}

#[test]
fn errors_outside_a_repo() {
    let err = find_repo_root(b"/tmp/x", |_: &Vec<u8>| false).unwrap_err();
    assert!(err.contains("not inside a git repository"));
    assert_eq!(err, "/tmp/x is not inside a git repository (ds sync must be run within one)");
}

fn resolved(target: &str) -> Vec<u8> {
    match Target::parse(target).unwrap() {
        Target::Local(path) => path,
        other => panic!("expected local target, got {other:?}"),
    }
}

#[test]
fn absolute_targets_lose_redundant_parts_only() {
    for (target, path) in [
        ("/", "/"),
        ("/.", "/"),
        ("//", "//"),
        ("///", "/"),
        ("/a", "/a"),
        ("/a/", "/a/"),
        ("/a//", "/a/"),
        ("/a/.", "/a"),
        ("/a/./", "/a/"),
        ("/a/./b//c", "/a/b/c"),
        ("/a/../b", "/a/../b"),
        ("//x", "//x"),
        ("//x//y/", "//x/y/"),
        ("///x", "/x"),
        ("/a:b/.c/..d", "/a:b/.c/..d"),
    ] {
        assert_eq!(resolved(target), path.as_bytes(), "{target}");
        assert_eq!(resolved(path), path.as_bytes(), "{path}");
    }
}

#[test]
fn relative_targets_follow_the_current_directory() {
    let here = resolved(".");
    assert_eq!(here[0], b'/');
    for (target, rel) in [
        ("out", "out"),
        ("./out", "out"),
        ("././out", "out"),
        ("./out/", "out/"),
        ("a//./b", "a/b"),
        ("../b", "../b"),
        ("a/..", "a/.."),
        (":b", ":b"),
        ("./", ""),
    ] {
        assert_eq!(resolved(target), join_path(&here, rel.as_bytes()), "{target}");
    }
}

#[test]
fn every_parsed_target_reads_back() {
    for target in ["out", "./out/", ".", "./", "../x", "/a/", "/a/./b//c", "//x", "/", "h:p", "h:p/"] {
        let parsed = Target::parse(target).unwrap();
        assert_eq!(Target::parse(&parsed.display()).unwrap(), parsed, "{target}");
    }
}
