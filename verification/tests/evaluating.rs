//! Layered evaluation.

use dsync::IgnoreSet;

fn set(sources: &[(&str, &str)]) -> IgnoreSet {
    let mut s = IgnoreSet::new();
    for (base, contents) in sources {
        s.add_source(base, contents);
    }
    s
}

#[test]
fn empty_set_ignores_only_builtins() {
    let s = IgnoreSet::new();
    assert!(!IgnoreSet::default().is_ignored("foo", false));
    assert!(!s.is_ignored("foo", false));
    assert!(!s.is_ignored("a/b", false));
    assert!(s.is_ignored(".git", true));
    assert!(s.is_ignored(".git/config", false));
    assert!(s.is_ignored(".dsync", true));
    assert!(s.is_ignored(".dsync/dsync.sock", false));
    // Only at the root.
    assert!(!s.is_ignored("sub/.git", true));
}

#[test]
fn basic_ignore_and_reinclude() {
    let s = set(&[("", "*.tmp\n!keep.tmp\n")]);
    assert!(s.is_ignored("a.tmp", false));
    assert!(s.is_ignored("sub/a.tmp", false));
    assert!(!s.is_ignored("keep.tmp", false));
    assert!(!s.is_ignored("other.txt", false));
}

#[test]
fn last_match_wins_within_a_file() {
    let s = set(&[("", "!keep.tmp\n*.tmp\n")]);
    // The later *.tmp overrides the earlier negation.
    assert!(s.is_ignored("keep.tmp", false));
}

#[test]
fn ignored_dir_contents_cannot_be_reincluded() {
    let s = set(&[("", "build/\n!build/keep.txt\n")]);
    assert!(s.is_ignored("build", true));
    assert!(s.is_ignored("build/keep.txt", false));
    assert!(s.is_ignored("build/other.txt", false));
}

#[test]
fn dir_only_does_not_match_files() {
    let s = set(&[("", "build/\n")]);
    assert!(s.is_ignored("build", true));
    assert!(!s.is_ignored("build", false));
    assert!(s.is_ignored("build/x", false));
}

#[test]
fn deeper_gitignore_takes_precedence() {
    let s = set(&[("", "*.log\n"), ("sub", "!debug.log\n")]);
    assert!(s.is_ignored("a.log", false));
    assert!(s.is_ignored("sub2/a.log", false));
    assert!(!s.is_ignored("sub/debug.log", false));
    assert!(s.is_ignored("sub/other.log", false));
}

#[test]
fn nested_source_is_relative_to_its_dir() {
    let s = set(&[("sub", "/top.txt\n")]);
    assert!(s.is_ignored("sub/top.txt", false));
    assert!(!s.is_ignored("top.txt", false));
    assert!(!s.is_ignored("sub/deeper/top.txt", false));
}

#[test]
fn source_patterns_do_not_match_their_own_base_dir() {
    let s = set(&[("sub", "sub\n")]);
    assert!(!s.is_ignored("sub", true));
    assert!(s.is_ignored("sub/sub", true));
}

#[test]
fn later_sources_beat_earlier_ones() {
    // Models .dsyncexclude layered over the git rules.
    let s = set(&[("", "*.bin\n"), ("", "!special.bin\nextra.txt\n")]);
    assert!(s.is_ignored("a.bin", false));
    assert!(!s.is_ignored("special.bin", false));
    assert!(s.is_ignored("extra.txt", false));
}

#[test]
fn builtin_git_cannot_be_reincluded() {
    let s = set(&[("", "!.git\n!.git/**\n")]);
    assert!(s.is_ignored(".git", true));
    assert!(s.is_ignored(".git/HEAD", false));
}

#[test]
fn the_root_and_odd_slashes() {
    let s = set(&[("", "*\n")]);
    // The repo root itself is never ignored.
    assert!(!s.is_ignored("", true));
    assert!(!s.is_ignored("/", true));
    // Empty segments do not count.
    assert!(s.is_ignored("a//b/", true));
    let s = set(&[("a//b/", "x\n")]);
    assert!(s.is_ignored("a/b/x", false));
    assert!(!s.is_ignored("a/x", false));
}

#[test]
fn line_endings() {
    let s = set(&[("", "one\r\ntwo\nthree")]);
    assert!(s.is_ignored("one", false));
    assert!(s.is_ignored("two", false));
    assert!(s.is_ignored("three", false));
    assert!(!s.is_ignored("four", false));
}

#[test]
fn everything_under_an_ignored_directory_is_ignored() {
    let s = set(&[("", "out\n!keep\n"), ("out/deep", "!x\n")]);
    assert!(s.is_ignored("out", true));
    assert!(s.is_ignored("out/keep", false));
    assert!(s.is_ignored("out/deep/x", false));
    assert!(!s.is_ignored("keep", false));
}
