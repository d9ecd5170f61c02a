//! The translations say what the evaluator says.

use dsync::sync::heal_interval;
use dsync::text::decimal_text;
use dsync::{parse_line, rsync_filter_rules, watchman_ignored_files_expr, IgnoreSet};
use serde_json::Value;

const PATHS: [&str; 22] = [
    "foo",
    "a/foo",
    "a/b/foo",
    "foo/bar",
    "foo/bar/baz",
    "a/foo/x",
    "build/x",
    "sub/build/x",
    "sub/build",
    "abc",
    "abc/x",
    "abc/x/y",
    "a/x/y/b",
    "a/b",
    "x.tmp",
    "sub/x.tmp",
    "sub/keep.tmp",
    ".git/config",
    "sub/.git/config",
    ".dsync",
    "q]z",
    "sub/deep/er/x1",
];

fn set(sources: &[(&str, &str)]) -> IgnoreSet {
    let mut s = IgnoreSet::new();
    for (base, contents) in sources {
        s.add_source(base, contents);
    }
    s
}

fn segment_matches(glob: &str, name: &str) -> bool {
    parse_line(&format!("/{glob}")).unwrap().matches(&[name], false)
}

/// Matches globs against names, where `**` takes at least `least` names, and
/// at least one at the end.
fn path_matches(globs: &[&str], names: &[&str], least: usize) -> bool {
    match globs.split_first() {
        None => names.is_empty(),
        Some((&"**", rest)) => {
            let from = if rest.is_empty() { 1 } else { least };
            (from..=names.len()).any(|n| path_matches(rest, &names[n..], least))
        }
        Some((glob, rest)) => {
            !names.is_empty()
                && segment_matches(glob, names[0])
                && path_matches(rest, &names[1..], least)
        }
    }
}

/// What rsync makes of a path: the first rule that matches it or a directory
/// on the way to it decides.
fn rsync_leaves_out(rules: &[String], path: &str) -> bool {
    let names: Vec<&str> = path.split('/').collect();
    (1..=names.len()).any(|n| {
        let is_dir = n < names.len();
        rules
            .iter()
            .find(|rule| {
                let text = &rule[3..];
                let (text, dir_only) = match text.strip_suffix('/') {
                    Some(text) => (text, true),
                    None => (text, false),
                };
                let globs: Vec<&str> = text.split('/').collect();
                (is_dir || !dir_only) && path_matches(&globs, &names[..n], 1)
            })
            .is_some_and(|rule| rule.starts_with('-'))
    })
}

/// Whether a term of a watchman expression matches a file.
fn term_matches(term: &Value, path: &str) -> bool {
    let names: Vec<&str> = path.split('/').collect();
    let arg = term[1].as_str().unwrap();
    match term[0].as_str().unwrap() {
        "dirname" => names.len() > 1 && names[0] == arg,
        "name" => path == arg,
        "match" => {
            let globs: Vec<&str> = arg.split('/').collect();
            path_matches(&globs, &names, 0)
        }
        other => panic!("unexpected term {other}"),
    }
}

#[test]
fn rsync_leaves_out_what_the_rules_ignore() {
    let sets = [
        set(&[]),
        set(&[("", "foo\n/abc/**\n")]),
        set(&[("", "build/\na/**/b\n*.tmp\n"), ("sub", "!keep.tmp\nx[0-9]\n")]),
        set(&[("", "*\n!sub\n!foo\n")]),
        set(&[("", "**/foo/**\n!.git\n"), ("sub/deep", "/er/\n")]),
        set(&[("", "q\\]?\n**\n!a/\n")]),
    ];
    for set in &sets {
        let rules = rsync_filter_rules(set).unwrap();
        for path in PATHS {
            assert_eq!(
                rsync_leaves_out(&rules, path),
                set.is_ignored(path, false),
                "{path} under {rules:?}"
            );
        }
    }
}

#[test]
fn watchman_matches_what_the_rules_ignore() {
    let sets = [
        set(&[]),
        set(&[("", "foo\n/abc/**\n")]),
        set(&[("", "build/\na/**/b\n*.tmp\n"), ("sub", "x[0-9]\n")]),
        set(&[("", "??/**/\n"), ("sub/deep", "/er/\n")]),
        set(&[("", "**/foo/**\n"), ("a", "**\n")]),
        set(&[("", "q\\]?\n")]),
    ];
    for set in &sets {
        let expr = watchman_ignored_files_expr(set).unwrap();
        let terms = &expr.as_array().unwrap()[1..];
        for path in PATHS {
            assert_eq!(
                terms.iter().any(|term| term_matches(term, path)),
                set.is_ignored(path, false),
                "{path} under {expr}"
            );
        }
    }
}

#[test]
fn rendered_patterns_read_back() {
    for line in [
        "/a*b?c",
        "/[a-z0]x",
        "/[!]-_a-]",
        "/\\*\\?\\[\\]\\\\",
        "/[\\!x]",
        "/[^\\^]y/**",
        "/a/**/[]-_]",
    ] {
        let rules = rsync_filter_rules(&set(&[("", line)])).unwrap();
        let back = parse_line(&rules[2][2..]).unwrap();
        assert_eq!(back.segments, parse_line(line).unwrap().segments, "{line}");
    }
}

#[test]
fn ranges_with_special_ends_are_best_effort() {
    // `-` behind a single character, as the start of a range, does not read
    // back: it is taken for a range from that character.
    let line = "/[a\\--z]";
    let rules = rsync_filter_rules(&set(&[("", line)])).unwrap();
    let back = parse_line(&rules[2][2..]).unwrap();
    assert_ne!(back.segments, parse_line(line).unwrap().segments);
}

#[test]
fn decimal_numbers() {
    for n in [0, 7, 10, 64, 8388608, u64::MAX] {
        assert_eq!(decimal_text(n), n.to_string());
        assert_eq!(heal_interval(Some(&decimal_text(n))), n);
    }
}
