//! Translation into watchman expressions.

use dsync::{
    watchman_ignored_files_expr, watchman_synced_files_expr, IgnoreSet, TranslateError,
};
use serde_json::Value;

fn expr(sources: &[(&str, &str)]) -> Result<Value, TranslateError> {
    let mut set = IgnoreSet::new();
    for (base, contents) in sources {
        set.add_source(base, contents);
    }
    watchman_ignored_files_expr(&set)
}

fn json(text: &str) -> Value {
    serde_json::from_str(text).unwrap()
}

#[test]
fn negation_is_unsupported() {
    assert!(matches!(
        expr(&[("", "*.tmp\n!keep.tmp\n")]),
        Err(TranslateError::UnsupportedNegation { .. })
    ));
}

#[test]
fn empty_set_is_just_builtins() {
    let e = expr(&[]).unwrap();
    assert_eq!(
        e,
        json(
            r#"[
                "anyof",
                ["dirname", ".git"],
                ["name", ".git", "wholename"],
                ["dirname", ".dsync"],
                ["name", ".dsync", "wholename"]
            ]"#
        )
    );
}

#[test]
fn pattern_terms() {
    let e = expr(&[("sub", "build/\n*.tmp\n")]).unwrap();
    let arr = e.as_array().unwrap();
    // builtins (4) + 1 term for the dir-only pattern + 2 for *.tmp.
    assert_eq!(arr.len(), 1 + 4 + 3);
    assert_eq!(
        arr[5],
        json(r#"["match", "sub/**/build/**", "wholename", {"includedotfiles": true}]"#)
    );
    assert_eq!(
        arr[6],
        json(r#"["match", "sub/**/*.tmp", "wholename", {"includedotfiles": true}]"#)
    );
    assert_eq!(
        arr[7],
        json(r#"["match", "sub/**/*.tmp/**", "wholename", {"includedotfiles": true}]"#)
    );
}

#[test]
fn trailing_doublestar_requires_interior_segment() {
    // `??/**/` matches directories strictly *inside* a `??` directory;
    // the files-under term must therefore require two segments past the
    // `??`. Appending `/**` naively would give `??/**/**`, which
    // watchman's wildmatch collapses to a single `**` (one segment).
    let e = expr(&[("", "??/**/\n")]).unwrap();
    let arr = e.as_array().unwrap();
    assert_eq!(arr.len(), 1 + 4 + 1);
    assert_eq!(
        arr[5],
        json(r#"["match", "??/*/**", "wholename", {"includedotfiles": true}]"#)
    );
    // Non-dir-only: the direct term keeps the trailing `**` (one or more
    // segments inside), and the under-term still requires two.
    let e = expr(&[("", "abc/**\n")]).unwrap();
    let arr = e.as_array().unwrap();
    assert_eq!(
        arr[5],
        json(r#"["match", "abc/**", "wholename", {"includedotfiles": true}]"#)
    );
    assert_eq!(
        arr[6],
        json(r#"["match", "abc/*/**", "wholename", {"includedotfiles": true}]"#)
    );
}

#[test]
fn synced_files_expr_wraps() {
    let mut set = IgnoreSet::new();
    set.add_source("", "*.o\n");
    let e = watchman_synced_files_expr(&set).unwrap();
    let arr = e.as_array().unwrap();
    assert_eq!(arr[0], json(r#""allof""#));
    assert_eq!(arr[1], json(r#"["type", "f"]"#));
    assert_eq!(arr[2].as_array().unwrap()[0], json(r#""not""#));
}

#[test]
fn the_first_negated_pattern_is_reported() {
    let mut set = IgnoreSet::new();
    set.add_source("", "a\n!b\n!c\n");
    set.add_source("", "!d\n");
    match watchman_synced_files_expr(&set) {
        Err(err) => assert_eq!(
            err.message(),
            "negated pattern `!b` cannot be translated to a watchman expression"
        ),
        Ok(_) => panic!("expected an error"),
    }
}

#[test]
fn base_directories_are_escaped() {
    let e = expr(&[("a?", "/x\n")]).unwrap();
    let arr = e.as_array().unwrap();
    assert_eq!(
        arr[5],
        json(r#"["match", "a\\?/x", "wholename", {"includedotfiles": true}]"#)
    );
}

/// Rule sets containing `!` patterns refuse to translate, so the fast path
/// can fall back to a full rsync.
#[test]
fn negated_patterns_refuse_to_translate() {
    let mut set = IgnoreSet::new();
    set.add_source("", "*.tmp\n!keep.tmp\n");
    assert!(matches!(
        watchman_synced_files_expr(&set),
        Err(TranslateError::UnsupportedNegation { .. })
    ));
}
