//! Translation into rsync filter rules.

use dsync::{rsync_filter_rules, IgnoreSet, TranslateError};

fn rules(sources: &[(&str, &str)]) -> Vec<String> {
    let mut set = IgnoreSet::new();
    for (base, contents) in sources {
        set.add_source(base, contents);
    }
    rsync_filter_rules(&set).unwrap()
}

#[test]
fn builtins_come_first() {
    let r = rules(&[("", "foo\n")]);
    assert_eq!(r[0], "- /.git");
    assert_eq!(r[1], "- /.dsync");
}

#[test]
fn unanchored_pattern_expands_to_both_depths() {
    let r = rules(&[("", "foo\n")]);
    assert_eq!(r[2..], ["- /**/foo", "- /foo"]);
}

#[test]
fn anchored_pattern_is_anchored() {
    let r = rules(&[("", "/foo\n")]);
    assert_eq!(r[2..], ["- /foo"]);
}

#[test]
fn base_dir_prefixes_rules() {
    let r = rules(&[("sub/dir", "/x.txt\n")]);
    assert_eq!(r[2..], ["- /sub/dir/x.txt"]);
}

#[test]
fn rules_are_emitted_in_reverse_precedence_order() {
    let r = rules(&[("", "/a\n/b\n"), ("", "/c\n")]);
    assert_eq!(r[2..], ["- /c", "- /b", "- /a"]);
}

#[test]
fn negation_and_dir_only() {
    let r = rules(&[("", "build/\n!/keep/\n")]);
    assert_eq!(r[2..], ["+ /keep/", "- /**/build/", "- /build/"]);
}

#[test]
fn middle_doublestar_expands() {
    let r = rules(&[("", "a/**/b\n")]);
    assert_eq!(r[2..], ["- /a/**/b", "- /a/b"]);
}

#[test]
fn trailing_doublestar_is_kept() {
    let r = rules(&[("", "abc/**\n")]);
    assert_eq!(r[2..], ["- /abc/**"]);
}

#[test]
fn bare_doublestar() {
    let r = rules(&[("", "**\n")]);
    assert_eq!(r[2..], ["- /**"]);
}

#[test]
fn too_many_variants_is_an_error() {
    let mut set = IgnoreSet::new();
    set.add_source("", "a/**/b/**/c/**/d/**/e/**/f\n");
    assert!(matches!(
        rsync_filter_rules(&set),
        Err(TranslateError::TooManyVariants { .. })
    ));
}

#[test]
fn literal_metacharacters_are_escaped() {
    let r = rules(&[("", "/a\\*b\n")]);
    assert_eq!(r[2..], ["- /a\\*b"]);
}

#[test]
fn sixteen_variants_still_translate() {
    let r = rules(&[("", "a/**/b/**/c/**/d/**/e\n")]);
    assert_eq!(r.len(), 2 + 16);
    assert_eq!(r[2], "- /a/**/b/**/c/**/d/**/e");
    assert_eq!(r[17], "- /a/b/c/d/e");
}

#[test]
fn the_highest_precedence_pattern_is_reported() {
    let mut set = IgnoreSet::new();
    set.add_source("", "1/**/b/**/c/**/d/**/e/**/f\n2/**/b/**/c/**/d/**/e/**/f\n");
    set.add_source("sub", "fine\n");
    match rsync_filter_rules(&set) {
        Err(err) => assert_eq!(
            err.message(),
            "pattern `2/**/b/**/c/**/d/**/e/**/f` expands to too many rsync filter variants"
        ),
        Ok(_) => panic!("expected an error"),
    }
}

#[test]
fn classes_and_metacharacters_in_base_directories() {
    let r = rules(&[("a*b/[c]", "/[!x]?\n")]);
    assert_eq!(r[2..], ["- /a\\*b/\\[c\\]/[!x]?"]);
    let r = rules(&[("", "/[\\!a]\n")]);
    assert_eq!(r[2..], ["- /[\\!a]"]);
}
