//! Reading and matching pattern lines.

use dsync::pattern::{strip_trailing_spaces, tokenize};
use dsync::render::{render_glob, render_literal};
use dsync::{parse_line, ClassItem, Pattern, Segment, Tok};

fn pat(line: &str) -> Pattern {
    parse_line(line).expect("pattern should parse")
}

fn matches(line: &str, path: &str, is_dir: bool) -> bool {
    let segs: Vec<&str> = path.split('/').collect();
    pat(line).matches(&segs, is_dir)
}

#[test]
fn blank_and_comment_lines() {
    assert!(parse_line("").is_none());
    assert!(parse_line("   ").is_none());
    assert!(parse_line("# comment").is_none());
    assert!(parse_line("/").is_none());
    assert!(parse_line("!").is_none());
    assert!(parse_line("a//b").is_none());
}

#[test]
fn escaped_hash_and_bang() {
    let p = pat("\\#literal");
    assert!(!p.negated);
    assert!(p.matches(&["#literal"], false));
    let p = pat("\\!literal");
    assert!(!p.negated);
    assert!(p.matches(&["!literal"], false));
}

#[test]
fn trailing_spaces() {
    assert!(matches("foo  ", "foo", false));
    assert!(!matches("foo  ", "foo  ", false));
    let p = pat("foo\\ ");
    assert!(p.matches(&["foo "], false));
}

#[test]
fn basename_match_any_depth() {
    assert!(matches("foo", "foo", false));
    assert!(matches("foo", "a/b/foo", false));
    assert!(!matches("foo", "foo/bar", false));
    assert!(!matches("foo", "xfoo", false));
}

#[test]
fn anchored() {
    assert!(matches("/foo", "foo", false));
    assert!(!matches("/foo", "a/foo", false));
    assert!(matches("a/b", "a/b", false));
    assert!(!matches("a/b", "x/a/b", false));
}

#[test]
fn dir_only() {
    assert!(matches("build/", "build", true));
    assert!(!matches("build/", "build", false));
    assert!(matches("build/", "a/build", true));
}

#[test]
fn single_star_does_not_cross_slash() {
    assert!(matches("a/*", "a/b", false));
    assert!(!matches("a/*", "a/b/c", false));
    assert!(matches("*.txt", "x/y.txt", false));
    assert!(matches("a/*", "a/.hidden", false));
}

#[test]
fn double_star() {
    // Leading **/: any depth, including zero.
    assert!(matches("**/foo", "foo", false));
    assert!(matches("**/foo", "a/b/foo", false));
    // Trailing /**: everything inside, but not the dir itself.
    assert!(matches("abc/**", "abc/x", false));
    assert!(matches("abc/**", "abc/x/y", false));
    assert!(!matches("abc/**", "abc", true));
    // Middle /**/: zero or more directories.
    assert!(matches("a/**/b", "a/b", false));
    assert!(matches("a/**/b", "a/x/b", false));
    assert!(matches("a/**/b", "a/x/y/b", false));
    // Segment-internal ** is just *.
    assert!(matches("a**b", "ab", false));
    assert!(matches("a**b", "axxb", false));
    assert!(!matches("a**b", "a/b", false));
}

#[test]
fn classes() {
    assert!(matches("[ab]c", "ac", false));
    assert!(matches("[ab]c", "bc", false));
    assert!(!matches("[ab]c", "cc", false));
    assert!(matches("[a-z]x", "qx", false));
    assert!(matches("[!a]x", "bx", false));
    assert!(!matches("[!a]x", "ax", false));
    // Unterminated class is a literal '['.
    assert!(matches("a[b", "a[b", false));
    // ']' directly after '[' (or '[!') is a literal member.
    assert!(matches("[]a]x", "]x", false));
    assert!(matches("[]a]x", "ax", false));
}

#[test]
fn escaped_wildcards() {
    assert!(matches("a\\*b", "a*b", false));
    assert!(!matches("a\\*b", "axb", false));
    assert!(matches("a\\?b", "a?b", false));
    assert!(!matches("a\\?b", "axb", false));
}

#[test]
fn negation_flag() {
    assert!(pat("!foo").negated);
    assert!(!pat("foo").negated);
}

#[test]
fn structure_of_a_pattern() {
    let p = pat("!a*/[^x-z-]/");
    assert!(p.negated);
    assert!(p.dir_only);
    assert!(p.anchored);
    assert_eq!(p.original, "!a*/[^x-z-]/");
    assert_eq!(
        p.segments,
        vec![
            Segment::Glob(vec![Tok::Literal('a'), Tok::Star]),
            Segment::Glob(vec![Tok::Class {
                negated: true,
                items: vec![ClassItem::Range('x', 'z'), ClassItem::Char('-')],
            }]),
        ]
    );
    // Without a slash, the basename matches at any depth.
    let p = pat("x?");
    assert!(!p.anchored);
    assert_eq!(
        p.segments,
        vec![Segment::DoubleStar, Segment::Glob(vec![Tok::Literal('x'), Tok::AnyChar])]
    );
    // Runs of stars, and of double stars, collapse.
    let p = pat("a***b/**/**/c");
    assert_eq!(
        p.segments,
        vec![
            Segment::Glob(vec![Tok::Literal('a'), Tok::Star, Tok::Literal('b')]),
            Segment::DoubleStar,
            Segment::Glob(vec![Tok::Literal('c')]),
        ]
    );
    // A bare `**` stays one segment.
    assert_eq!(pat("**").segments, vec![Segment::DoubleStar]);
}

#[test]
fn escapes_and_odd_brackets() {
    // A trailing backslash stands for itself.
    assert!(matches("a\\", "a\\", false));
    // Escapes inside a bracket expression.
    assert!(matches("[\\]]x", "]x", false));
    assert!(matches("[a\\-z]x", "-x", false));
    assert!(!matches("[a\\-z]x", "mx", false));
    // A `-` directly before the closing bracket is a member.
    assert!(matches("[a-]x", "-x", false));
    // An empty-looking expression is unterminated.
    assert!(matches("[]", "[]", false));
    assert!(matches("caf?", "café", false));
}

fn stripped(line: &str) -> String {
    let chars: Vec<char> = line.chars().collect();
    strip_trailing_spaces(&chars).iter().collect()
}

#[test]
fn a_quoted_backslash_quotes_no_space() {
    // A backslash and a stripped space.
    assert_eq!(stripped("a\\\\ "), "a\\\\");
    assert!(matches("a\\\\ ", "a\\", false));
    assert!(!matches("a\\\\ ", "a\\ ", false));
    // A backslash and a space of the pattern.
    assert_eq!(stripped("a\\\\\\ "), "a\\\\\\ ");
    assert!(matches("a\\\\\\ ", "a\\ ", false));
    // Two backslashes and a stripped space.
    assert!(matches("a\\\\\\\\ ", "a\\\\", false));
    // A line of nothing else.
    assert!(matches("\\\\ ", "\\", false));
    assert!(matches("\\ ", " ", false));
}

#[test]
fn only_unquoted_trailing_spaces_are_stripped() {
    for (line, body) in [
        ("", ""),
        ("   ", ""),
        ("a b", "a b"),
        ("a b  ", "a b"),
        ("a\\ ", "a\\ "),
        ("a\\   ", "a\\ "),
        ("a \\ ", "a \\ "),
        ("a\\\\   ", "a\\\\"),
    ] {
        assert_eq!(stripped(line), body, "{line:?}");
        assert_eq!(stripped(body), body);
    }
}

#[test]
fn rendered_names_and_globs_read_back() {
    let name: Vec<char> = "a*[?]\\-!^ é".chars().collect();
    let text = render_literal(&name);
    let chars: Vec<char> = text.chars().collect();
    assert_ne!(chars, name);
    let literals: Vec<Tok> = name.iter().map(|c| Tok::Literal(*c)).collect();
    assert_eq!(tokenize(&chars), literals);

    let glob: Vec<char> = "x?[!a-c]*\\*".chars().collect();
    let toks = tokenize(&glob);
    let text: Vec<char> = render_glob(&toks).chars().collect();
    assert_eq!(tokenize(&text), toks);
}
