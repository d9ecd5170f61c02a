//! Parsing and matching of gitignore-style pattern lines.
//!
//! A [`Pattern`] is the structured form of one non-blank, non-comment line of
//! a gitignore-syntax file. The structured representation (path segments,
//! with `**` and per-segment glob tokens made explicit) is shared by the
//! direct evaluator and by the rsync and watchman translators, so that all
//! three consumers agree on what a pattern means.

use crate::text::{
    chars_of, group_views, has_char, opt_view, split, split_chars, views, without_prefix,
    without_suffix,
};
use vstd::prelude::*;

verus! {

/// One token within a single path-segment glob.
#[derive(Debug, Clone, PartialEq, Eq)]
pub enum Tok {
    /// A literal character (after backslash-unescaping).
    Literal(char),
    /// `?`: any single character except `/`.
    AnyChar,
    /// `*`: any run of characters (possibly empty) not crossing `/`.
    /// Consecutive stars within a segment are collapsed: gitignore treats
    /// `a**b` the same as `a*b`.
    Star,
    /// `[...]` bracket expression.
    Class { negated: bool, items: Vec<ClassItem> },
}

/// One element of a bracket expression.
#[derive(Debug, Clone, Copy, PartialEq, Eq)]
pub enum ClassItem {
    Char(char),
    Range(char, char),
}

/// One path segment of a pattern.
#[derive(Debug, Clone, PartialEq, Eq)]
pub enum Segment {
    /// `**` as a whole segment: matches zero or more whole path segments,
    /// except in trailing position where it matches one or more (gitignore's
    /// "`abc/**` matches everything *inside* `abc`").
    DoubleStar,
    /// An ordinary glob over a single path segment.
    Glob(Vec<Tok>),
}

/// A parsed gitignore pattern.
#[derive(Debug, Clone)]
pub struct Pattern {
    /// `!pattern`: a re-include rather than an exclude.
    pub negated: bool,
    /// Trailing `/`: only matches directories.
    pub dir_only: bool,
    /// Whether the pattern contained a non-trailing slash. Unanchored
    /// patterns are normalized into `segments` with a leading
    /// [`Segment::DoubleStar`], so matching code need not consult this; it is
    /// retained so translators can choose more idiomatic output.
    pub anchored: bool,
    /// The normalized segment list, relative to the pattern's base directory.
    pub segments: Vec<Segment>,
    /// The original line text (for diagnostics).
    pub original: String,
}

/// What a [`Tok`] stands for.
pub enum TokView {
    Literal(char),
    AnyChar,
    Star,
    Class { negated: bool, items: Seq<ClassItem> },
}

/// What a [`Segment`] stands for.
pub enum SegmentView {
    DoubleStar,
    Glob(Seq<TokView>),
}

/// What a [`Pattern`] stands for.
pub struct PatternView {
    pub negated: bool,
    pub dir_only: bool,
    pub anchored: bool,
    pub segments: Seq<SegmentView>,
    pub original: Seq<char>,
}

impl View for Tok {
    type V = TokView;

    open spec fn view(&self) -> TokView {
        match self {
            Tok::Literal(c) => TokView::Literal(*c),
            Tok::AnyChar => TokView::AnyChar,
            Tok::Star => TokView::Star,
            Tok::Class { negated, items } => TokView::Class { negated: *negated, items: items@ },
        }
    }
}

impl View for Segment {
    type V = SegmentView;

    open spec fn view(&self) -> SegmentView {
        match self {
            Segment::DoubleStar => SegmentView::DoubleStar,
            Segment::Glob(toks) => SegmentView::Glob(views(toks@)),
        }
    }
}

impl View for Pattern {
    type V = PatternView;

    open spec fn view(&self) -> PatternView {
        PatternView {
            negated: self.negated,
            dir_only: self.dir_only,
            anchored: self.anchored,
            segments: views(self.segments@),
            original: self.original@,
        }
    }
}

// ---------------------------------------------------------------------------
// What a line means
// ---------------------------------------------------------------------------
/// `s` with every occurrence of `x` that directly follows another one removed.
pub open spec fn collapse<T>(s: Seq<T>, x: T) -> Seq<T>
    decreases s.len(),
{
    if s.len() == 0 {
        s
    } else {
        let head = collapse(s.drop_last(), x);
        if s.last() == x && head.len() > 0 && head.last() == x {
            head
        } else {
            head.push(s.last())
        }
    }
}

/// One member character of a bracket expression at the start of `s`, after
/// backslash-unescaping, and the number of characters it takes.
pub open spec fn class_char(s: Seq<char>) -> Option<(char, int)> {
    if s.len() == 0 {
        None
    } else if s[0] != '\\' {
        Some((s[0], 1))
    } else if s.len() >= 2 {
        Some((s[1], 2))
    } else {
        None
    }
}

/// One element of a bracket expression at the start of `s`: a character, or
/// a range `lo-hi` (a `-` directly before the closing `]` is no range).
pub open spec fn class_item(s: Seq<char>) -> Option<(ClassItem, int)> {
    match class_char(s) {
        None => None,
        Some((lo, n)) => {
            let rest = s.skip(n);
            if rest.len() >= 2 && rest[0] == '-' && rest[1] != ']' {
                match class_char(rest.skip(1)) {
                    None => None,
                    Some((hi, m)) => Some((ClassItem::Range(lo, hi), n + 1 + m)),
                }
            } else {
                Some((ClassItem::Char(lo), n))
            }
        },
    }
}

/// The elements of a bracket expression up to and including its closing `]`,
/// and the number of characters they take; a `]` in first position is a
/// member. `None` if the expression is unterminated.
pub open spec fn class_items(s: Seq<char>, first: bool) -> Option<(Seq<ClassItem>, int)>
    decreases s.len(),
{
    if s.len() == 0 {
        None
    } else if s[0] == ']' && !first {
        Some((Seq::empty(), 1))
    } else {
        match class_item(s) {
            None => None,
            Some((item, n)) => match class_items(s.skip(n), false) {
                None => None,
                Some((items, m)) => Some((seq![item] + items, n + m)),
            },
        }
    }
}

proof fn lemma_class_items_bounds(s: Seq<char>, first: bool)
    ensures
        class_items(s, first) matches Some((_, n)) ==> 0 < n <= s.len(),
    decreases s.len(),
{
    if s.len() > 0 && !(s[0] == ']' && !first) {
        if let Some((item, n)) = class_item(s) {
            lemma_class_items_bounds(s.skip(n), false);
        }
    }
}

/// Whether the bracket expression that `s` starts with is negated.
pub open spec fn class_negated(s: Seq<char>) -> bool {
    s.len() >= 2 && (s[1] == '!' || s[1] == '^')
}

/// The bracket expression that `s`, which starts with `[`, begins with, and
/// the number of characters it takes. `None` if it is unterminated.
pub open spec fn class_at(s: Seq<char>) -> Option<(TokView, int)> {
    let start: int = if class_negated(s) {
        2
    } else {
        1
    };
    match class_items(s.skip(start), true) {
        None => None,
        Some((items, n)) => Some(
            (TokView::Class { negated: class_negated(s), items }, start + n),
        ),
    }
}

/// The first token of the non-empty segment text `s`, and the number of
/// characters it takes.
pub open spec fn first_token(s: Seq<char>) -> (TokView, int) {
    if s[0] == '\\' {
        if s.len() >= 2 {
            (TokView::Literal(s[1]), 2)
        } else {
            (TokView::Literal('\\'), 1)
        }
    } else if s[0] == '?' {
        (TokView::AnyChar, 1)
    } else if s[0] == '*' {
        (TokView::Star, 1)
    } else if s[0] == '[' && class_at(s) is Some {
        class_at(s)->0
    } else {
        (TokView::Literal(s[0]), 1)
    }
}

pub proof fn lemma_first_token_bounds(s: Seq<char>)
    requires
        s.len() > 0,
    ensures
        0 < first_token(s).1 <= s.len(),
{
    let start: int = if class_negated(s) {
        2
    } else {
        1
    };
    lemma_class_items_bounds(s.skip(start), true);
}

/// The tokens of a segment's text, every `*` on its own.
pub open spec fn tokens(s: Seq<char>) -> Seq<TokView>
    decreases s.len(),
{
    if s.len() == 0 {
        Seq::empty()
    } else {
        let (tok, n) = first_token(s);
        proof {
            lemma_first_token_bounds(s);
        }
        seq![tok] + tokens(s.skip(n))
    }
}

/// The glob that a segment's text spells: its tokens, runs of `*` collapsed.
pub open spec fn glob_of(s: Seq<char>) -> Seq<TokView> {
    collapse(tokens(s), TokView::Star)
}

/// The pattern segment that the text between two slashes spells.
pub open spec fn segment_of(s: Seq<char>) -> SegmentView {
    if s == seq!['*', '*'] {
        SegmentView::DoubleStar
    } else {
        SegmentView::Glob(glob_of(s))
    }
}

/// The number of backslashes that `s` ends with.
pub open spec fn ending_backslashes(s: Seq<char>) -> nat
    decreases s.len(),
{
    if s.len() == 0 || s.last() != '\\' {
        0
    } else {
        1 + ending_backslashes(s.drop_last())
    }
}

/// Whether what follows `s` is quoted: `s` ends with a backslash that is not
/// itself quoted.
pub open spec fn quotes_next(s: Seq<char>) -> bool {
    ending_backslashes(s) % 2 == 1
}

/// `s` without its trailing spaces, up to one that a backslash quotes.
pub open spec fn without_trailing_spaces(s: Seq<char>) -> Seq<char>
    decreases s.len(),
{
    if s.len() == 0 || s.last() != ' ' || quotes_next(s.drop_last()) {
        s
    } else {
        without_trailing_spaces(s.drop_last())
    }
}

/// The line without a carriage return and without trailing spaces.
pub open spec fn line_body(line: Seq<char>) -> Seq<char> {
    without_trailing_spaces(without_suffix(line, '\r'))
}

/// Whether the line is a comment.
pub open spec fn is_comment(line: Seq<char>) -> bool {
    let s = without_suffix(line, '\r');
    s.len() > 0 && s[0] == '#'
}

/// The pattern text of a line: what is left without `!` and trailing `/`.
pub open spec fn line_pattern(line: Seq<char>) -> Seq<char> {
    without_suffix(without_prefix(line_body(line), '!'), '/')
}

/// The segments of the pattern text `s`, relative to the base directory: an
/// unanchored pattern matches its basename at any depth.
pub open spec fn line_segments(s: Seq<char>) -> Seq<SegmentView> {
    let own = collapse(
        split(without_prefix(s, '/'), '/').map_values(|piece: Seq<char>| segment_of(piece)),
        SegmentView::DoubleStar,
    );
    if s.contains('/') || own == seq![SegmentView::DoubleStar] {
        own
    } else {
        seq![SegmentView::DoubleStar] + own
    }
}

/// The pattern that a line spells. `None` for blank lines, comments, and
/// lines that can never match anything (an empty segment, a bare `/` or `!`).
pub open spec fn pattern_of(line: Seq<char>) -> Option<PatternView> {
    let s = line_pattern(line);
    if is_comment(line) || line_body(line).len() == 0 || split(
        without_prefix(s, '/'),
        '/',
    ).contains(Seq::empty()) {
        None
    } else {
        Some(
            PatternView {
                negated: line_body(line)[0] == '!',
                dir_only: without_prefix(line_body(line), '!').len() > 0 && without_prefix(
                    line_body(line),
                    '!',
                ).last() == '/',
                anchored: s.contains('/'),
                segments: line_segments(s),
                original: line,
            },
        )
    }
}

// ---------------------------------------------------------------------------
// Reading a line
// ---------------------------------------------------------------------------
/// Whether what follows the first `end` characters is quoted.
fn is_quoted(line: &[char], end: usize) -> (yes: bool)
    requires
        end <= line@.len(),
    ensures
        yes == quotes_next(line@.take(end as int)),
{
    let mut at: usize = end;
    let mut odd = false;
    while at > 0 && line[at - 1] == '\\'
        invariant
            at <= end <= line@.len(),
            quotes_next(line@.take(end as int)) == (odd != quotes_next(line@.take(at as int))),
        decreases at,
    {
        proof {
            assert(line@.take(at as int).drop_last() =~= line@.take(at - 1));
        }
        odd = !odd;
        at = at - 1;
    }
    odd
}

/// Strips unescaped trailing spaces, per gitignore: "Trailing spaces are
/// ignored unless they are quoted with backslash". A backslash that another
/// one quotes does not quote the space behind it.
pub fn strip_trailing_spaces(line: &[char]) -> (body: &[char])
    ensures
        body@ == without_trailing_spaces(line@),
{
    let mut end: usize = line.len();
    proof {
        assert(line@.take(end as int) =~= line@);
    }
    while end > 0 && line[end - 1] == ' ' && !is_quoted(line, end - 1)
        invariant
            end <= line@.len(),
            without_trailing_spaces(line@.take(end as int)) == without_trailing_spaces(line@),
        decreases end,
    {
        proof {
            assert(line@.take(end as int).drop_last() =~= line@.take(end - 1));
        }
        end = end - 1;
    }
    proof {
        if end > 0 {
            assert(line@.take(end as int).drop_last() =~= line@.take(end - 1));
        }
    }
    vstd::slice::slice_subrange(line, 0, end)
}

/// Stripping removes spaces at the end and nothing else, never one that is
/// quoted, and leaves none that is not; stripping again changes nothing.
pub proof fn only_unquoted_trailing_spaces_go(line: Seq<char>)
    ensures
        without_trailing_spaces(line).len() <= line.len(),
        line.take(without_trailing_spaces(line).len() as int) == without_trailing_spaces(line),
        forall|k: int|
            without_trailing_spaces(line).len() <= k < line.len() ==> #[trigger] line[k] == ' ',
        without_trailing_spaces(line).len() < line.len() ==> !quotes_next(
            without_trailing_spaces(line),
        ),
        without_trailing_spaces(line).len() > 0 && without_trailing_spaces(line).last() == ' '
            ==> quotes_next(without_trailing_spaces(line).drop_last()),
        without_trailing_spaces(without_trailing_spaces(line)) == without_trailing_spaces(line),
    decreases line.len(),
{
    let body = without_trailing_spaces(line);
    if line.len() == 0 || line.last() != ' ' || quotes_next(line.drop_last()) {
        assert(line.take(line.len() as int) =~= line);
    } else {
        let init = line.drop_last();
        only_unquoted_trailing_spaces_go(init);
        assert(line.take(body.len() as int) =~= init.take(body.len() as int));
        assert forall|k: int| body.len() <= k < line.len() implies #[trigger] line[k] == ' ' by {
            if k < init.len() {
                assert(init[k] == line[k]);
            }
        }
        if body.len() == init.len() {
            assert(body =~= init);
        }
    }
}

/// What is quoted stands directly behind a backslash.
pub proof fn quoted_characters_follow_a_backslash(s: Seq<char>)
    requires
        quotes_next(s),
    ensures
        s.len() > 0,
        s.last() == '\\',
{
}

/// One member character at `chars[i]`: the character and the index just past
/// it.
fn parse_class_char(chars: &[char], i: usize) -> (res: Option<(char, usize)>)
    requires
        i <= chars@.len(),
    ensures
        res matches Some((c, next)) ==> class_char(chars@.skip(i as int)) == Some((c, next - i))
            && i < next <= chars@.len(),
        res is None ==> class_char(chars@.skip(i as int)) is None,
{
    if i >= chars.len() {
        None
    } else if chars[i] != '\\' {
        Some((chars[i], i + 1))
    } else if chars.len() - i >= 2 {
        Some((chars[i + 1], i + 2))
    } else {
        None
    }
}

/// One element of a bracket expression at `chars[i]`: the element and the
/// index just past it.
fn parse_class_item(chars: &[char], i: usize) -> (res: Option<(ClassItem, usize)>)
    requires
        i <= chars@.len(),
    ensures
        res matches Some((item, next)) ==> class_item(chars@.skip(i as int)) == Some(
            (item, next - i),
        ) && i < next <= chars@.len(),
        res is None ==> class_item(chars@.skip(i as int)) is None,
{
    let (lo, after) = match parse_class_char(chars, i) {
        Some(found) => found,
        None => {
            return None;
        },
    };
    proof {
        assert(chars@.skip(i as int).skip(after - i) =~= chars@.skip(after as int));
    }
    if chars.len() - after >= 2 && chars[after] == '-' && chars[after + 1] != ']' {
        proof {
            assert(chars@.skip(after as int).skip(1) =~= chars@.skip(after + 1));
        }
        match parse_class_char(chars, after + 1) {
            Some((hi, next)) => Some((ClassItem::Range(lo, hi), next)),
            None => None,
        }
    } else {
        Some((ClassItem::Char(lo), after))
    }
}

/// Parses a bracket expression starting at `chars[start] == '['`. Returns the
/// token and the index just past the closing `]`, or `None` if unterminated.
fn parse_class(chars: &[char], start: usize) -> (res: Option<(Tok, usize)>)
    requires
        start < chars@.len(),
    ensures
        res matches Some((tok, next)) ==> class_at(chars@.skip(start as int)) == Some(
            (tok@, next - start),
        ) && start < next <= chars@.len(),
        res is None ==> class_at(chars@.skip(start as int)) is None,
{
    let ghost all = chars@.skip(start as int);
    let negated = chars.len() - start >= 2 && (chars[start + 1] == '!' || chars[start + 1] == '^');
    let from: usize = if negated {
        start + 2
    } else {
        start + 1
    };
    let mut i: usize = from;
    let mut items: Vec<ClassItem> = Vec::new();
    let mut first = true;
    let ghost body = chars@.skip(from as int);
    proof {
        assert(all.skip(from - start) =~= body);
        if let Some((rest, n)) = class_items(body, true) {
            assert(items@ + rest =~= rest);
        }
    }
    loop
        invariant
            from <= i <= chars@.len(),
            match class_items(chars@.skip(i as int), first) {
                None => class_items(body, true) is None,
                Some((rest, n)) => class_items(body, true) == Some((items@ + rest, i - from + n)),
            },
            start < from,
            class_at(all) == (match class_items(body, true) {
                None => None::<(TokView, int)>,
                Some((found, n)) => Some(
                    (TokView::Class { negated, items: found }, from - start + n),
                ),
            }),
            all == chars@.skip(start as int),
        ensures
            i < chars@.len(),
            chars@[i as int] == ']',
            !first,
        decreases chars@.len() - i,
    {
        if i >= chars.len() {
            return None;
        }
        if chars[i] == ']' && !first {
            break;
        }
        let ghost here = chars@.skip(i as int);
        let (item, next) = match parse_class_item(chars, i) {
            Some(found) => found,
            None => {
                return None;
            },
        };
        let ghost before = items@;
        items.push(item);
        proof {
            assert(here.skip(next - i) =~= chars@.skip(next as int));
            if let Some((rest, n)) = class_items(chars@.skip(next as int), false) {
                assert(before + (seq![item] + rest) =~= items@ + rest);
            }
        }
        i = next;
        first = false;
    }
    proof {
        assert(items@ + Seq::<ClassItem>::empty() =~= items@);
    }
    Some((Tok::Class { negated, items }, i + 1))
}

/// The token at `chars[i]` and the index just past it.
fn next_token(chars: &[char], i: usize) -> (res: (Tok, usize))
    requires
        i < chars@.len(),
    ensures
        first_token(chars@.skip(i as int)) == (res.0@, res.1 - i),
        i < res.1 <= chars@.len(),
{
    let c = chars[i];
    if c == '\\' {
        if chars.len() - i >= 2 {
            (Tok::Literal(chars[i + 1]), i + 2)
        } else {
            (Tok::Literal('\\'), i + 1)
        }
    } else if c == '?' {
        (Tok::AnyChar, i + 1)
    } else if c == '*' {
        (Tok::Star, i + 1)
    } else if c == '[' {
        match parse_class(chars, i) {
            Some(found) => found,
            // Unterminated bracket: literal `[` (fnmatch behavior).
            None => (Tok::Literal('['), i + 1),
        }
    } else {
        (Tok::Literal(c), i + 1)
    }
}

/// Tokenizes the text of one path segment.
pub fn tokenize(chars: &[char]) -> (toks: Vec<Tok>)
    ensures
        views(toks@) == glob_of(chars@),
{
    broadcast use group_views;

    let mut toks: Vec<Tok> = Vec::new();
    let mut i: usize = 0;
    let ghost mut seen: Seq<TokView> = Seq::empty();
    proof {
        assert(chars@.skip(0) =~= chars@);
        assert(seen + tokens(chars@) =~= tokens(chars@));
    }
    while i < chars.len()
        invariant
            i <= chars@.len(),
            views(toks@) == collapse(seen, TokView::Star),
            seen + tokens(chars@.skip(i as int)) == tokens(chars@),
        decreases chars@.len() - i,
    {
        broadcast use group_views;

        let ghost here = chars@.skip(i as int);
        let (tok, next) = next_token(chars, i);
        let ghost old_seen = seen;
        proof {
            assert(here.skip(next - i) =~= chars@.skip(next as int));
            let rest = tokens(chars@.skip(next as int));
            assert(seen + (seq![tok@] + rest) =~= seen.push(tok@) + rest);
            seen = seen.push(tok@);
            assert(seen.drop_last() =~= old_seen);
        }
        let mut repeated = false;
        if toks.len() > 0 {
            if let Tok::Star = tok {
                if let Tok::Star = toks[toks.len() - 1] {
                    repeated = true;
                }
            }
            proof {
                assert(views(toks@).last() == toks@.last()@);
            }
        }
        if !repeated {
            toks.push(tok);
        }
        i = next;
    }
    proof {
        assert(seen + Seq::<TokView>::empty() =~= seen);
    }
    toks
}

/// The normalized segments that the pieces between the slashes of a pattern
/// spell: runs of `**` are equivalent to one.
fn parse_segments(pieces: &Vec<Vec<char>>) -> (segments: Vec<Segment>)
    ensures
        views(segments@) == collapse(
            views(pieces@).map_values(|piece: Seq<char>| segment_of(piece)),
            SegmentView::DoubleStar,
        ),
{
    broadcast use group_views;

    let ghost all = views(pieces@).map_values(|piece: Seq<char>| segment_of(piece));
    let mut segments: Vec<Segment> = Vec::new();
    for i in 0..pieces.len()
        invariant
            all == views(pieces@).map_values(|piece: Seq<char>| segment_of(piece)),
            views(segments@) == collapse(all.take(i as int), SegmentView::DoubleStar),
    {
        broadcast use group_views;

        let raw = pieces[i].as_slice();
        let seg = if raw.len() == 2 && raw[0] == '*' && raw[1] == '*' {
            proof {
                assert(raw@ =~= seq!['*', '*']);
            }
            Segment::DoubleStar
        } else {
            Segment::Glob(tokenize(raw))
        };
        proof {
            assert(all.take(i + 1).drop_last() =~= all.take(i as int));
            assert(all.take(i + 1).last() == seg@);
        }
        let mut repeated = false;
        if segments.len() > 0 {
            if let Segment::DoubleStar = seg {
                if let Segment::DoubleStar = segments[segments.len() - 1] {
                    repeated = true;
                }
            }
            proof {
                assert(views(segments@).last() == segments@.last()@);
            }
        }
        if !repeated {
            segments.push(seg);
        }
    }
    proof {
        assert(all.take(all.len() as int) =~= all);
    }
    segments
}

/// Whether one of the pieces is empty.
fn has_empty(pieces: &Vec<Vec<char>>) -> (found: bool)
    ensures
        found == views(pieces@).contains(Seq::empty()),
{
    broadcast use group_views;

    for i in 0..pieces.len()
        invariant
            forall|k: int| 0 <= k < i ==> views(pieces@)[k] != Seq::<char>::empty(),
    {
        broadcast use group_views;

        if pieces[i].len() == 0 {
            proof {
                assert(views(pieces@)[i as int] =~= Seq::<char>::empty());
            }
            return true;
        }
    }
    false
}

/// Parses one line of a gitignore-syntax file.
///
/// Returns `None` for blank lines, comments, and lines that can never match
/// anything (e.g. a bare `/` or `!`).
pub fn parse_line(line: &str) -> (parsed: Option<Pattern>)
    ensures
        opt_view(parsed) == pattern_of(line@),
{
    broadcast use group_views;

    let all = chars_of(line);
    let mut body: &[char] = all.as_slice();
    if body.len() > 0 && body[body.len() - 1] == '\r' {
        body = vstd::slice::slice_subrange(body, 0, body.len() - 1);
        proof {
            assert(body@ =~= all@.drop_last());
        }
    }
    if body.len() > 0 && body[0] == '#' {
        return None;
    }
    body = strip_trailing_spaces(body);
    if body.len() == 0 {
        return None;
    }
    let negated = body[0] == '!';
    if negated {
        let ghost whole = body@;
        body = vstd::slice::slice_subrange(body, 1, body.len());
        proof {
            assert(body@ =~= whole.skip(1));
        }
    }
    let dir_only = body.len() > 0 && body[body.len() - 1] == '/';
    if dir_only {
        let ghost whole = body@;
        body = vstd::slice::slice_subrange(body, 0, body.len() - 1);
        proof {
            assert(body@ =~= whole.drop_last());
        }
    }
    let anchored = has_char(body, '/');
    let ghost text = body@;
    if body.len() > 0 && body[0] == '/' {
        body = vstd::slice::slice_subrange(body, 1, body.len());
        proof {
            assert(body@ =~= text.skip(1));
        }
    }
    let pieces = split_chars(body, '/');
    if has_empty(&pieces) {
        return None;
    }
    let mut segments = parse_segments(&pieces);
    let ghost own = views(segments@);
    if !anchored {
        // An unanchored pattern matches its basename at any depth.
        let mut bare = false;
        if segments.len() == 1 {
            if let Segment::DoubleStar = segments[0] {
                bare = true;
            }
        }
        proof {
            assert(bare == (own == seq![SegmentView::DoubleStar])) by {
                if bare {
                    assert(own =~= seq![SegmentView::DoubleStar]);
                } else if own == seq![SegmentView::DoubleStar] {
                    assert(own[0] == segments@[0]@);
                }
            }
        }
        if !bare {
            segments.insert(0, Segment::DoubleStar);
            proof {
                assert(views(segments@) =~= seq![SegmentView::DoubleStar] + own);
            }
        }
    }
    Some(Pattern { negated, dir_only, anchored, segments, original: line.to_string() })
}

// ---------------------------------------------------------------------------
// What a pattern matches
// ---------------------------------------------------------------------------
/// Whether `c` is what the element of a bracket expression stands for.
pub open spec fn item_has(item: ClassItem, c: char) -> bool {
    match item {
        ClassItem::Char(x) => c == x,
        ClassItem::Range(lo, hi) => lo <= c && c <= hi,
    }
}

/// Whether some element of a bracket expression stands for `c`.
pub open spec fn items_have(items: Seq<ClassItem>, c: char) -> bool {
    exists|i: int| 0 <= i < items.len() && item_has(#[trigger] items[i], c)
}

/// Whether the single-character token `tok` matches `c`.
pub open spec fn tok_matches(tok: TokView, c: char) -> bool {
    match tok {
        TokView::Literal(x) => c == x,
        TokView::AnyChar => true,
        TokView::Star => false,
        TokView::Class { negated, items } => items_have(items, c) != negated,
    }
}

/// Whether the glob `toks` matches the whole segment `s`.
pub open spec fn glob_matches(toks: Seq<TokView>, s: Seq<char>) -> bool
    decreases toks.len(),
{
    if toks.len() == 0 {
        s.len() == 0
    } else if toks[0] is Star {
        exists|i: int| 0 <= i <= s.len() && glob_matches(toks.skip(1), #[trigger] s.skip(i))
    } else {
        s.len() > 0 && tok_matches(toks[0], s[0]) && glob_matches(toks.skip(1), s.skip(1))
    }
}

/// A leading `*` takes some run of characters.
pub proof fn lemma_glob_star(toks: Seq<TokView>, s: Seq<char>)
    requires
        toks.len() > 0,
        toks[0] is Star,
    ensures
        glob_matches(toks, s) == (exists|i: int|
            0 <= i <= s.len() && glob_matches(toks.skip(1), #[trigger] s.skip(i))),
{
}

/// Whether the segments `pat` match the whole path `path`: `**` takes zero
/// or more path segments, in trailing position one or more.
pub open spec fn segments_match(pat: Seq<SegmentView>, path: Seq<Seq<char>>) -> bool
    decreases pat.len(),
{
    if pat.len() == 0 {
        path.len() == 0
    } else {
        match pat[0] {
            SegmentView::DoubleStar => if pat.len() == 1 {
                path.len() > 0
            } else {
                exists|i: int|
                    0 <= i <= path.len() && segments_match(pat.skip(1), #[trigger] path.skip(i))
            },
            SegmentView::Glob(toks) => path.len() > 0 && glob_matches(toks, path[0])
                && segments_match(pat.skip(1), path.skip(1)),
        }
    }
}

/// A leading `**` with something behind it takes some run of path segments.
pub proof fn lemma_segments_double_star(pat: Seq<SegmentView>, path: Seq<Seq<char>>)
    requires
        pat.len() > 1,
        pat[0] is DoubleStar,
    ensures
        segments_match(pat, path) == (exists|i: int|
            0 <= i <= path.len() && segments_match(pat.skip(1), #[trigger] path.skip(i))),
{
}

/// No pattern with a segment matches the empty path.
pub proof fn lemma_no_empty_path(segs: Seq<SegmentView>, path: Seq<Seq<char>>)
    requires
        segs.len() > 0,
        path.len() == 0,
    ensures
        !segments_match(segs, path),
    decreases segs.len(),
{
    if segs[0] is DoubleStar && segs.len() > 1 {
        assert forall|i: int| 0 <= i <= path.len() implies !segments_match(
            segs.skip(1),
            #[trigger] path.skip(i),
        ) by {
            lemma_no_empty_path(segs.skip(1), path.skip(i));
        }
    }
}

/// Whether a pattern matches `path`, taken by itself.
pub open spec fn pattern_matches(p: PatternView, path: Seq<Seq<char>>, is_dir: bool) -> bool {
    path.len() > 0 && (p.dir_only ==> is_dir) && segments_match(p.segments, path)
}

/// Whether `c` is one of the characters that the bracket expression lists.
fn class_contains(items: &Vec<ClassItem>, c: char) -> (found: bool)
    ensures
        found == items_have(items@, c),
{
    for i in 0..items.len()
        invariant
            forall|k: int| 0 <= k < i ==> !item_has(#[trigger] items@[k], c),
    {
        let inside = match items[i] {
            ClassItem::Char(x) => c == x,
            ClassItem::Range(lo, hi) => lo <= c && c <= hi,
        };
        if inside {
            proof {
                assert(item_has(items@[i as int], c));
            }
            return true;
        }
    }
    false
}

fn match_glob(toks: &[Tok], s: &[char]) -> (matched: bool)
    ensures
        matched == glob_matches(views(toks@), s@),
    decreases toks@.len(), 0int,
{
    broadcast use group_views;

    if toks.len() == 0 {
        return s.len() == 0;
    }
    let rest = vstd::slice::slice_subrange(toks, 1, toks.len());
    proof {
        assert(views(rest@) =~= views(toks@).skip(1));
    }
    match &toks[0] {
        Tok::Star => {
            proof {
                lemma_glob_star(views(toks@), s@);
            }
            let mut i: usize = 0;
            loop
                invariant
                    i <= s@.len(),
                    views(rest@) == views(toks@).skip(1),
                    rest@.len() < toks@.len(),
                    glob_matches(views(toks@), s@) == (exists|k: int|
                        0 <= k <= s@.len() && glob_matches(
                            views(toks@).skip(1),
                            #[trigger] s@.skip(k),
                        )),
                    forall|k: int|
                        0 <= k < i ==> !glob_matches(views(toks@).skip(1), #[trigger] s@.skip(k)),
                decreases s@.len() - i,
            {
                let tail = vstd::slice::slice_subrange(s, i, s.len());
                proof {
                    assert(tail@ =~= s@.skip(i as int));
                }
                if match_glob(rest, tail) {
                    return true;
                }
                if i == s.len() {
                    return false;
                }
                i = i + 1;
            }
        },
        Tok::AnyChar => s.len() > 0 && match_glob_rest(rest, s),
        Tok::Literal(c) => s.len() > 0 && s[0] == *c && match_glob_rest(rest, s),
        Tok::Class { negated, items } => s.len() > 0 && class_contains(items, s[0]) != *negated
            && match_glob_rest(rest, s),
    }
}

/// Matches `rest` against all but the first character of `s`.
fn match_glob_rest(rest: &[Tok], s: &[char]) -> (matched: bool)
    requires
        s@.len() > 0,
    ensures
        matched == glob_matches(views(rest@), s@.skip(1)),
    decreases rest@.len(), 1int,
{
    let tail = vstd::slice::slice_subrange(s, 1, s.len());
    proof {
        assert(tail@ =~= s@.skip(1));
    }
    match_glob(rest, tail)
}

fn match_segments(pat: &[Segment], path: &[Vec<char>]) -> (matched: bool)
    ensures
        matched == segments_match(views(pat@), views(path@)),
    decreases pat@.len(),
{
    broadcast use group_views;

    if pat.len() == 0 {
        return path.len() == 0;
    }
    let rest = vstd::slice::slice_subrange(pat, 1, pat.len());
    proof {
        assert(views(rest@) =~= views(pat@).skip(1));
    }
    match &pat[0] {
        Segment::DoubleStar => {
            if rest.len() == 0 {
                // Trailing `**` matches everything inside, i.e. one or more
                // remaining segments.
                return path.len() > 0;
            }
            proof {
                lemma_segments_double_star(views(pat@), views(path@));
            }
            let mut i: usize = 0;
            loop
                invariant
                    i <= path@.len(),
                    views(rest@) == views(pat@).skip(1),
                    rest@.len() < pat@.len(),
                    segments_match(views(pat@), views(path@)) == (exists|k: int|
                        0 <= k <= path@.len() && segments_match(
                            views(pat@).skip(1),
                            #[trigger] views(path@).skip(k),
                        )),
                    forall|k: int|
                        0 <= k < i ==> !segments_match(
                            views(pat@).skip(1),
                            #[trigger] views(path@).skip(k),
                        ),
                decreases path@.len() - i,
            {
                broadcast use group_views;

                let tail = vstd::slice::slice_subrange(path, i, path.len());
                proof {
                    assert(views(tail@) =~= views(path@).skip(i as int));
                }
                if match_segments(rest, tail) {
                    return true;
                }
                if i == path.len() {
                    return false;
                }
                i = i + 1;
            }
        },
        Segment::Glob(toks) => {
            if path.len() == 0 {
                return false;
            }
            let tail = vstd::slice::slice_subrange(path, 1, path.len());
            proof {
                assert(views(tail@) =~= views(path@).skip(1));
            }
            match_glob(toks.as_slice(), path[0].as_slice()) && match_segments(rest, tail)
        },
    }
}

impl Pattern {
    /// Does this pattern match `path` (segments relative to the pattern's
    /// base directory)? `is_dir` is whether the path names a directory.
    ///
    /// This is a *single-path* match: the gitignore rule that everything
    /// under an ignored directory stays ignored is the evaluator's job, not
    /// the pattern's.
    pub fn matches(&self, path: &[&str], is_dir: bool) -> (matched: bool)
        ensures
            matched == pattern_matches(self@, views(path@), is_dir),
    {
        broadcast use group_views;

        let mut segs: Vec<Vec<char>> = Vec::new();
        for i in 0..path.len()
            invariant
                views(segs@) == views(path@).take(i as int),
        {
            broadcast use group_views;

            segs.push(chars_of(path[i]));
            proof {
                assert(views(path@).take(i + 1) =~= views(path@).take(i as int).push(path@[i as int]@));
            }
        }
        proof {
            assert(views(path@).take(path@.len() as int) =~= views(path@));
        }
        self.matches_segments(segs.as_slice(), is_dir)
    }

    /// [`Pattern::matches`] on segments already split into characters.
    pub(crate) fn matches_segments(&self, path: &[Vec<char>], is_dir: bool) -> (matched: bool)
        ensures
            matched == pattern_matches(self@, views(path@), is_dir),
    {
        if path.len() == 0 {
            return false;
        }
        if self.dir_only && !is_dir {
            return false;
        }
        match_segments(self.segments.as_slice(), path)
    }
}

} // verus!
