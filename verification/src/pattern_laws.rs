//! What holds of every pattern line, stated on its text.

use crate::eval_laws::unanchored_patterns_match_the_basename;
use crate::load_laws::splitting_undoes_joining;
use crate::pattern::{
    class_at, class_item, class_items, class_negated, collapse, ending_backslashes, first_token,
    glob_matches, glob_of, is_comment, item_has, items_have, lemma_first_token_bounds, line_body,
    line_pattern, pattern_matches, pattern_of, quotes_next, segment_of, segments_match, tokens,
    without_trailing_spaces, ClassItem, PatternView, SegmentView, TokView,
};
use crate::text::{join, split, without_prefix, without_suffix};
use vstd::prelude::*;

verus! {

// ---------------------------------------------------------------------------
// Runs of stars
// ---------------------------------------------------------------------------
proof fn lemma_collapse_front<T>(x: T, rest: Seq<T>, star: T)
    ensures
        collapse(seq![x] + rest, star) == (if x == star && rest.len() > 0 && rest[0] == star {
            collapse(rest, star)
        } else {
            seq![x] + collapse(rest, star)
        }),
        rest.len() > 0 ==> collapse(rest, star).len() > 0 && collapse(rest, star)[0] == rest[0],
    decreases rest.len(),
{
    let all = seq![x] + rest;
    if rest.len() == 0 {
        assert(all.drop_last() =~= Seq::empty());
        reveal_with_fuel(collapse, 2);
        assert(collapse(all, star) =~= seq![x]);
        assert(seq![x] + collapse(rest, star) =~= seq![x]);
    } else {
        let init = rest.drop_last();
        lemma_collapse_front(x, init, star);
        assert(all.drop_last() =~= seq![x] + init);
        assert(all.last() == rest.last());
        if init.len() == 0 {
            assert(collapse(init, star) =~= Seq::empty());
            assert(rest =~= seq![rest[0]]);
            assert(collapse(rest, star) =~= rest);
            assert(seq![x] + collapse(init, star) =~= seq![x]);
        }
        assert(collapse(all, star) =~= (if x == star && rest[0] == star {
            collapse(rest, star)
        } else {
            seq![x] + collapse(rest, star)
        }));
    }
}

proof fn lemma_two_stars(rest: Seq<TokView>, s: Seq<char>)
    requires
        rest.len() > 0,
        rest[0] is Star,
    ensures
        glob_matches(seq![TokView::Star] + rest, s) == glob_matches(rest, s),
{
    let all = seq![TokView::Star] + rest;
    assert(all.skip(1) =~= rest);
    if glob_matches(all, s) {
        let i = choose|i: int| 0 <= i <= s.len() && glob_matches(rest, #[trigger] s.skip(i));
        let j = choose|j: int|
            0 <= j <= s.skip(i).len() && glob_matches(rest.skip(1), #[trigger] s.skip(i).skip(j));
        assert(s.skip(i).skip(j) =~= s.skip(i + j));
    }
    if glob_matches(rest, s) {
        assert(s.skip(0) =~= s);
        assert(glob_matches(rest, s.skip(0)));
    }
}

proof fn lemma_same_tail(x: TokView, a: Seq<TokView>, b: Seq<TokView>, s: Seq<char>)
    requires
        forall|r: Seq<char>| glob_matches(a, r) == glob_matches(b, r),
    ensures
        glob_matches(seq![x] + a, s) == glob_matches(seq![x] + b, s),
{
    assert((seq![x] + a).skip(1) =~= a);
    assert((seq![x] + b).skip(1) =~= b);
    if x is Star {
        if glob_matches(seq![x] + a, s) {
            let i = choose|i: int| 0 <= i <= s.len() && glob_matches(a, #[trigger] s.skip(i));
            assert(glob_matches(b, s.skip(i)));
        }
        if glob_matches(seq![x] + b, s) {
            let i = choose|i: int| 0 <= i <= s.len() && glob_matches(b, #[trigger] s.skip(i));
            assert(glob_matches(a, s.skip(i)));
        }
    } else {
        assert(glob_matches(a, s.skip(1)) == glob_matches(b, s.skip(1)));
    }
}

/// A run of `*` matches what a single one does.
pub proof fn runs_of_stars_match_as_one(toks: Seq<TokView>, s: Seq<char>)
    ensures
        glob_matches(collapse(toks, TokView::Star), s) == glob_matches(toks, s),
    decreases toks.len(),
{
    if toks.len() == 0 {
    } else {
        let x = toks[0];
        let rest = toks.skip(1);
        assert(toks =~= seq![x] + rest);
        lemma_collapse_front(x, rest, TokView::Star);
        assert forall|r: Seq<char>|
            glob_matches(collapse(rest, TokView::Star), r) == glob_matches(rest, r) by {
            runs_of_stars_match_as_one(rest, r);
        }
        if x is Star && rest.len() > 0 && rest[0] is Star {
            lemma_two_stars(rest, s);
        } else {
            lemma_same_tail(x, collapse(rest, TokView::Star), rest, s);
        }
    }
}

proof fn lemma_text_front(text: Seq<char>, s: Seq<char>)
    requires
        text.len() > 0,
    ensures
        0 < first_token(text).1 <= text.len(),
        glob_matches(glob_of(text), s) == glob_matches(
            seq![first_token(text).0] + glob_of(text.skip(first_token(text).1)),
            s,
        ),
{
    lemma_first_token_bounds(text);
    let (tok, n) = first_token(text);
    let rest = tokens(text.skip(n));
    runs_of_stars_match_as_one(tokens(text), s);
    assert forall|r: Seq<char>|
        glob_matches(rest, r) == glob_matches(glob_of(text.skip(n)), r) by {
        runs_of_stars_match_as_one(rest, r);
    }
    lemma_same_tail(tok, rest, glob_of(text.skip(n)), s);
}

// ---------------------------------------------------------------------------
// One segment
// ---------------------------------------------------------------------------
/// Whether the text of one segment matches a name.
pub open spec fn text_matches(text: Seq<char>, name: Seq<char>) -> bool {
    glob_matches(glob_of(text), name)
}

/// No text matches only no name.
pub proof fn empty_text_matches_nothing(name: Seq<char>)
    ensures
        text_matches(Seq::empty(), name) <==> name.len() == 0,
{
    reveal_with_fuel(tokens, 1);
    assert(glob_of(Seq::empty()) =~= Seq::empty());
}

/// A character without a meaning of its own matches itself.
pub proof fn plain_characters_match_themselves(c: char, rest: Seq<char>, name: Seq<char>)
    requires
        c != '\\',
        c != '?',
        c != '*',
        c != '[',
    ensures
        text_matches(seq![c] + rest, name) <==> name.len() > 0 && name[0] == c && text_matches(
            rest,
            name.skip(1),
        ),
{
    let text = seq![c] + rest;
    lemma_text_front(text, name);
    assert(text.skip(1) =~= rest);
    let toks = seq![TokView::Literal(c)] + glob_of(rest);
    assert(toks.skip(1) =~= glob_of(rest));
}

/// A backslash makes the character behind it match itself, whatever it is.
pub proof fn quoted_characters_match_themselves(c: char, rest: Seq<char>, name: Seq<char>)
    ensures
        text_matches(seq!['\\', c] + rest, name) <==> name.len() > 0 && name[0] == c
            && text_matches(rest, name.skip(1)),
{
    let text = seq!['\\', c] + rest;
    lemma_text_front(text, name);
    assert(text.skip(2) =~= rest);
    let toks = seq![TokView::Literal(c)] + glob_of(rest);
    assert(toks.skip(1) =~= glob_of(rest));
}

/// A backslash at the end stands for itself.
pub proof fn backslashes_at_the_end_match_themselves(name: Seq<char>)
    ensures
        text_matches(seq!['\\'], name) <==> name == seq!['\\'],
{
    let text: Seq<char> = seq!['\\'];
    lemma_text_front(text, name);
    assert(text.skip(1) =~= Seq::empty());
    let toks = seq![TokView::Literal('\\')] + glob_of(Seq::empty());
    assert(toks.skip(1) =~= glob_of(Seq::empty()));
    if name.len() > 0 {
        empty_text_matches_nothing(name.skip(1));
    }
    if name.len() == 1 {
        assert(name =~= seq![name[0]]);
    }
}

/// `?` matches any one character.
pub proof fn question_marks_match_any_character(rest: Seq<char>, name: Seq<char>)
    ensures
        text_matches(seq!['?'] + rest, name) <==> name.len() > 0 && text_matches(
            rest,
            name.skip(1),
        ),
{
    let text = seq!['?'] + rest;
    lemma_text_front(text, name);
    assert(text.skip(1) =~= rest);
    let toks = seq![TokView::AnyChar] + glob_of(rest);
    assert(toks.skip(1) =~= glob_of(rest));
}

/// `*` matches any run of characters, also none.
pub proof fn stars_match_any_run(rest: Seq<char>, name: Seq<char>)
    ensures
        text_matches(seq!['*'] + rest, name) <==> exists|i: int|
            0 <= i <= name.len() && text_matches(rest, #[trigger] name.skip(i)),
{
    let text = seq!['*'] + rest;
    lemma_text_front(text, name);
    assert(text.skip(1) =~= rest);
    let toks = seq![TokView::Star] + glob_of(rest);
    assert(toks.skip(1) =~= glob_of(rest));
    if text_matches(text, name) {
        let i = choose|i: int|
            0 <= i <= name.len() && glob_matches(glob_of(rest), #[trigger] name.skip(i));
        assert(text_matches(rest, name.skip(i)));
    }
    if exists|i: int| 0 <= i <= name.len() && text_matches(rest, #[trigger] name.skip(i)) {
        let i = choose|i: int| 0 <= i <= name.len() && text_matches(rest, #[trigger] name.skip(i));
        assert(glob_matches(glob_of(rest), name.skip(i)));
    }
}

/// An element of a bracket expression as text, its characters quoted.
pub open spec fn quoted_item(item: ClassItem) -> Seq<char> {
    match item {
        ClassItem::Char(c) => seq!['\\', c],
        ClassItem::Range(lo, hi) => seq!['\\', lo, '-', '\\', hi],
    }
}

/// The elements of a bracket expression as text, their characters quoted.
pub open spec fn quoted_items(items: Seq<ClassItem>) -> Seq<char>
    decreases items.len(),
{
    if items.len() == 0 {
        Seq::empty()
    } else {
        quoted_item(items[0]) + quoted_items(items.skip(1))
    }
}

/// Whether a character is one of those that the elements list: it is one of
/// the single ones, or lies between the ends of a range, which belong to it.
pub open spec fn listed(items: Seq<ClassItem>, c: char) -> bool {
    exists|k: int|
        0 <= k < items.len() && (match #[trigger] items[k] {
            ClassItem::Char(x) => x == c,
            ClassItem::Range(lo, hi) => lo <= c <= hi,
        })
}

proof fn lemma_quoted_items(items: Seq<ClassItem>, first: bool, rest: Seq<char>)
    requires
        items.len() > 0 || !first,
    ensures
        class_items(quoted_items(items) + seq![']'] + rest, first) == Some(
            (items, quoted_items(items).len() as int + 1),
        ),
    decreases items.len(),
{
    let text = quoted_items(items) + seq![']'] + rest;
    if items.len() == 0 {
        assert(text[0] == ']');
        assert(items =~= Seq::empty());
    } else {
        let head = quoted_item(items[0]);
        let tail = items.skip(1);
        let after = quoted_items(tail) + seq![']'] + rest;
        assert(text =~= head + after);
        assert(text.skip(head.len() as int) =~= after);
        assert(after.len() > 0);
        assert(after[0] != '-') by {
            if tail.len() > 0 {
                assert(quoted_items(tail)[0] == quoted_item(tail[0])[0]);
                assert(after[0] == quoted_items(tail)[0]);
            } else {
                assert(after[0] == ']');
            }
        }
        assert(text[0] == '\\');
        match items[0] {
            ClassItem::Char(c) => {
                assert(text[1] == c);
                assert(text.skip(2) =~= after);
            },
            ClassItem::Range(lo, hi) => {
                assert(text[1] == lo);
                let behind = text.skip(2);
                assert(behind[0] == '-' && behind[1] == '\\');
                assert(behind.skip(1)[0] == '\\' && behind.skip(1)[1] == hi);
            },
        }
        assert(class_item(text) == Some((items[0], head.len() as int)));
        lemma_quoted_items(tail, false, rest);
        assert(seq![items[0]] + tail =~= items);
    }
}

/// What a bracket expression starts with, where `mark` may negate it.
pub open spec fn bracket_start(mark: Option<char>) -> Seq<char> {
    match mark {
        Some(m) => seq!['[', m],
        None => seq!['['],
    }
}

proof fn lemma_quoted_class(mark: Option<char>, items: Seq<ClassItem>, rest: Seq<char>)
    requires
        items.len() > 0,
        mark matches Some(m) ==> m == '!' || m == '^',
    ensures
        ({
            let text = bracket_start(mark) + quoted_items(items) + seq![']'] + rest;
            let n = bracket_start(mark).len() + quoted_items(items).len() + 1;
            &&& text[0] == '['
            &&& text.skip(n as int) == rest
            &&& class_at(text) == Some((TokView::Class { negated: mark is Some, items }, n as int))
        }),
{
    let open = bracket_start(mark);
    let body = quoted_items(items);
    let inner = body + seq![']'] + rest;
    let text = open + body + seq![']'] + rest;
    assert(text =~= open + inner);
    assert(body.len() > 0 && body[0] == '\\') by {
        assert(body[0] == quoted_item(items[0])[0]);
    }
    assert(class_negated(text) == (mark is Some)) by {
        assert(inner[0] == body[0]);
        assert(text[open.len() as int] == inner[0]);
    }
    assert(text.skip(open.len() as int) =~= inner);
    assert(text.skip((open.len() + body.len() + 1) as int) =~= rest);
    assert(class_items(inner, true) == Some((items, body.len() as int + 1))) by {
        lemma_quoted_items(items, true, rest);
    }
}

/// A bracket expression matches one character that it lists, or, with `!` or
/// `^` before the list, one that it does not list.
pub proof fn brackets_match_what_they_list(
    mark: Option<char>,
    items: Seq<ClassItem>,
    rest: Seq<char>,
    name: Seq<char>,
)
    requires
        items.len() > 0,
        mark matches Some(m) ==> m == '!' || m == '^',
    ensures
        text_matches(bracket_start(mark) + quoted_items(items) + seq![']'] + rest, name)
            <==> name.len() > 0 && listed(items, name[0]) != (mark is Some) && text_matches(
            rest,
            name.skip(1),
        ),
{
    let text = bracket_start(mark) + quoted_items(items) + seq![']'] + rest;
    let n = bracket_start(mark).len() + quoted_items(items).len() + 1;
    lemma_quoted_class(mark, items, rest);
    lemma_class_front(text, mark is Some, items, n as int, name);
}

proof fn lemma_class_front(
    text: Seq<char>,
    negated: bool,
    items: Seq<ClassItem>,
    n: int,
    name: Seq<char>,
)
    requires
        text.len() > 0,
        text[0] == '[',
        class_at(text) == Some((TokView::Class { negated, items }, n)),
    ensures
        text_matches(text, name) <==> name.len() > 0 && listed(items, name[0]) != negated
            && text_matches(text.skip(n), name.skip(1)),
{
    let tok = TokView::Class { negated, items };
    lemma_text_front(text, name);
    let toks = seq![tok] + glob_of(text.skip(n));
    assert(toks.skip(1) =~= glob_of(text.skip(n)));
    if name.len() > 0 {
        lemma_listed(items, name[0]);
    }
}

proof fn lemma_listed(items: Seq<ClassItem>, c: char)
    ensures
        items_have(items, c) <==> listed(items, c),
{
    if items_have(items, c) {
        let k = choose|k: int|
            0 <= k < items.len() && item_has(#[trigger] items[k], c);
        assert(match items[k] {
            ClassItem::Char(x) => x == c,
            ClassItem::Range(lo, hi) => lo <= c <= hi,
        });
    }
    if listed(items, c) {
        let k = choose|k: int|
            0 <= k < items.len() && (match #[trigger] items[k] {
                ClassItem::Char(x) => x == c,
                ClassItem::Range(lo, hi) => lo <= c <= hi,
            });
        assert(item_has(items[k], c));
    }
}

/// A bracket that no later one closes matches itself; a `]` directly behind
/// it closes none.
pub proof fn unclosed_brackets_match_themselves(rest: Seq<char>, name: Seq<char>)
    requires
        forall|k: int| 0 < k < rest.len() ==> rest[k] != ']',
    ensures
        text_matches(seq!['['] + rest, name) <==> name.len() > 0 && name[0] == '['
            && text_matches(rest, name.skip(1)),
{
    let text = seq!['['] + rest;
    let start: int = if class_negated(text) {
        2
    } else {
        1
    };
    let inner = text.skip(start);
    assert forall|k: int| 0 <= k < inner.len() && inner[k] == ']' implies k == 0 by {
        assert(inner[k] == rest[k + start - 1]);
    }
    lemma_unclosed(inner, true);
    lemma_text_front(text, name);
    assert(text.skip(1) =~= rest);
    let toks = seq![TokView::Literal('[')] + glob_of(rest);
    assert(toks.skip(1) =~= glob_of(rest));
}

proof fn lemma_unclosed(s: Seq<char>, first: bool)
    requires
        forall|k: int| 0 <= k < s.len() && s[k] == ']' ==> first && k == 0,
    ensures
        class_items(s, first) is None,
    decreases s.len(),
{
    if s.len() > 0 {
        assert(s[0] == ']' ==> first);
        if let Some((item, n)) = class_item(s) {
            let rest = s.skip(n);
            assert forall|k: int| 0 <= k < rest.len() implies rest[k] != ']' by {
                assert(rest[k] == s[k + n]);
            }
            lemma_unclosed(rest, false);
        }
    }
}

/// A range without quotes, `[lo-hi]`, matches the two ends and every
/// character between them, and no other character.
pub proof fn ranges_match_both_ends_and_between(
    lo: char,
    hi: char,
    rest: Seq<char>,
    name: Seq<char>,
)
    requires
        lo != '!',
        lo != '^',
        lo != '\\',
        hi != ']',
        hi != '\\',
    ensures
        text_matches(seq!['[', lo, '-', hi, ']'] + rest, name) <==> name.len() > 0 && lo <= name[0]
            <= hi && text_matches(rest, name.skip(1)),
{
    let text = seq!['[', lo, '-', hi, ']'] + rest;
    let inner = text.skip(1);
    let items = seq![ClassItem::Range(lo, hi)];
    assert(inner[0] == lo && inner[1] == '-' && inner[2] == hi && inner[3] == ']');
    let behind = inner.skip(1);
    assert(behind[0] == '-' && behind[1] == hi);
    assert(behind.skip(1)[0] == hi);
    assert(class_item(inner) == Some((ClassItem::Range(lo, hi), 3int)));
    assert(inner.skip(3)[0] == ']');
    reveal_with_fuel(class_items, 2);
    assert(seq![ClassItem::Range(lo, hi)] + Seq::<ClassItem>::empty() =~= items);
    assert(class_items(inner, true) == Some((items, 4int)));
    assert(text.skip(5) =~= rest);
    lemma_class_front(text, false, items, 5, name);
    if name.len() > 0 {
        assert(listed(items, name[0]) <==> lo <= name[0] <= hi) by {
            assert(items[0] == ClassItem::Range(lo, hi));
        }
    }
}

/// Whether a character of a bracket, which is the first or the last one there
/// or not, stands for itself.
pub open spec fn plain_member(c: char, first: bool, last: bool) -> bool {
    c != '\\' && (c == ']' ==> first) && (c == '-' ==> first || last)
}

/// Whether the characters of a bracket stand for themselves.
pub open spec fn plain_members(members: Seq<char>, first: bool) -> bool {
    forall|k: int|
        0 <= k < members.len() ==> plain_member(
            #[trigger] members[k],
            first && k == 0,
            k == members.len() - 1,
        )
}

/// The element that lists one character.
pub open spec fn char_item(c: char) -> ClassItem {
    ClassItem::Char(c)
}

/// The elements that list the given characters.
pub open spec fn char_items(members: Seq<char>) -> Seq<ClassItem> {
    members.map_values(|c: char| char_item(c))
}

/// A bracket with plain characters in it, `[abc]`, matches one of them. A `]`
/// that comes first is one of them, and so is a `-` that comes first or last.
pub proof fn brackets_match_one_of_their_characters(
    members: Seq<char>,
    rest: Seq<char>,
    name: Seq<char>,
)
    requires
        members.len() > 0,
        members[0] != '!',
        members[0] != '^',
        plain_members(members, true),
    ensures
        text_matches(seq!['['] + members + seq![']'] + rest, name) <==> name.len() > 0
            && members.contains(name[0]) && text_matches(rest, name.skip(1)),
{
    let text = seq!['['] + members + seq![']'] + rest;
    let items = char_items(members);
    let inner = members + seq![']'] + rest;
    assert(text =~= seq!['['] + inner);
    assert(text[1] == members[0]);
    assert(text.skip(1) =~= inner);
    lemma_members(members, true, rest);
    assert(text.skip(members.len() as int + 2) =~= rest);
    lemma_class_front(text, false, items, members.len() as int + 2, name);
    if name.len() > 0 {
        if members.contains(name[0]) {
            let k = choose|k: int| 0 <= k < members.len() && members[k] == name[0];
            assert(items[k] == ClassItem::Char(name[0]));
        }
        if listed(items, name[0]) {
            let k = choose|k: int|
                0 <= k < items.len() && (match #[trigger] items[k] {
                    ClassItem::Char(x) => x == name[0],
                    ClassItem::Range(lo, hi) => lo <= name[0] <= hi,
                });
            assert(members[k] == name[0]);
        }
    }
}

proof fn lemma_members(members: Seq<char>, first: bool, rest: Seq<char>)
    requires
        members.len() > 0 || !first,
        plain_members(members, first),
    ensures
        class_items(members + seq![']'] + rest, first) == Some(
            (char_items(members), members.len() as int + 1),
        ),
    decreases members.len(),
{
    let text = members + seq![']'] + rest;
    let items = char_items(members);
    if members.len() == 0 {
        assert(text[0] == ']');
        assert(items =~= Seq::empty());
    } else {
        let tail = members.skip(1);
        assert forall|k: int| 0 <= k < tail.len() implies plain_member(
            #[trigger] tail[k],
            false,
            k == tail.len() - 1,
        ) by {
            assert(tail[k] == members[k + 1]);
        }
        let after = tail + seq![']'] + rest;
        assert(text.skip(1) =~= after);
        assert(text[0] == members[0]);
        assert(plain_member(members[0], first, members.len() == 1));
        assert(after.len() < 2 || after[0] != '-' || after[1] == ']') by {
            if tail.len() > 0 {
                assert(after[0] == tail[0]);
            }
        }
        assert(class_item(text) == Some((ClassItem::Char(members[0]), 1int)));
        lemma_members(tail, false, rest);
        assert(seq![ClassItem::Char(members[0])] + char_items(tail)
            =~= items);
    }
}

// ---------------------------------------------------------------------------
// Whole paths
// ---------------------------------------------------------------------------
proof fn lemma_two_double_stars(rest: Seq<SegmentView>, path: Seq<Seq<char>>)
    requires
        rest.len() > 0,
        rest[0] is DoubleStar,
    ensures
        segments_match(seq![SegmentView::DoubleStar] + rest, path) == segments_match(rest, path),
{
    let all = seq![SegmentView::DoubleStar] + rest;
    assert(all.skip(1) =~= rest);
    if segments_match(all, path) {
        let i = choose|i: int|
            0 <= i <= path.len() && segments_match(rest, #[trigger] path.skip(i));
        if rest.len() > 1 {
            let j = choose|j: int|
                0 <= j <= path.skip(i).len() && segments_match(
                    rest.skip(1),
                    #[trigger] path.skip(i).skip(j),
                );
            assert(path.skip(i).skip(j) =~= path.skip(i + j));
        }
    }
    if segments_match(rest, path) {
        assert(path.skip(0) =~= path);
        assert(segments_match(rest, path.skip(0)));
    }
}

proof fn lemma_same_segments(
    x: SegmentView,
    a: Seq<SegmentView>,
    b: Seq<SegmentView>,
    path: Seq<Seq<char>>,
)
    requires
        forall|r: Seq<Seq<char>>| segments_match(a, r) == segments_match(b, r),
        (a.len() == 0) == (b.len() == 0),
    ensures
        segments_match(seq![x] + a, path) == segments_match(seq![x] + b, path),
{
    assert((seq![x] + a).skip(1) =~= a);
    assert((seq![x] + b).skip(1) =~= b);
    if x is DoubleStar {
        if a.len() > 0 && segments_match(seq![x] + a, path) {
            let i = choose|i: int|
                0 <= i <= path.len() && segments_match(a, #[trigger] path.skip(i));
            assert(segments_match(b, path.skip(i)));
        }
        if b.len() > 0 && segments_match(seq![x] + b, path) {
            let i = choose|i: int|
                0 <= i <= path.len() && segments_match(b, #[trigger] path.skip(i));
            assert(segments_match(a, path.skip(i)));
        }
    } else {
        assert(segments_match(a, path.skip(1)) == segments_match(b, path.skip(1)));
    }
}

/// A run of `**` segments matches what a single one does.
pub proof fn runs_of_double_stars_match_as_one(segs: Seq<SegmentView>, path: Seq<Seq<char>>)
    ensures
        segments_match(collapse(segs, SegmentView::DoubleStar), path) == segments_match(segs, path),
    decreases segs.len(),
{
    if segs.len() > 0 {
        let x = segs[0];
        let rest = segs.skip(1);
        let star = SegmentView::DoubleStar;
        assert(segs =~= seq![x] + rest);
        lemma_collapse_front(x, rest, star);
        assert forall|r: Seq<Seq<char>>|
            segments_match(collapse(rest, star), r) == segments_match(rest, r) by {
            runs_of_double_stars_match_as_one(rest, r);
        }
        if x is DoubleStar && rest.len() > 0 && rest[0] is DoubleStar {
            lemma_two_double_stars(rest, path);
        } else {
            lemma_same_segments(x, collapse(rest, star), rest, path);
        }
    }
}

/// Whether the texts between a pattern's slashes match a path: `**` takes
/// any number of names, at the end at least one, and any other text takes
/// one name, which it matches.
pub open spec fn texts_match(texts: Seq<Seq<char>>, path: Seq<Seq<char>>) -> bool
    decreases texts.len(),
{
    if texts.len() == 0 {
        path.len() == 0
    } else if texts[0] != seq!['*', '*'] {
        path.len() > 0 && text_matches(texts[0], path[0]) && texts_match(
            texts.skip(1),
            path.skip(1),
        )
    } else if texts.len() == 1 {
        path.len() > 0
    } else {
        exists|i: int| 0 <= i <= path.len() && texts_match(texts.skip(1), #[trigger] path.skip(i))
    }
}

/// The segments that texts between slashes spell.
pub open spec fn segments_of(texts: Seq<Seq<char>>) -> Seq<SegmentView> {
    texts.map_values(|piece: Seq<char>| segment_of(piece))
}

/// Texts between slashes match what the segments that they spell match.
pub proof fn texts_match_as_their_segments(texts: Seq<Seq<char>>, path: Seq<Seq<char>>)
    ensures
        segments_match(segments_of(texts), path) == texts_match(texts, path),
    decreases texts.len(),
{
    let segs = segments_of(texts);
    if texts.len() > 0 {
        let rest = texts.skip(1);
        assert(segs.skip(1) =~= segments_of(rest));
        if texts[0] != seq!['*', '*'] {
            texts_match_as_their_segments(rest, path.skip(1));
        } else if texts.len() > 1 {
            if segments_match(segs, path) {
                let i = choose|i: int|
                    0 <= i <= path.len() && segments_match(segs.skip(1), #[trigger] path.skip(i));
                texts_match_as_their_segments(rest, path.skip(i));
                assert(texts_match(rest, path.skip(i)));
            }
            if texts_match(texts, path) {
                let i = choose|i: int|
                    0 <= i <= path.len() && texts_match(rest, #[trigger] path.skip(i));
                texts_match_as_their_segments(rest, path.skip(i));
                assert(segments_match(segs.skip(1), path.skip(i)));
            }
        }
    }
}

// ---------------------------------------------------------------------------
// Lines
// ---------------------------------------------------------------------------
proof fn lemma_join_ends(texts: Seq<Seq<char>>)
    requires
        texts.len() > 0,
        texts[0].len() > 0,
        texts.last().len() > 0,
    ensures
        join(texts, seq!['/']).len() > 0,
        join(texts, seq!['/'])[0] == texts[0][0],
        join(texts, seq!['/']).last() == texts.last().last(),
        texts.len() > 1 ==> join(texts, seq!['/']).contains('/'),
    decreases texts.len(),
{
    let whole = join(texts, seq!['/']);
    if texts.len() > 1 {
        let init = texts.drop_last();
        let head = join(init, seq!['/']);
        assert(whole[head.len() as int] == '/');
        lemma_join_start(init);
        assert(whole[0] == head[0]);
    }
}

proof fn lemma_join_start(texts: Seq<Seq<char>>)
    requires
        texts.len() > 0,
        texts[0].len() > 0,
    ensures
        join(texts, seq!['/']).len() > 0,
        join(texts, seq!['/'])[0] == texts[0][0],
    decreases texts.len(),
{
    if texts.len() > 1 {
        lemma_join_start(texts.drop_last());
    }
}

/// A line with the given texts between slashes, and with a slash before and
/// behind them where `lead` and `trail` say so.
pub open spec fn slashed_line(texts: Seq<Seq<char>>, lead: bool, trail: bool) -> Seq<char> {
    (if lead {
        seq!['/']
    } else {
        Seq::empty()
    }) + join(texts, seq!['/']) + (if trail {
        seq!['/']
    } else {
        Seq::empty()
    })
}

/// Whether texts stand between slashes as they are: none is empty or holds a
/// slash, and the line neither starts nor ends with a character that counts
/// there (a quoted space does not).
pub open spec fn plain_texts(texts: Seq<Seq<char>>, lead: bool, trail: bool) -> bool {
    &&& texts.len() > 0
    &&& forall|k: int| 0 <= k < texts.len() ==> (#[trigger] texts[k]).len() > 0
    &&& forall|k: int| 0 <= k < texts.len() ==> !(#[trigger] texts[k]).contains('/')
    &&& lead || (texts[0][0] != '#' && texts[0][0] != '!')
    &&& trail || (texts.last().last() != '\r' && (texts.last().last() == ' ' ==> quotes_next(
        texts.last().drop_last(),
    )))
}

proof fn lemma_ending_backslashes(a: Seq<char>, b: Seq<char>)
    requires
        a.len() > 0 ==> a.last() != '\\',
    ensures
        ending_backslashes(a + b) == ending_backslashes(b),
    decreases b.len(),
{
    if b.len() == 0 {
        assert(a + b =~= a);
    } else {
        lemma_ending_backslashes(a, b.drop_last());
        assert((a + b).drop_last() =~= a + b.drop_last());
    }
}

/// A quoted space at the end of a line stays.
proof fn lemma_line_end(before: Seq<char>, text: Seq<char>)
    requires
        before.len() > 0 ==> before.last() != '\\',
        text.len() > 0,
        text.last() == ' ' ==> quotes_next(text.drop_last()),
    ensures
        without_trailing_spaces(before + text) == before + text,
{
    let line = before + text;
    assert(line.last() == text.last());
    lemma_ending_backslashes(before, text.drop_last());
    assert(line.drop_last() =~= before + text.drop_last());
}

proof fn lemma_join_last(texts: Seq<Seq<char>>) -> (before: Seq<char>)
    requires
        texts.len() > 0,
    ensures
        join(texts, seq!['/']) == before + texts.last(),
        before.len() > 0 ==> before.last() == '/',
{
    if texts.len() == 1 {
        assert(Seq::<char>::empty() + texts[0] =~= texts[0]);
        Seq::empty()
    } else {
        join(texts.drop_last(), seq!['/']) + seq!['/']
    }
}

/// A line with `!` before it where `mark` says so.
pub open spec fn marked_line(mark: bool, line: Seq<char>) -> Seq<char> {
    if mark {
        seq!['!'] + line
    } else {
        line
    }
}

proof fn lemma_slashed_text(texts: Seq<Seq<char>>, lead: bool, trail: bool)
    requires
        plain_texts(texts, true, trail),
    ensures
        slashed_line(texts, lead, trail).len() > 0,
        slashed_line(texts, lead, trail)[0] == (if lead {
            '/'
        } else {
            texts[0][0]
        }),
        (slashed_line(texts, lead, trail).last() == '/') == trail,
        slashed_line(texts, lead, trail).last() != '\r',
        without_prefix(
            without_suffix(slashed_line(texts, lead, trail), '/'),
            '/',
        ) == join(texts, seq!['/']),
        without_suffix(slashed_line(texts, lead, trail), '/').contains('/') == (lead || texts.len()
            > 1),
        split(join(texts, seq!['/']), '/') == texts,
        !texts.contains(Seq::empty()),
{
    let line = slashed_line(texts, lead, trail);
    let whole = join(texts, seq!['/']);
    lemma_join_ends(texts);
    splitting_undoes_joining(texts, '/');
    assert(!texts[0].contains('/') && !texts[texts.len() - 1].contains('/'));
    assert(texts[0][0] != '/');
    assert(texts.last().last() != '/');
    assert(line[0] == (if lead {
        '/'
    } else {
        whole[0]
    }));
    assert(line.last() == (if trail {
        '/'
    } else {
        whole.last()
    }));
    let s = without_suffix(line, '/');
    assert(s =~= (if lead {
        seq!['/'] + whole
    } else {
        whole
    }));
    assert(without_prefix(s, '/') =~= whole);
    if lead {
        assert(s[0] == '/');
    } else if texts.len() == 1 {
        assert(whole == texts[0]);
    }
}

proof fn lemma_marked_body(mark: bool, texts: Seq<Seq<char>>, lead: bool, trail: bool)
    requires
        plain_texts(texts, true, trail),
    ensures
        line_body(marked_line(mark, slashed_line(texts, lead, trail))) == marked_line(
            mark,
            slashed_line(texts, lead, trail),
        ),
{
    let line = slashed_line(texts, lead, trail);
    let marked = marked_line(mark, line);
    lemma_slashed_text(texts, lead, trail);
    assert(marked.last() == line.last());
    assert(without_suffix(marked, '\r') == marked);
    if !trail {
        let before = lemma_join_last(texts);
        let start = marked_line(mark, (if lead {
            seq!['/']
        } else {
            Seq::empty()
        }) + before);
        assert(marked =~= start + texts.last());
        assert(start.len() > 0 ==> start.last() != '\\') by {
            if before.len() > 0 {
                assert(start.last() == before.last());
            }
        }
        assert(texts[texts.len() - 1].len() > 0);
        lemma_line_end(start, texts.last());
    }
}

proof fn lemma_marked_line(mark: bool, texts: Seq<Seq<char>>, lead: bool, trail: bool)
    requires
        plain_texts(texts, lead || mark, trail),
    ensures
        ({
            let line = marked_line(mark, slashed_line(texts, lead, trail));
            &&& !is_comment(line)
            &&& line_body(line) == line
            &&& line.len() > 0
            &&& (line[0] == '!') == mark
            &&& without_prefix(line, '!') == slashed_line(texts, lead, trail)
        }),
{
    let inner = slashed_line(texts, lead, trail);
    let line = marked_line(mark, inner);
    lemma_slashed_text(texts, lead, trail);
    lemma_marked_body(mark, texts, lead, trail);
    assert(line.last() == inner.last());
    assert(without_suffix(line, '\r') == line);
    if mark {
        assert(without_prefix(line, '!') =~= inner);
    }
}

/// A line with a slash before or between its texts matches the paths, from
/// the directory of its file, that its texts match one by one; one with a
/// slash at its end matches only directories, and one with `!` before it
/// re-includes.
pub proof fn slashed_lines_match_whole_paths(
    mark: bool,
    texts: Seq<Seq<char>>,
    lead: bool,
    trail: bool,
    path: Seq<Seq<char>>,
    is_dir: bool,
)
    requires
        plain_texts(texts, lead || mark, trail),
        lead || texts.len() > 1,
    ensures
        pattern_of(marked_line(mark, slashed_line(texts, lead, trail))) matches Some(p)
            && p.anchored && p.negated == mark && p.dir_only == trail && p.original == marked_line(
            mark,
            slashed_line(texts, lead, trail),
        ) && (pattern_matches(p, path, is_dir) <==> (trail ==> is_dir) && path.len() > 0
            && texts_match(texts, path)),
{
    lemma_slashed_text(texts, lead, trail);
    lemma_marked_line(mark, texts, lead, trail);
    runs_of_double_stars_match_as_one(segments_of(texts), path);
    texts_match_as_their_segments(texts, path);
}

/// A line without a slash but at its end matches every path, at any depth,
/// whose last name its text matches; one with `!` before it re-includes.
pub proof fn lines_without_a_slash_match_names_at_any_depth(
    mark: bool,
    text: Seq<char>,
    trail: bool,
    path: Seq<Seq<char>>,
    is_dir: bool,
)
    requires
        plain_texts(seq![text], mark, trail),
    ensures
        pattern_of(marked_line(mark, slashed_line(seq![text], false, trail))) matches Some(p)
            && !p.anchored && p.negated == mark && p.dir_only == trail && p.original == marked_line(
            mark,
            slashed_line(seq![text], false, trail),
        ) && (pattern_matches(p, path, is_dir) <==> (trail ==> is_dir) && path.len() > 0 && (text
            == seq!['*', '*'] || text_matches(text, path.last()))),
{
    let texts = seq![text];
    let line = marked_line(mark, slashed_line(texts, false, trail));
    lemma_slashed_text(texts, false, trail);
    lemma_marked_line(mark, texts, false, trail);
    let own = segments_of(texts);
    let star = SegmentView::DoubleStar;
    assert(own =~= seq![segment_of(text)]);
    assert(own.drop_last() =~= Seq::empty());
    reveal_with_fuel(collapse, 2);
    assert(collapse(own, star) =~= own);
    let p = pattern_of(line)->0;
    if text == seq!['*', '*'] {
        assert(own =~= seq![star]);
        assert(p.segments == own);
    } else {
        assert(own[0] != star);
        assert(p.segments =~= seq![star, SegmentView::Glob(glob_of(text))]);
        unanchored_patterns_match_the_basename(glob_of(text), path);
    }
}

/// Comments and blank lines are no patterns.
pub proof fn comments_and_blank_lines_are_no_patterns(rest: Seq<char>, n: nat)
    ensures
        pattern_of(seq!['#'] + rest) is None,
        pattern_of(Seq::new(n, |i: int| ' ')) is None,
{
    let note = seq!['#'] + rest;
    assert(note[0] == '#');
    if rest.len() > 0 {
        assert(without_suffix(note, '\r')[0] == '#');
    }
    let blank = Seq::new(n, |i: int| ' ');
    lemma_blank(n);
    if n > 0 {
        assert(blank.last() == ' ');
    }
}

/// A line with two slashes in a row is no pattern.
pub proof fn lines_with_an_empty_text_are_no_patterns(texts: Seq<Seq<char>>, k: int)
    requires
        forall|i: int| 0 <= i < texts.len() ==> !(#[trigger] texts[i]).contains('/'),
        0 < k < texts.len() - 1,
        texts[k].len() == 0,
        texts[0].len() > 0,
        texts[0][0] != '!',
        texts.last().len() > 0,
        texts.last().last() != ' ',
        texts.last().last() != '\r',
    ensures
        pattern_of(join(texts, seq!['/'])) is None,
{
    let whole = join(texts, seq!['/']);
    lemma_join_ends(texts);
    splitting_undoes_joining(texts, '/');
    assert(!texts[0].contains('/') && !texts[texts.len() - 1].contains('/'));
    assert(texts[0][0] != '/');
    assert(texts.last().last() != '/');
    assert(without_suffix(whole, '\r') == whole);
    assert(line_body(whole) == whole);
    assert(line_pattern(whole) == whole);
    assert(texts[k] =~= Seq::empty());
    assert(split(without_prefix(whole, '/'), '/')[k] == Seq::<char>::empty());
}

proof fn lemma_blank(n: nat)
    ensures
        without_trailing_spaces(Seq::new(n, |i: int| ' ')).len() == 0,
    decreases n,
{
    let blank = Seq::new(n, |i: int| ' ');
    if n > 0 {
        let init = blank.drop_last();
        assert(init =~= Seq::new((n - 1) as nat, |i: int| ' '));
        lemma_blank((n - 1) as nat);
        assert(blank.last() == ' ');
        lemma_no_quote(init);
    }
}

proof fn lemma_no_quote(s: Seq<char>)
    requires
        s.len() > 0 ==> s.last() != '\\',
    ensures
        !quotes_next(s),
{
}

/// A space behind a line, unless it is quoted, and a carriage return behind a
/// line change nothing of the pattern but the line it is kept with.
pub proof fn line_endings_do_not_count(line: Seq<char>)
    requires
        line.len() > 0 ==> line.last() != '\r',
    ensures
        !quotes_next(line) ==> same_but_for_the_line(
            pattern_of(line),
            pattern_of(line.push(' ')),
        ),
        same_but_for_the_line(pattern_of(line), pattern_of(line.push('\r'))),
{
    let spaced = line.push(' ');
    let ended = line.push('\r');
    assert(spaced.drop_last() =~= line);
    assert(ended.drop_last() =~= line);
    assert(without_suffix(spaced, '\r') == spaced);
    assert(without_suffix(ended, '\r') == line);
    assert(without_suffix(line, '\r') == line);
    if line.len() > 0 {
        assert(spaced[0] == line[0]);
    }
}

/// Whether two lines spell the same pattern, or both none.
pub open spec fn same_but_for_the_line(a: Option<PatternView>, b: Option<PatternView>) -> bool {
    match (a, b) {
        (Some(p), Some(q)) => p.negated == q.negated && p.dir_only == q.dir_only && p.anchored
            == q.anchored && p.segments == q.segments,
        (None, None) => true,
        _ => false,
    }
}

/// The line `[lo-hi]` matches exactly the one-character names from `lo` to
/// `hi`, both included.
pub proof fn range_lines_match_the_range(lo: char, hi: char, c: char, is_dir: bool)
    requires
        lo != '!',
        lo != '^',
        lo != '\\',
        lo != '/',
        hi != ']',
        hi != '\\',
        hi != '/',
    ensures
        pattern_of(seq!['[', lo, '-', hi, ']']) matches Some(p) && (pattern_matches(
            p,
            seq![seq![c]],
            is_dir,
        ) <==> lo <= c <= hi),
{
    let text: Seq<char> = seq!['[', lo, '-', hi, ']'];
    let path: Seq<Seq<char>> = seq![seq![c]];
    assert(join(seq![text], seq!['/']) =~= text);
    assert(slashed_line(seq![text], false, false) =~= text);
    lines_without_a_slash_match_names_at_any_depth(false, text, false, path, is_dir);
    assert(text != seq!['*', '*']) by {
        assert(text.len() == 5);
    }
    let name: Seq<char> = seq![c];
    ranges_match_both_ends_and_between(lo, hi, Seq::empty(), name);
    assert(text + Seq::<char>::empty() =~= text);
    empty_text_matches_nothing(name.skip(1));
    assert(path.last() == name);
}

/// A line with a slash before its only text spells that one segment.
pub proof fn rooted_lines_spell_one_segment(text: Seq<char>, trail: bool)
    requires
        plain_texts(seq![text], true, trail),
    ensures
        pattern_of(slashed_line(seq![text], true, trail)) matches Some(p) && p.segments == seq![
            segment_of(text),
        ] && !p.negated && p.dir_only == trail,
{
    let texts = seq![text];
    lemma_slashed_text(texts, true, trail);
    lemma_marked_line(false, texts, true, trail);
    let own = segments_of(texts);
    assert(own =~= seq![segment_of(text)]);
    assert(own.drop_last() =~= Seq::empty());
    reveal_with_fuel(collapse, 2);
    assert(collapse(own, SegmentView::DoubleStar) =~= own);
}

} // verus!
