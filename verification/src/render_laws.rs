//! Rendered globs read back.
//!
//! The translators render parsed patterns as glob text. Read as a pattern
//! again, the text is the same glob, so that nothing is lost on the way.

use crate::pattern::{
    class_at, class_char, class_item, class_items, class_negated, collapse, first_token, glob_of,
    tokens, ClassItem, TokView,
};
use crate::render::{
    char_text, glob_text, is_meta, item_text, items_text, lemma_literal_text, literal_glob,
    literal_text, tok_text,
};
use vstd::prelude::*;

verus! {

/// Whether element `k` of a bracket expression reads back. A single
/// character always does. The ends of a range stand in the text as they are,
/// so that a range does not read back if an end has a meaning of its own
/// where it stands: a backslash anywhere, a `]` unless it opens the
/// expression, a `-` behind a single character, and a `!` or `^` that opens
/// an expression which is not negated.
pub open spec fn item_reads_back(items: Seq<ClassItem>, k: int, negated: bool) -> bool {
    match items[k] {
        ClassItem::Char(_) => true,
        ClassItem::Range(lo, hi) => {
            &&& lo != '\\'
            &&& hi != '\\'
            &&& hi != ']'
            &&& lo == ']' ==> k == 0
            &&& lo == '-' ==> k == 0 || items[k - 1] is Range
            &&& (lo == '!' || lo == '^') && k == 0 ==> negated
        },
    }
}

/// Whether the elements of a bracket expression read back.
pub open spec fn items_read_back(items: Seq<ClassItem>, negated: bool) -> bool {
    items.len() > 0 && forall|k: int|
        0 <= k < items.len() ==> #[trigger] item_reads_back(items, k, negated)
}

/// Whether a token reads back.
pub open spec fn tok_reads_back(tok: TokView) -> bool {
    match tok {
        TokView::Class { negated, items } => items_read_back(items, negated),
        _ => true,
    }
}

/// The elements of a bracket expression behind the first one, as glob text.
pub open spec fn later_items_text(items: Seq<ClassItem>) -> Seq<char>
    decreases items.len(),
{
    if items.len() == 0 {
        Seq::empty()
    } else {
        item_text(items[0], false) + later_items_text(items.skip(1))
    }
}

proof fn lemma_later_push(items: Seq<ClassItem>, item: ClassItem)
    ensures
        later_items_text(items.push(item)) == later_items_text(items) + item_text(item, false),
    decreases items.len(),
{
    let more = items.push(item);
    if items.len() == 0 {
        assert(more.skip(1) =~= Seq::empty());
        assert(later_items_text(more.skip(1)) =~= Seq::empty());
        assert(later_items_text(more) =~= later_items_text(items) + item_text(item, false));
    } else {
        assert(more.skip(1) =~= items.skip(1).push(item));
        lemma_later_push(items.skip(1), item);
        assert(later_items_text(more) =~= later_items_text(items) + item_text(item, false));
    }
}

proof fn lemma_items_text_front(items: Seq<ClassItem>)
    requires
        items.len() > 0,
    ensures
        items_text(items) == item_text(items[0], true) + later_items_text(items.skip(1)),
    decreases items.len(),
{
    let init = items.drop_last();
    if items.len() == 1 {
        assert(items_text(init) =~= Seq::empty());
        assert(items.skip(1) =~= Seq::empty());
        assert(items_text(items) =~= item_text(items[0], true) + later_items_text(items.skip(1)));
    } else {
        lemma_items_text_front(init);
        assert(items.skip(1) =~= init.skip(1).push(items.last()));
        lemma_later_push(init.skip(1), items.last());
        assert(items_text(items) =~= item_text(items[0], true) + later_items_text(items.skip(1)));
    }
}

/// Whether elements behind the first one read back, where `after_char` says
/// whether the one before them is a single character.
spec fn later_read_back(items: Seq<ClassItem>, after_char: bool) -> bool {
    forall|k: int|
        0 <= k < items.len() ==> (match #[trigger] items[k] {
            ClassItem::Char(_) => true,
            ClassItem::Range(lo, hi) => lo != '\\' && hi != '\\' && hi != ']' && lo != ']' && (lo
                == '-' ==> (if k == 0 {
                !after_char
            } else {
                items[k - 1] is Range
            })),
        })
}

/// What follows an element: the later ones and the closing bracket.
spec fn class_tail(items: Seq<ClassItem>, rest: Seq<char>) -> Seq<char> {
    later_items_text(items) + seq![']'] + rest
}

proof fn lemma_tail_start(items: Seq<ClassItem>, rest: Seq<char>)
    requires
        later_read_back(items, true),
    ensures
        class_tail(items, rest).len() > 0,
        class_tail(items, rest)[0] != '-',
{
    let tail = class_tail(items, rest);
    if items.len() == 0 {
        assert(tail[0] == ']');
    } else {
        let text = item_text(items[0], false);
        assert(tail[0] == text[0]);
    }
}

proof fn lemma_item(item: ClassItem, first: bool, later: Seq<ClassItem>, rest: Seq<char>)
    requires
        later_read_back(later, item is Char),
        item matches ClassItem::Range(lo, hi) ==> lo != '\\' && hi != '\\' && hi != ']',
    ensures
        class_item(item_text(item, first) + class_tail(later, rest)) == Some(
            (item, item_text(item, first).len() as int),
        ),
        (item_text(item, first) + class_tail(later, rest)).skip(
            item_text(item, first).len() as int,
        ) == class_tail(later, rest),
{
    let text = item_text(item, first);
    let tail = class_tail(later, rest);
    let s = text + tail;
    assert(s.skip(text.len() as int) =~= tail);
    match item {
        ClassItem::Char(c) => {
            lemma_tail_start(later, rest);
            assert(class_char(s) == Some((c, text.len() as int)));
        },
        ClassItem::Range(lo, hi) => {
            assert(class_char(s) == Some((lo, 1int)));
            let after = s.skip(1);
            assert(after[0] == '-' && after[1] == hi);
            assert(after.skip(1)[0] == hi);
            assert(class_char(after.skip(1)) == Some((hi, 1int)));
        },
    }
}

proof fn lemma_later_items(items: Seq<ClassItem>, after_char: bool, rest: Seq<char>)
    requires
        later_read_back(items, after_char),
    ensures
        class_items(class_tail(items, rest), false) == Some(
            (items, later_items_text(items).len() as int + 1),
        ),
    decreases items.len(),
{
    let s = class_tail(items, rest);
    if items.len() == 0 {
        assert(s[0] == ']');
        assert(items =~= Seq::empty());
    } else {
        let item = items[0];
        let later = items.skip(1);
        let text = item_text(item, false);
        assert forall|k: int| 0 <= k < later.len() implies (match #[trigger] later[k] {
            ClassItem::Char(_) => true,
            ClassItem::Range(lo, hi) => lo != '\\' && hi != '\\' && hi != ']' && lo != ']' && (lo
                == '-' ==> (if k == 0 {
                !(item is Char)
            } else {
                later[k - 1] is Range
            })),
        }) by {
            assert(later[k] == items[k + 1]);
        }
        assert(later_read_back(later, item is Char));
        assert(s =~= text + class_tail(later, rest));
        lemma_item(item, false, later, rest);
        lemma_later_items(later, item is Char, rest);
        assert(s[0] == text[0]);
        assert(s[0] != ']');
        assert(seq![item] + later =~= items);
    }
}

proof fn lemma_later_of(negated: bool, items: Seq<ClassItem>)
    requires
        items_read_back(items, negated),
    ensures
        later_read_back(items.skip(1), items[0] is Char),
{
    let first = items[0];
    let later = items.skip(1);
    assert forall|k: int| 0 <= k < later.len() implies (match #[trigger] later[k] {
        ClassItem::Char(_) => true,
        ClassItem::Range(lo, hi) => lo != '\\' && hi != '\\' && hi != ']' && lo != ']' && (lo == '-'
            ==> (if k == 0 {
            !(first is Char)
        } else {
            later[k - 1] is Range
        })),
    }) by {
        assert(item_reads_back(items, k + 1, negated));
        assert(later[k] == items[k + 1]);
        if k > 0 {
            assert(later[k - 1] == items[k]);
        }
    }
}

proof fn lemma_class_body(negated: bool, items: Seq<ClassItem>, rest: Seq<char>)
    requires
        items_read_back(items, negated),
    ensures
        class_items(items_text(items) + seq![']'] + rest, true) == Some(
            (items, items_text(items).len() as int + 1),
        ),
{
    let first = items[0];
    let later = items.skip(1);
    assert(item_reads_back(items, 0, negated));
    lemma_later_of(negated, items);
    lemma_items_text_front(items);
    let body = item_text(first, true) + class_tail(later, rest);
    assert(items_text(items) + seq![']'] + rest =~= body);
    lemma_item(first, true, later, rest);
    lemma_later_items(later, first is Char, rest);
    assert(seq![first] + later =~= items);
}

proof fn lemma_class(negated: bool, items: Seq<ClassItem>, rest: Seq<char>)
    requires
        items_read_back(items, negated),
    ensures
        class_at(tok_text(TokView::Class { negated, items }) + rest) == Some(
            (
                TokView::Class { negated, items },
                tok_text(TokView::Class { negated, items }).len() as int,
            ),
        ),
{
    let text = tok_text(TokView::Class { negated, items });
    let s = text + rest;
    let body = items_text(items) + seq![']'] + rest;
    assert(item_reads_back(items, 0, negated));
    lemma_class_body(negated, items, rest);
    lemma_items_text_front(items);
    let head = item_text(items[0], true);
    assert(items_text(items)[0] == head[0]);
    if negated {
        assert(s.skip(2) =~= body);
        assert(s[1] == '!');
    } else {
        assert(s.skip(1) =~= body);
        assert(s[1] == head[0]);
    }
    assert(class_negated(s) == negated);
}

proof fn lemma_token(tok: TokView, rest: Seq<char>)
    requires
        tok_reads_back(tok),
    ensures
        tokens(tok_text(tok) + rest) == seq![tok] + tokens(rest),
{
    let text = tok_text(tok);
    let s = text + rest;
    assert(s.skip(text.len() as int) =~= rest);
    match tok {
        TokView::Literal(c) => {
            assert(s[0] == char_text(c)[0]);
            if is_meta(c) {
                assert(s[1] == c);
            }
        },
        TokView::AnyChar => {
            assert(s[0] == '?');
        },
        TokView::Star => {
            assert(s[0] == '*');
        },
        TokView::Class { negated, items } => {
            lemma_class(negated, items, rest);
            assert(s[0] == '[');
        },
    }
    assert(first_token(s) == (tok, text.len() as int));
}

proof fn lemma_tokens(toks: Seq<TokView>, rest: Seq<char>)
    requires
        forall|k: int| 0 <= k < toks.len() ==> tok_reads_back(#[trigger] toks[k]),
    ensures
        tokens(glob_text(toks) + rest) == toks + tokens(rest),
    decreases toks.len(),
{
    if toks.len() == 0 {
        assert(glob_text(toks) + rest =~= rest);
        assert(toks + tokens(rest) =~= tokens(rest));
    } else {
        let init = toks.drop_last();
        let last = toks.last();
        assert forall|k: int| 0 <= k < init.len() implies tok_reads_back(#[trigger] init[k]) by {
            assert(init[k] == toks[k]);
        }
        assert(tok_reads_back(toks[toks.len() - 1]));
        let tail = tok_text(last) + rest;
        lemma_tokens(init, tail);
        lemma_token(last, rest);
        assert(glob_text(toks) + rest =~= glob_text(init) + tail);
        assert(init + (seq![last] + tokens(rest)) =~= toks + tokens(rest));
    }
}

proof fn lemma_collapsed(toks: Seq<TokView>)
    requires
        forall|k: int| 0 < k < toks.len() ==> !((#[trigger] toks[k]) is Star && toks[k - 1] is Star),
    ensures
        collapse(toks, TokView::Star) == toks,
    decreases toks.len(),
{
    if toks.len() > 0 {
        let init = toks.drop_last();
        assert forall|k: int| 0 < k < init.len() implies !((#[trigger] init[k]) is Star
            && init[k - 1] is Star) by {
            assert(init[k] == toks[k]);
        }
        lemma_collapsed(init);
        if toks.len() > 1 {
            assert(!(toks[toks.len() - 1] is Star && toks[toks.len() - 2] is Star));
            assert(init.last() == toks[toks.len() - 2]);
        }
        assert(init.push(toks.last()) =~= toks);
    }
}

/// A glob rendered as text reads back as the same glob, where every bracket
/// expression in it does and no two `*` stand next to each other (as they do
/// not in a glob that was parsed).
pub proof fn rendered_globs_read_back(toks: Seq<TokView>)
    requires
        forall|k: int| 0 <= k < toks.len() ==> tok_reads_back(#[trigger] toks[k]),
        forall|k: int| 0 < k < toks.len() ==> !((#[trigger] toks[k]) is Star && toks[k - 1] is Star),
    ensures
        glob_of(glob_text(toks)) == toks,
{
    lemma_tokens(toks, Seq::empty());
    assert(glob_text(toks) + Seq::<char>::empty() =~= glob_text(toks));
    assert(toks + tokens(Seq::empty()) =~= toks);
    lemma_collapsed(toks);
}

/// A literal name rendered as text reads back as a glob of its characters.
pub proof fn rendered_literals_read_back(name: Seq<char>)
    ensures
        glob_of(literal_text(name)) == literal_glob(name),
        literal_glob(name).len() == name.len(),
        forall|k: int|
            0 <= k < name.len() ==> #[trigger] literal_glob(name)[k] == TokView::Literal(name[k]),
{
    lemma_literal_text(name);
    rendered_globs_read_back(literal_glob(name));
}

proof fn lemma_plain_literal(word: Seq<char>)
    requires
        forall|k: int| 0 <= k < word.len() ==> !is_meta(#[trigger] word[k]),
    ensures
        literal_text(word) == word,
    decreases word.len(),
{
    if word.len() > 0 {
        let init = word.drop_last();
        assert forall|k: int| 0 <= k < init.len() implies !is_meta(#[trigger] init[k]) by {
            assert(init[k] == word[k]);
        }
        lemma_plain_literal(init);
        assert(!is_meta(word[word.len() - 1]));
        assert(literal_text(word) =~= word);
    }
}

/// A word without `*`, `?`, `[`, `]` and backslashes is written as it is.
pub proof fn plain_words_are_written_as_they_are(word: Seq<char>)
    requires
        forall|k: int|
            0 <= k < word.len() ==> (#[trigger] word[k]) != '*' && word[k] != '?' && word[k] != '['
                && word[k] != ']' && word[k] != '\\',
    ensures
        literal_text(word) == word,
        glob_of(word) == literal_glob(word),
        glob_text(glob_of(word)) == word,
{
    assert forall|k: int| 0 <= k < word.len() implies !is_meta(#[trigger] word[k]) by {}
    lemma_plain_literal(word);
    rendered_literals_read_back(word);
    lemma_literal_text(word);
}

/// Metacharacters are written with a backslash before them.
pub proof fn metacharacters_are_written_quoted(name: Seq<char>, c: char)
    ensures
        literal_text(name.push(c)) == literal_text(name) + (if c == '*' || c == '?' || c == '[' || c
            == ']' || c == '\\' {
            seq!['\\', c]
        } else {
            seq![c]
        }),
{
    assert(name.push(c).drop_last() =~= name);
}

} // verus!
