//! Shared rendering of parsed patterns back into glob strings, for the rsync
//! and watchman translators (both consume rsync-style wildmatch globs).

use crate::pattern::{glob_matches, ClassItem, SegmentView, Tok, TokView};
use crate::text::{group_views, join, views};
use vstd::prelude::*;

verus! {

/// Characters that are glob metacharacters in rsync filters and watchman
/// `match` expressions.
pub open spec fn is_meta(c: char) -> bool {
    c == '*' || c == '?' || c == '[' || c == ']' || c == '\\'
}

/// A character as glob text: metacharacters are escaped.
pub open spec fn char_text(c: char) -> Seq<char> {
    if is_meta(c) {
        seq!['\\', c]
    } else {
        seq![c]
    }
}

/// A literal path component as glob text.
pub open spec fn literal_text(s: Seq<char>) -> Seq<char>
    decreases s.len(),
{
    if s.len() == 0 {
        s
    } else {
        literal_text(s.drop_last()) + char_text(s.last())
    }
}

/// One element of a bracket expression as glob text. A character that would
/// change meaning at its position is escaped.
pub open spec fn item_text(item: ClassItem, first: bool) -> Seq<char> {
    match item {
        ClassItem::Char(c) => if c == ']' || c == '\\' || c == '-' || (first && (c == '!' || c
            == '^')) {
            seq!['\\', c]
        } else {
            seq![c]
        },
        ClassItem::Range(lo, hi) => seq![lo, '-', hi],
    }
}

/// The elements of a bracket expression as glob text.
pub open spec fn items_text(items: Seq<ClassItem>) -> Seq<char>
    decreases items.len(),
{
    if items.len() == 0 {
        Seq::empty()
    } else {
        items_text(items.drop_last()) + item_text(items.last(), items.len() == 1)
    }
}

/// A token as glob text.
pub open spec fn tok_text(tok: TokView) -> Seq<char> {
    match tok {
        TokView::Literal(c) => char_text(c),
        TokView::AnyChar => seq!['?'],
        TokView::Star => seq!['*'],
        TokView::Class { negated, items } => (if negated {
            seq!['[', '!']
        } else {
            seq!['[']
        }) + items_text(items) + seq![']'],
    }
}

/// A segment's tokens as glob text.
pub open spec fn glob_text(toks: Seq<TokView>) -> Seq<char>
    decreases toks.len(),
{
    if toks.len() == 0 {
        Seq::empty()
    } else {
        glob_text(toks.drop_last()) + tok_text(toks.last())
    }
}

fn push_escaped(out: &mut String, c: char)
    ensures
        final(out)@ == old(out)@ + char_text(c),
{
    if matches!(c, '*' | '?' | '[' | ']' | '\\') {
        out.push('\\');
    }
    out.push(c);
    proof {
        assert(out@ =~= old(out)@ + char_text(c));
    }
}

/// Renders a literal path component (e.g. a base-directory name) with glob
/// metacharacters escaped.
pub fn render_literal(s: &[char]) -> (out: String)
    ensures
        out@ == literal_text(s@),
{
    let mut out = String::new();
    for i in 0..s.len()
        invariant
            out@ == literal_text(s@.take(i as int)),
    {
        proof {
            assert(s@.take(i + 1).drop_last() =~= s@.take(i as int));
        }
        push_escaped(&mut out, s[i]);
    }
    proof {
        assert(s@.take(s@.len() as int) =~= s@);
    }
    out
}

/// Appends the elements of a bracket expression.
fn push_items(out: &mut String, items: &Vec<ClassItem>)
    ensures
        final(out)@ == old(out)@ + items_text(items@),
{
    let ghost before = out@;
    for i in 0..items.len()
        invariant
            out@ == before + items_text(items@.take(i as int)),
    {
        let ghost here = out@;
        let item = items[i];
        match item {
            ClassItem::Char(c) => {
                // Best-effort escaping of characters that would change
                // meaning at this position.
                if matches!(c, ']' | '\\' | '-') || (i == 0 && matches!(c, '!' | '^')) {
                    out.push('\\');
                }
                out.push(c);
            },
            ClassItem::Range(lo, hi) => {
                out.push(lo);
                out.push('-');
                out.push(hi);
            },
        }
        proof {
            let done = items@.take(i as int);
            let next = items@.take(i + 1);
            assert(next.drop_last() =~= done);
            assert(out@ =~= here + item_text(item, i == 0));
            assert(before + items_text(done) + item_text(item, i == 0) =~= before + (items_text(
                done,
            ) + item_text(item, i == 0)));
        }
    }
    proof {
        assert(items@.take(items@.len() as int) =~= items@);
    }
}

/// Renders one segment-glob token list as a wildmatch glob string.
pub fn render_glob(toks: &[Tok]) -> (out: String)
    ensures
        out@ == glob_text(views(toks@)),
{
    broadcast use group_views;

    let ghost all = views(toks@);
    let mut out = String::new();
    for i in 0..toks.len()
        invariant
            all == views(toks@),
            out@ == glob_text(all.take(i as int)),
    {
        broadcast use group_views;

        let ghost here = out@;
        match &toks[i] {
            Tok::Literal(c) => push_escaped(&mut out, *c),
            Tok::AnyChar => out.push('?'),
            Tok::Star => out.push('*'),
            Tok::Class { negated, items } => {
                out.push('[');
                if *negated {
                    out.push('!');
                }
                push_items(&mut out, items);
                out.push(']');
            },
        }
        proof {
            assert(out@ =~= here + tok_text(toks@[i as int]@));
            assert(all.take(i + 1).drop_last() =~= all.take(i as int));
        }
    }
    proof {
        assert(all.take(all.len() as int) =~= all);
    }
    out
}

/// A pattern segment as glob text.
pub open spec fn segment_text(seg: SegmentView) -> Seq<char> {
    match seg {
        SegmentView::DoubleStar => seq!['*', '*'],
        SegmentView::Glob(toks) => glob_text(toks),
    }
}

/// A pattern's segments as glob texts.
pub open spec fn segment_texts(segs: Seq<SegmentView>) -> Seq<Seq<char>> {
    segs.map_values(|seg: SegmentView| segment_text(seg))
}

/// The token that matches exactly `c`.
pub open spec fn literal_tok(c: char) -> TokView {
    TokView::Literal(c)
}

/// A glob that matches exactly the given name.
pub open spec fn literal_glob(name: Seq<char>) -> Seq<TokView> {
    name.map_values(|c: char| literal_tok(c))
}

/// Segments that match exactly the given path.
pub open spec fn literal_segments(base: Seq<Seq<char>>) -> Seq<SegmentView> {
    base.map_values(|name: Seq<char>| SegmentView::Glob(literal_glob(name)))
}

/// The path prefix of the directory `base` as glob text, with a slash behind
/// each segment.
pub open spec fn base_text(base: Seq<Seq<char>>) -> Seq<char>
    decreases base.len(),
{
    if base.len() == 0 {
        Seq::empty()
    } else {
        base_text(base.drop_last()) + literal_text(base.last()).push('/')
    }
}

pub proof fn lemma_literal_text(name: Seq<char>)
    ensures
        glob_text(literal_glob(name)) == literal_text(name),
    decreases name.len(),
{
    if name.len() > 0 {
        assert(literal_glob(name).drop_last() =~= literal_glob(name.drop_last()));
        lemma_literal_text(name.drop_last());
    } else {
        assert(literal_text(name) =~= Seq::empty());
    }
}

proof fn lemma_base_text(base: Seq<Seq<char>>)
    requires
        base.len() > 0,
    ensures
        base_text(base) == join(segment_texts(literal_segments(base)), seq!['/']).push('/'),
    decreases base.len(),
{
    let texts = segment_texts(literal_segments(base));
    let init = base.drop_last();
    lemma_literal_text(base.last());
    assert(texts.last() == literal_text(base.last()));
    assert(texts.drop_last() =~= segment_texts(literal_segments(init)));
    if base.len() == 1 {
        assert(base_text(init) =~= Seq::empty());
        assert(base_text(base) =~= literal_text(base.last()).push('/'));
    } else {
        lemma_base_text(init);
        assert(base_text(base) =~= join(texts, seq!['/']).push('/'));
    }
}

pub proof fn lemma_prefixed_text(base: Seq<Seq<char>>, row: Seq<SegmentView>)
    requires
        row.len() > 0,
    ensures
        join(segment_texts(literal_segments(base) + row), seq!['/']) == base_text(base) + join(
            segment_texts(row),
            seq!['/'],
        ),
    decreases row.len(),
{
    let lits = literal_segments(base);
    let texts = segment_texts(lits + row);
    let last = segment_text(row.last());
    assert(texts.last() == last);
    assert(segment_texts(row).last() == last);
    if row.len() == 1 {
        assert(texts.drop_last() =~= segment_texts(lits));
        if base.len() == 0 {
            assert(base_text(base) + last =~= last);
        } else {
            lemma_base_text(base);
            assert(join(texts, seq!['/']) =~= base_text(base) + last);
        }
    } else {
        let init = row.drop_last();
        lemma_prefixed_text(base, init);
        assert(texts.drop_last() =~= segment_texts(lits + init));
        assert(segment_texts(row).drop_last() =~= segment_texts(init));
        assert(join(texts, seq!['/']) =~= base_text(base) + join(segment_texts(row), seq!['/']));
    }
}

/// A literal glob matches exactly the name it spells.
pub proof fn lemma_literal_glob(name: Seq<char>, s: Seq<char>)
    ensures
        glob_matches(literal_glob(name), s) <==> s == name,
    decreases name.len(),
{
    if name.len() == 0 {
        if s.len() == 0 {
            assert(s =~= name);
        }
    } else {
        assert(literal_glob(name).skip(1) =~= literal_glob(name.skip(1)));
        if s.len() > 0 {
            lemma_literal_glob(name.skip(1), s.skip(1));
            assert(s =~= seq![s[0]] + s.skip(1));
            assert(name =~= seq![name[0]] + name.skip(1));
        }
    }
}

} // verus!
