//! Translation of an [`IgnoreSet`] into rsync filter rules.

use crate::eval::{IgnoreSet, Source, SourceView};
use crate::pattern::{Pattern, PatternView, Segment, SegmentView};
use crate::render::{base_text, render_glob, render_literal, segment_text, segment_texts};
use crate::text::{group_views, join, join_strings, views};
use crate::translate::TranslateError;
use vstd::prelude::*;

verus! {

/// Expanding a `**` into "zero segments" / "`**`" variants is exponential in
/// the number of non-trailing `**` segments; patterns beyond this many
/// variants are rejected rather than translated.
pub const MAX_VARIANTS: usize = 16;

// ---------------------------------------------------------------------------
// What is emitted
// ---------------------------------------------------------------------------
/// Each of `rows` twice: followed by `x`, and as it is.
pub open spec fn doubled<T>(rows: Seq<Seq<T>>, x: T) -> Seq<Seq<T>>
    decreases rows.len(),
{
    if rows.len() == 0 {
        Seq::empty()
    } else {
        doubled(rows.drop_last(), x).push(rows.last().push(x)).push(rows.last())
    }
}

/// The ways to write the first `n` of `parts` when each optional one may be
/// left out.
pub open spec fn expansion<T>(parts: Seq<T>, optional: Seq<bool>, n: nat) -> Seq<Seq<T>>
    decreases n,
{
    if n == 0 {
        seq![Seq::empty()]
    } else {
        let rows = expansion(parts, optional, (n - 1) as nat);
        if optional[n - 1] {
            doubled(rows, parts[n - 1])
        } else {
            rows.map_values(|row: Seq<T>| row.push(parts[n - 1]))
        }
    }
}

/// Which segments of a pattern may match no path segment at all: every `**`
/// but a trailing one.
pub open spec fn optional_segments(segs: Seq<SegmentView>) -> Seq<bool> {
    Seq::new(segs.len(), |i: int| segs[i] is DoubleStar && i + 1 < segs.len())
}

/// The glob texts of a pattern's variants, segment by segment.
pub open spec fn variant_rows(segs: Seq<SegmentView>) -> Seq<Seq<Seq<char>>> {
    expansion(segment_texts(segs), optional_segments(segs), segs.len())
}

/// Whether a pattern has more variants than are translated.
pub open spec fn too_many_variants(segs: Seq<SegmentView>) -> bool {
    variant_rows(segs).len() > MAX_VARIANTS
}

/// The glob texts of a pattern's variants.
pub open spec fn variant_texts(segs: Seq<SegmentView>) -> Seq<Seq<char>> {
    if segs.len() == 0 {
        Seq::empty()
    } else {
        variant_rows(segs).map_values(|row: Seq<Seq<char>>| join(row, seq!['/']))
    }
}

/// The filter rule for one variant of a pattern in the directory `base`.
pub open spec fn rule_text(base: Seq<Seq<char>>, p: PatternView, variant: Seq<char>) -> Seq<char> {
    (if p.negated {
        seq!['+', ' ', '/']
    } else {
        seq!['-', ' ', '/']
    }) + base_text(base) + variant + (if p.dir_only {
        seq!['/']
    } else {
        Seq::empty()
    })
}

/// The filter rules for one pattern.
pub open spec fn pattern_rules(base: Seq<Seq<char>>, p: PatternView) -> Seq<Seq<char>> {
    variant_texts(p.segments).map_values(|variant: Seq<char>| rule_text(base, p, variant))
}

/// The filter rules for the patterns of one source, last pattern first.
pub open spec fn patterns_rules(base: Seq<Seq<char>>, patterns: Seq<PatternView>) -> Seq<Seq<char>>
    decreases patterns.len(),
{
    if patterns.len() == 0 {
        Seq::empty()
    } else {
        pattern_rules(base, patterns.last()) + patterns_rules(base, patterns.drop_last())
    }
}

/// The filter rules for the sources of a set, last source first.
pub open spec fn sources_rules(sources: Seq<SourceView>) -> Seq<Seq<char>>
    decreases sources.len(),
{
    if sources.len() == 0 {
        Seq::empty()
    } else {
        patterns_rules(sources.last().base, sources.last().patterns) + sources_rules(
            sources.drop_last(),
        )
    }
}

/// The filter rules for a rule set: the built-in excludes, then its sources.
pub open spec fn filter_rules(sources: Seq<SourceView>) -> Seq<Seq<char>> {
    seq!["- /.git"@, "- /.dsync"@] + sources_rules(sources)
}

/// The last pattern that has too many variants.
pub open spec fn oversized_pattern(patterns: Seq<PatternView>) -> Option<PatternView>
    decreases patterns.len(),
{
    if patterns.len() == 0 {
        None
    } else if too_many_variants(patterns.last().segments) {
        Some(patterns.last())
    } else {
        oversized_pattern(patterns.drop_last())
    }
}

/// The highest-precedence pattern of a set that has too many variants.
pub open spec fn oversized(sources: Seq<SourceView>) -> Option<PatternView>
    decreases sources.len(),
{
    if sources.len() == 0 {
        None
    } else if oversized_pattern(sources.last().patterns) is Some {
        oversized_pattern(sources.last().patterns)
    } else {
        oversized(sources.drop_last())
    }
}

// ---------------------------------------------------------------------------
// Emitting it
// ---------------------------------------------------------------------------
/// The texts of rows of strings.
pub open spec fn row_views(rows: Seq<Vec<String>>) -> Seq<Seq<Seq<char>>> {
    rows.map_values(|row: Vec<String>| views(row@))
}

proof fn lemma_doubled_len<T>(rows: Seq<Seq<T>>, x: T)
    ensures
        doubled(rows, x).len() == 2 * rows.len(),
    decreases rows.len(),
{
    if rows.len() > 0 {
        lemma_doubled_len(rows.drop_last(), x);
    }
}

proof fn lemma_expansion_grows<T>(parts: Seq<T>, optional: Seq<bool>, m: nat, n: nat)
    requires
        m <= n,
    ensures
        expansion(parts, optional, m).len() <= expansion(parts, optional, n).len(),
    decreases n,
{
    if m < n {
        lemma_expansion_grows(parts, optional, m, (n - 1) as nat);
        lemma_doubled_len(expansion(parts, optional, (n - 1) as nat), parts[n - 1]);
    }
}

/// A copy of a row of strings.
fn copy_row(row: &Vec<String>) -> (copy: Vec<String>)
    ensures
        views(copy@) == views(row@),
{
    broadcast use group_views;

    let mut copy: Vec<String> = Vec::new();
    for i in 0..row.len()
        invariant
            views(copy@) == views(row@).take(i as int),
    {
        broadcast use group_views;

        copy.push(row[i].clone());
        proof {
            assert(views(row@).take(i + 1) =~= views(row@).take(i as int).push(row@[i as int]@));
        }
    }
    proof {
        assert(views(row@).take(row@.len() as int) =~= views(row@));
    }
    copy
}

/// Appends `text` to every row.
fn push_each(rows: &Vec<Vec<String>>, text: &String) -> (longer: Vec<Vec<String>>)
    ensures
        row_views(longer@) == row_views(rows@).map_values(|row: Seq<Seq<char>>| row.push(text@)),
{
    broadcast use group_views;

    let ghost all = row_views(rows@);
    let mut longer: Vec<Vec<String>> = Vec::new();
    for i in 0..rows.len()
        invariant
            all == row_views(rows@),
            longer@.len() == i,
            forall|k: int| 0 <= k < i ==> views(#[trigger] longer@[k]@) == all[k].push(text@),
    {
        broadcast use group_views;

        let mut row = copy_row(&rows[i]);
        row.push(text.clone());
        longer.push(row);
    }
    proof {
        assert(row_views(longer@) =~= all.map_values(|row: Seq<Seq<char>>| row.push(text@)));
    }
    longer
}

/// Every row twice: with `**` behind it, and as it is.
fn double_rows(rows: &Vec<Vec<String>>) -> (more: Vec<Vec<String>>)
    ensures
        row_views(more@) == doubled(row_views(rows@), seq!['*', '*']),
{
    broadcast use group_views;

    let ghost all = row_views(rows@);
    let ghost stars: Seq<char> = seq!['*', '*'];
    let mut more: Vec<Vec<String>> = Vec::new();
    proof {
        assert(row_views(more@) =~= doubled(all.take(0), stars));
    }
    for i in 0..rows.len()
        invariant
            all == row_views(rows@),
            stars == seq!['*', '*'],
            row_views(more@) == doubled(all.take(i as int), stars),
    {
        broadcast use group_views;

        let ghost before = more@;
        let mut with = copy_row(&rows[i]);
        let mut text = String::new();
        text.push('*');
        text.push('*');
        proof {
            assert(text@ =~= stars);
        }
        with.push(text);
        let plain = copy_row(&rows[i]);
        let ghost with_view = views(with@);
        let ghost plain_view = views(plain@);
        more.push(with);
        more.push(plain);
        proof {
            assert(all.take(i + 1).drop_last() =~= all.take(i as int));
            assert(all.take(i + 1).last() == views(rows@[i as int]@));
            assert(row_views(more@) =~= row_views(before).push(with_view).push(plain_view));
        }
    }
    proof {
        assert(all.take(all.len() as int) =~= all);
    }
    more
}

/// Renders a pattern's segments into one or more rsync glob strings,
/// expanding each non-trailing `**` into "absent" and "`**`" variants.
fn expand_variants(pat: &Pattern) -> (variants: Result<Vec<String>, TranslateError>)
    ensures
        match variants {
            Ok(texts) => !too_many_variants(pat@.segments) && views(texts@) == variant_texts(
                pat@.segments,
            ),
            Err(e) => too_many_variants(pat@.segments) && e is TooManyVariants && e.line()
                == pat@.original,
        },
{
    broadcast use group_views;

    let ghost segs = pat@.segments;
    let ghost texts = segment_texts(segs);
    let ghost optional = optional_segments(segs);
    let mut rows: Vec<Vec<String>> = Vec::new();
    rows.push(Vec::new());
    proof {
        assert(row_views(rows@) =~= expansion(texts, optional, 0));
    }
    let n: usize = pat.segments.len();
    for i in 0..n
        invariant
            n == pat.segments@.len(),
            segs == views(pat.segments@),
            segs == pat@.segments,
            texts == segment_texts(segs),
            optional == optional_segments(segs),
            row_views(rows@) == expansion(texts, optional, i as nat),
            rows@.len() <= MAX_VARIANTS,
    {
        broadcast use group_views;

        proof {
            assert(texts[i as int] == segment_text(pat.segments@[i as int]@));
            assert(optional[i as int] == (pat.segments@[i as int] is DoubleStar && i + 1 < n));
        }
        match &pat.segments[i] {
            Segment::Glob(toks) => {
                let rendered = render_glob(toks.as_slice());
                rows = push_each(&rows, &rendered);
            },
            Segment::DoubleStar => {
                if i + 1 == n {
                    // Trailing `**` matches one-or-more segments in
                    // gitignore; rsync's `dir/**` likewise only matches
                    // strictly inside.
                    let mut text = String::new();
                    text.push('*');
                    text.push('*');
                    proof {
                        assert(text@ =~= seq!['*', '*']);
                    }
                    rows = push_each(&rows, &text);
                } else {
                    rows = double_rows(&rows);
                    if rows.len() > MAX_VARIANTS {
                        proof {
                            assert(row_views(rows@).len() == rows@.len());
                            lemma_expansion_grows(texts, optional, (i + 1) as nat, n as nat);
                        }
                        return Err(
                            TranslateError::TooManyVariants { pattern: pat.original.clone() },
                        );
                    }
                }
            },
        }
        proof {
            assert(row_views(rows@) == expansion(texts, optional, (i + 1) as nat));
            assert(row_views(rows@).len() == rows@.len());
        }
    }
    let mut out: Vec<String> = Vec::new();
    if n == 0 {
        proof {
            assert(row_views(rows@).len() == rows@.len());
        }
        return Ok(out);
    }
    let ghost joined = variant_texts(segs);
    for i in 0..rows.len()
        invariant
            row_views(rows@) == variant_rows(segs),
            segs.len() > 0,
            joined == variant_texts(segs),
            views(out@) == joined.take(i as int),
    {
        broadcast use group_views;

        proof {
            reveal_strlit("/");
            assert("/"@ =~= seq!['/']);
            assert(row_views(rows@)[i as int] == views(rows@[i as int]@));
        }
        out.push(join_strings(&rows[i], "/"));
        proof {
            assert(joined.take(i + 1) =~= joined.take(i as int).push(joined[i as int]));
        }
    }
    proof {
        assert(row_views(rows@).len() == rows@.len());
        assert(joined.take(joined.len() as int) =~= joined);
    }
    Ok(out)
}

/// The path prefix of a source's base directory as glob text.
fn render_base(base: &Vec<Vec<char>>) -> (text: String)
    ensures
        text@ == base_text(views(base@)),
{
    broadcast use group_views;

    let ghost all = views(base@);
    let mut text = String::new();
    for i in 0..base.len()
        invariant
            all == views(base@),
            text@ == base_text(all.take(i as int)),
    {
        broadcast use group_views;

        proof {
            assert(all.take(i + 1).drop_last() =~= all.take(i as int));
            assert(all.take(i + 1).last() == base@[i as int]@);
        }
        let ghost before = text@;
        let segment = render_literal(base[i].as_slice());
        text.append(segment.as_str());
        text.push('/');
        proof {
            assert(text@ =~= before + segment@.push('/'));
        }
    }
    proof {
        assert(all.take(all.len() as int) =~= all);
    }
    text
}

/// Appends the rules for one pattern of a source whose base directory
/// renders as `prefix`.
fn push_pattern_rules(
    rules: &mut Vec<String>,
    Ghost(base): Ghost<Seq<Seq<char>>>,
    prefix: &String,
    pat: &Pattern,
) -> (done: Result<(), TranslateError>)
    requires
        prefix@ == base_text(base),
    ensures
        match done {
            Ok(_) => !too_many_variants(pat@.segments) && views(final(rules)@) == views(
                old(rules)@,
            ) + pattern_rules(base, pat@),
            Err(e) => too_many_variants(pat@.segments) && e is TooManyVariants && e.line()
                == pat@.original,
        },
{
    broadcast use group_views;

    let variants = match expand_variants(pat) {
        Ok(variants) => variants,
        Err(e) => {
            return Err(e);
        },
    };
    let ghost texts = variant_texts(pat@.segments);
    let ghost new = pattern_rules(base, pat@);
    let ghost before = views(rules@);
    proof {
        assert(before + new.take(0) =~= before);
    }
    for i in 0..variants.len()
        invariant
            texts == views(variants@),
            prefix@ == base_text(base),
            new == texts.map_values(|variant: Seq<char>| rule_text(base, pat@, variant)),
            views(rules@) == before + new.take(i as int),
    {
        broadcast use group_views;

        let mut rule = String::new();
        rule.push(
            if pat.negated {
                '+'
            } else {
                '-'
            },
        );
        rule.push(' ');
        rule.push('/');
        rule.append(prefix.as_str());
        rule.append(variants[i].as_str());
        if pat.dir_only {
            rule.push('/');
        }
        proof {
            assert(rule@ =~= rule_text(base, pat@, texts[i as int]));
            assert(before + new.take(i + 1) =~= (before + new.take(i as int)).push(new[i as int]));
        }
        rules.push(rule);
    }
    proof {
        assert(new.take(new.len() as int) =~= new);
    }
    Ok(())
}

/// Appends the rules for one source, its last pattern first.
fn push_source_rules(rules: &mut Vec<String>, source: &Source) -> (done: Result<
    (),
    TranslateError,
>)
    ensures
        match done {
            Ok(_) => oversized_pattern(source@.patterns) is None && views(final(rules)@) == views(
                old(rules)@,
            ) + patterns_rules(source@.base, source@.patterns),
            Err(e) => oversized_pattern(source@.patterns) matches Some(p) && e is TooManyVariants
                && e.line() == p.original,
        },
{
    broadcast use group_views;

    let prefix = render_base(&source.base);
    proof {
        source.lemma_view();
    }
    let ghost base = source@.base;
    let ghost all = source@.patterns;
    let ghost before = views(rules@);
    let ghost mut done: Seq<Seq<char>> = Seq::empty();
    proof {
        assert(all.take(all.len() as int) =~= all);
        assert(before + done =~= before);
        assert(done + patterns_rules(base, all) =~= patterns_rules(base, all));
    }
    let mut i: usize = source.patterns.len();
    while i > 0
        invariant
            i <= source.patterns@.len(),
            prefix@ == base_text(base),
            base == source@.base,
            all == source@.patterns,
            all == views(source.patterns@),
            oversized_pattern(all) == oversized_pattern(all.take(i as int)),
            views(rules@) == before + done,
            done + patterns_rules(base, all.take(i as int)) == patterns_rules(base, all),
        decreases i,
    {
        broadcast use group_views;

        let ghost earlier = done;
        proof {
            assert(all.take(i as int).drop_last() =~= all.take(i - 1));
            assert(all.take(i as int).last() == source.patterns@[i - 1]@);
        }
        match push_pattern_rules(rules, Ghost(base), &prefix, &source.patterns[i - 1]) {
            Ok(_) => {},
            Err(e) => {
                return Err(e);
            },
        }
        proof {
            let own = pattern_rules(base, all[i - 1]);
            let rest = patterns_rules(base, all.take(i - 1));
            done = earlier + own;
            assert((before + earlier) + own =~= before + (earlier + own));
            assert(earlier + (own + rest) =~= (earlier + own) + rest);
        }
        i = i - 1;
    }
    proof {
        assert(done + Seq::<Seq<char>>::empty() =~= done);
    }
    Ok(())
}

/// Translates the rule set into an ordered list of rsync filter rules
/// (each suitable as a `--filter=RULE` argument).
///
/// rsync applies the first matching rule, while gitignore applies the *last*
/// matching pattern from the highest-precedence file, so rules are emitted
/// highest-precedence first: the built-in `.git` / `.dsync` excludes, then
/// each source from last-added to first, with each file's patterns reversed.
///
/// Every rule is anchored at the transfer root (a leading `/`), prefixed
/// with its source's base directory. Because rsync's `**` cannot match zero
/// path components (unlike gitignore's), each non-trailing `**` is expanded
/// into both variants.
///
/// The caller must run rsync *without* `--delete-excluded`, so that
/// excluded paths are neither sent nor deleted.
pub fn rsync_filter_rules(set: &IgnoreSet) -> (rules: Result<Vec<String>, TranslateError>)
    ensures
        match rules {
            Ok(texts) => oversized(set@) is None && views(texts@) == filter_rules(set@),
            Err(e) => oversized(set@) matches Some(p) && e is TooManyVariants && e.line()
                == p.original,
        },
{
    broadcast use group_views;

    let mut rules: Vec<String> = Vec::new();
    rules.push("- /.git".to_string());
    rules.push("- /.dsync".to_string());
    proof {
        set.lemma_view();
    }
    let ghost all = set@;
    let ghost first: Seq<Seq<char>> = seq!["- /.git"@, "- /.dsync"@];
    let ghost mut done: Seq<Seq<char>> = Seq::empty();
    proof {
        assert(all.take(all.len() as int) =~= all);
        assert(views(rules@) =~= first + done);
        assert(done + sources_rules(all) =~= sources_rules(all));
    }
    let mut i: usize = set.sources.len();
    while i > 0
        invariant
            i <= set.sources@.len(),
            all == set@,
            all == views(set.sources@),
            oversized(all) == oversized(all.take(i as int)),
            views(rules@) == first + done,
            done + sources_rules(all.take(i as int)) == sources_rules(all),
        decreases i,
    {
        broadcast use group_views;

        let ghost earlier = done;
        proof {
            assert(all.take(i as int).drop_last() =~= all.take(i - 1));
            assert(all.take(i as int).last() == set.sources@[i - 1]@);
        }
        match push_source_rules(&mut rules, &set.sources[i - 1]) {
            Ok(_) => {},
            Err(e) => {
                return Err(e);
            },
        }
        proof {
            let own = patterns_rules(all[i - 1].base, all[i - 1].patterns);
            let rest = sources_rules(all.take(i - 1));
            done = earlier + own;
            assert((first + earlier) + own =~= first + (earlier + own));
            assert(earlier + (own + rest) =~= (earlier + own) + rest);
        }
        i = i - 1;
    }
    proof {
        assert(done + Seq::<Seq<char>>::empty() =~= done);
    }
    Ok(rules)
}

} // verus!
