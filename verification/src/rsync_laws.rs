//! The rsync filter rules say what the evaluator says.
//!
//! rsync reads a filter rule as an anchored list of path segments in which
//! `**` stands for one or more of them, and goes by the first rule that
//! matches. This module states what the emitted rules mean when read so, and
//! that their verdict is that of the rule set.

use crate::eval::{
    builtin_name, decision, ignored, inside, patterns_decide, source_of, sources_decide, Decision,
    SourceView,
};
use crate::eval_laws::{files_hold_the_patterns_of_their_lines, plain_word};
use crate::pattern::{
    glob_matches, glob_of, lemma_no_empty_path, pattern_matches, pattern_of, segments_match,
    PatternView, SegmentView,
};
use crate::pattern_laws::{plain_texts, rooted_lines_spell_one_segment, slashed_line};
use crate::render::{
    base_text, lemma_literal_glob, lemma_literal_text, lemma_prefixed_text, literal_segments,
    literal_text, segment_text, segment_texts,
};
use crate::render_laws::plain_words_are_written_as_they_are;
use crate::rsync::{
    doubled, expansion, filter_rules, optional_segments, oversized, oversized_pattern,
    pattern_rules, patterns_rules, rule_text, sources_rules, too_many_variants, variant_rows,
    variant_texts,
};
use crate::text::{join, split};
use vstd::prelude::*;

verus! {

// ---------------------------------------------------------------------------
// How rsync reads a rule
// ---------------------------------------------------------------------------
/// One filter rule as rsync reads it.
pub struct RsyncRule {
    /// A `+` rule rather than a `-` rule.
    pub reinclude: bool,
    /// A trailing `/`: only matches directories.
    pub dir_only: bool,
    /// The path segments, anchored at the transfer root.
    pub segments: Seq<SegmentView>,
}

/// Whether rsync's reading of the anchored segments matches `path`: every
/// `**` takes one or more path segments.
pub open spec fn rsync_matches(segs: Seq<SegmentView>, path: Seq<Seq<char>>) -> bool
    decreases segs.len(),
{
    if segs.len() == 0 {
        path.len() == 0
    } else {
        match segs[0] {
            SegmentView::DoubleStar => exists|i: int|
                0 < i <= path.len() && rsync_matches(segs.skip(1), #[trigger] path.skip(i)),
            SegmentView::Glob(toks) => path.len() > 0 && glob_matches(toks, path[0])
                && rsync_matches(segs.skip(1), path.skip(1)),
        }
    }
}

/// The verdict of the first rule that matches.
pub open spec fn first_match(
    rules: Seq<RsyncRule>,
    path: Seq<Seq<char>>,
    is_dir: bool,
) -> Decision
    decreases rules.len(),
{
    if rules.len() == 0 {
        Decision::Unmatched
    } else if (rules[0].dir_only ==> is_dir) && rsync_matches(rules[0].segments, path) {
        if rules[0].reinclude {
            Decision::Reincluded
        } else {
            Decision::Ignored
        }
    } else {
        first_match(rules.skip(1), path, is_dir)
    }
}

/// Whether rsync leaves `path` out of a transfer: the rules exclude it or a
/// directory on the way to it, which rsync then does not enter.
pub open spec fn left_out(rules: Seq<RsyncRule>, path: Seq<Seq<char>>, is_dir: bool) -> bool {
    path.len() > 0 && (first_match(rules, path, is_dir) is Ignored || exists|i: int|
        0 < i < path.len() && first_match(rules, #[trigger] path.take(i), true) is Ignored)
}

/// The text of a rule.
pub open spec fn rsync_text(rule: RsyncRule) -> Seq<char> {
    (if rule.reinclude {
        seq!['+', ' ', '/']
    } else {
        seq!['-', ' ', '/']
    }) + join(segment_texts(rule.segments), seq!['/']) + (if rule.dir_only {
        seq!['/']
    } else {
        Seq::empty()
    })
}

/// The rules for one pattern of a source at `base`.
pub open spec fn pattern_rsync_rules(base: Seq<Seq<char>>, p: PatternView) -> Seq<RsyncRule> {
    if p.segments.len() == 0 {
        Seq::empty()
    } else {
        expansion(p.segments, optional_segments(p.segments), p.segments.len()).map_values(
            |row: Seq<SegmentView>|
                RsyncRule {
                    reinclude: p.negated,
                    dir_only: p.dir_only,
                    segments: literal_segments(base) + row,
                },
        )
    }
}

/// The rules for the patterns of one source, last pattern first.
pub open spec fn patterns_rsync_rules(
    base: Seq<Seq<char>>,
    patterns: Seq<PatternView>,
) -> Seq<RsyncRule>
    decreases patterns.len(),
{
    if patterns.len() == 0 {
        Seq::empty()
    } else {
        pattern_rsync_rules(base, patterns.last()) + patterns_rsync_rules(
            base,
            patterns.drop_last(),
        )
    }
}

/// The rules for the sources of a set, last source first.
pub open spec fn sources_rsync_rules(sources: Seq<SourceView>) -> Seq<RsyncRule>
    decreases sources.len(),
{
    if sources.len() == 0 {
        Seq::empty()
    } else {
        patterns_rsync_rules(sources.last().base, sources.last().patterns) + sources_rsync_rules(
            sources.drop_last(),
        )
    }
}

/// The rule that excludes one entry of the repo root.
pub open spec fn root_rule(name: Seq<char>) -> RsyncRule {
    RsyncRule { reinclude: false, dir_only: false, segments: literal_segments(seq![name]) }
}

/// The rules for a rule set.
pub open spec fn rsync_rules(sources: Seq<SourceView>) -> Seq<RsyncRule> {
    seq![root_rule(".git"@), root_rule(".dsync"@)] + sources_rsync_rules(sources)
}

// ---------------------------------------------------------------------------
// Variants
// ---------------------------------------------------------------------------
/// Whether `row` is `parts` with some of the optional ones left out.
pub open spec fn is_variant<T>(parts: Seq<T>, optional: Seq<bool>, row: Seq<T>) -> bool
    decreases parts.len(),
{
    if parts.len() == 0 {
        row.len() == 0
    } else {
        (row.len() > 0 && row[0] == parts[0] && is_variant(
            parts.skip(1),
            optional.skip(1),
            row.skip(1),
        )) || (optional[0] && is_variant(parts.skip(1), optional.skip(1), row))
    }
}

proof fn lemma_variant_push<T>(parts: Seq<T>, optional: Seq<bool>, p: T, o: bool, row: Seq<T>)
    requires
        parts.len() == optional.len(),
    ensures
        is_variant(parts.push(p), optional.push(o), row) <==> (row.len() > 0 && row.last() == p
            && is_variant(parts, optional, row.drop_last())) || (o && is_variant(
            parts,
            optional,
            row,
        )),
    decreases parts.len(),
{
    let more = parts.push(p);
    let opts = optional.push(o);
    reveal_with_fuel(is_variant, 2);
    if row.len() == 1 {
        assert(row.skip(1) =~= row.drop_last());
    }
    if parts.len() > 0 {
        assert(more.skip(1) =~= parts.skip(1).push(p));
        assert(opts.skip(1) =~= optional.skip(1).push(o));
        lemma_variant_push(parts.skip(1), optional.skip(1), p, o, row);
        if row.len() > 0 {
            lemma_variant_push(parts.skip(1), optional.skip(1), p, o, row.skip(1));
            if row.len() > 1 {
                assert(row.skip(1).drop_last() =~= row.drop_last().skip(1));
                assert(row.drop_last()[0] == row[0]);
            }
        }
    }
}

proof fn lemma_doubled_contains<T>(rows: Seq<Seq<T>>, x: T, row: Seq<T>)
    ensures
        doubled(rows, x).contains(row) <==> (row.len() > 0 && row.last() == x && rows.contains(
            row.drop_last(),
        )) || rows.contains(row),
    decreases rows.len(),
{
    if rows.len() > 0 {
        let init = rows.drop_last();
        let last = rows.last();
        let d = doubled(init, x);
        let all = doubled(rows, x);
        lemma_doubled_contains(init, x, row);
        assert(rows =~= init.push(last));
        assert forall|r: Seq<T>| rows.contains(r) <==> init.contains(r) || r == last by {
            if init.contains(r) {
                let k = choose|k: int| 0 <= k < init.len() && init[k] == r;
                assert(rows[k] == r);
            }
            if rows.contains(r) && r != last {
                let k = choose|k: int| 0 <= k < rows.len() && rows[k] == r;
                assert(init[k] == r);
            }
            if r == last {
                assert(rows[rows.len() - 1] == r);
            }
        }
        assert(all.contains(row) <==> d.contains(row) || row == last.push(x) || row == last) by {
            if d.contains(row) {
                let k = choose|k: int| 0 <= k < d.len() && d[k] == row;
                assert(all[k] == row);
            }
            if row == last.push(x) {
                assert(all[d.len() as int] == row);
            }
            if row == last {
                assert(all[d.len() as int + 1] == row);
            }
            if all.contains(row) && row != last.push(x) && row != last {
                let k = choose|k: int| 0 <= k < all.len() && all[k] == row;
                assert(d[k] == row);
            }
        }
        if row.len() > 0 && row.last() == x {
            assert(row =~= row.drop_last().push(x));
        }
        assert(last.push(x).drop_last() =~= last);
    }
}

proof fn lemma_expansion_contains<T>(parts: Seq<T>, optional: Seq<bool>, n: nat, row: Seq<T>)
    requires
        parts.len() == optional.len(),
        n <= parts.len(),
    ensures
        expansion(parts, optional, n).contains(row) <==> is_variant(
            parts.take(n as int),
            optional.take(n as int),
            row,
        ),
    decreases n,
{
    if n == 0 {
        let rows = expansion(parts, optional, 0);
        assert(rows[0] == Seq::<T>::empty());
        if row.len() == 0 {
            assert(row =~= rows[0]);
        }
    } else {
        let m = (n - 1) as nat;
        let rows = expansion(parts, optional, m);
        let x = parts[n - 1];
        assert(parts.take(n as int) =~= parts.take(m as int).push(x));
        assert(optional.take(n as int) =~= optional.take(m as int).push(optional[n - 1]));
        lemma_variant_push(parts.take(m as int), optional.take(m as int), x, optional[n - 1], row);
        lemma_expansion_contains(parts, optional, m, row);
        if row.len() > 0 {
            lemma_expansion_contains(parts, optional, m, row.drop_last());
        }
        if optional[n - 1] {
            lemma_doubled_contains(rows, x, row);
        } else {
            let longer = rows.map_values(|r: Seq<T>| r.push(x));
            if longer.contains(row) {
                let k = choose|k: int| 0 <= k < longer.len() && longer[k] == row;
                assert(row == rows[k].push(x));
                assert(row.drop_last() =~= rows[k]);
            }
            if row.len() > 0 && row.last() == x && rows.contains(row.drop_last()) {
                let k = choose|k: int| 0 <= k < rows.len() && rows[k] == row.drop_last();
                assert(longer[k] =~= row);
            }
        }
    }
}

/// Some variant matches wherever the pattern does.
proof fn lemma_variant_for(segs: Seq<SegmentView>, path: Seq<Seq<char>>) -> (row: Seq<SegmentView>)
    requires
        segments_match(segs, path),
    ensures
        is_variant(segs, optional_segments(segs), row),
        rsync_matches(row, path),
    decreases segs.len(),
{
    if segs.len() == 0 {
        segs
    } else {
        let rest = segs.skip(1);
        assert(optional_segments(segs).skip(1) =~= optional_segments(rest));
        match segs[0] {
            SegmentView::Glob(toks) => {
                let tail = lemma_variant_for(rest, path.skip(1));
                let row = seq![segs[0]] + tail;
                assert(row.skip(1) =~= tail);
                row
            },
            SegmentView::DoubleStar => {
                if segs.len() == 1 {
                    assert(path.skip(path.len() as int).len() == 0);
                    assert(rest =~= Seq::empty());
                    assert(rsync_matches(rest, path.skip(path.len() as int)));
                    assert(rsync_matches(segs, path));
                    assert(is_variant(rest, optional_segments(rest), segs.skip(1)));
                    segs
                } else {
                    let i = choose|i: int|
                        0 <= i <= path.len() && segments_match(rest, #[trigger] path.skip(i));
                    let tail = lemma_variant_for(rest, path.skip(i));
                    if i == 0 {
                        assert(path.skip(0) =~= path);
                        tail
                    } else {
                        let row = seq![segs[0]] + tail;
                        assert(row.skip(1) =~= tail);
                        row
                    }
                }
            },
        }
    }
}

/// The pattern matches wherever one of its variants does.
proof fn lemma_variant_sound(segs: Seq<SegmentView>, row: Seq<SegmentView>, path: Seq<Seq<char>>)
    requires
        is_variant(segs, optional_segments(segs), row),
        rsync_matches(row, path),
    ensures
        segments_match(segs, path),
    decreases segs.len(),
{
    if segs.len() > 0 {
        let rest = segs.skip(1);
        assert(optional_segments(segs).skip(1) =~= optional_segments(rest));
        match segs[0] {
            SegmentView::Glob(toks) => {
                lemma_variant_sound(rest, row.skip(1), path.skip(1));
            },
            SegmentView::DoubleStar => {
                if segs.len() == 1 {
                    let i = choose|i: int|
                        0 < i <= path.len() && rsync_matches(row.skip(1), #[trigger] path.skip(i));
                    assert(path.len() > 0);
                } else if row.len() > 0 && row[0] == segs[0] && is_variant(
                    rest,
                    optional_segments(rest),
                    row.skip(1),
                ) {
                    let i = choose|i: int|
                        0 < i <= path.len() && rsync_matches(row.skip(1), #[trigger] path.skip(i));
                    lemma_variant_sound(rest, row.skip(1), path.skip(i));
                } else {
                    lemma_variant_sound(rest, row, path);
                    assert(path.skip(0) =~= path);
                    assert(segments_match(rest, path.skip(0)));
                }
            },
        }
    }
}

/// A pattern matches exactly the paths that one of its variants matches under
/// rsync's reading of `**`.
pub proof fn variants_cover_the_pattern(segs: Seq<SegmentView>, path: Seq<Seq<char>>)
    ensures
        segments_match(segs, path) <==> exists|k: int|
            0 <= k < expansion(segs, optional_segments(segs), segs.len()).len() && rsync_matches(
                #[trigger] expansion(segs, optional_segments(segs), segs.len())[k],
                path,
            ),
{
    let optional = optional_segments(segs);
    let rows = expansion(segs, optional, segs.len());
    assert(segs.take(segs.len() as int) =~= segs);
    assert(optional.take(segs.len() as int) =~= optional);
    if segments_match(segs, path) {
        let row = lemma_variant_for(segs, path);
        lemma_expansion_contains(segs, optional, segs.len(), row);
        let k = choose|k: int| 0 <= k < rows.len() && rows[k] == row;
        assert(rsync_matches(rows[k], path));
    }
    if exists|k: int| 0 <= k < rows.len() && rsync_matches(#[trigger] rows[k], path) {
        let k = choose|k: int| 0 <= k < rows.len() && rsync_matches(#[trigger] rows[k], path);
        lemma_expansion_contains(segs, optional, segs.len(), rows[k]);
        lemma_variant_sound(segs, rows[k], path);
    }
}

// ---------------------------------------------------------------------------
// Verdicts
// ---------------------------------------------------------------------------
proof fn lemma_first_match_add(
    a: Seq<RsyncRule>,
    b: Seq<RsyncRule>,
    path: Seq<Seq<char>>,
    is_dir: bool,
)
    ensures
        first_match(a + b, path, is_dir) == (if first_match(a, path, is_dir) is Unmatched {
            first_match(b, path, is_dir)
        } else {
            first_match(a, path, is_dir)
        }),
    decreases a.len(),
{
    if a.len() == 0 {
        assert(a + b =~= b);
    } else {
        assert((a + b).skip(1) =~= a.skip(1) + b);
        lemma_first_match_add(a.skip(1), b, path, is_dir);
    }
}

proof fn lemma_first_match_uniform(
    rules: Seq<RsyncRule>,
    reinclude: bool,
    dir_only: bool,
    path: Seq<Seq<char>>,
    is_dir: bool,
)
    requires
        forall|k: int|
            0 <= k < rules.len() ==> (#[trigger] rules[k]).reinclude == reinclude
                && rules[k].dir_only == dir_only,
    ensures
        first_match(rules, path, is_dir) == (if (dir_only ==> is_dir) && exists|k: int|
            0 <= k < rules.len() && rsync_matches((#[trigger] rules[k]).segments, path) {
            if reinclude {
                Decision::Reincluded
            } else {
                Decision::Ignored
            }
        } else {
            Decision::Unmatched
        }),
    decreases rules.len(),
{
    if rules.len() > 0 {
        let rest = rules.skip(1);
        assert forall|k: int| 0 <= k < rest.len() implies (#[trigger] rest[k]).reinclude
            == reinclude && rest[k].dir_only == dir_only by {
            assert(rest[k] == rules[k + 1]);
        }
        lemma_first_match_uniform(rest, reinclude, dir_only, path, is_dir);
        if exists|k: int| 0 <= k < rules.len() && rsync_matches(
            (#[trigger] rules[k]).segments,
            path,
        ) {
            let k = choose|k: int|
                0 <= k < rules.len() && rsync_matches((#[trigger] rules[k]).segments, path);
            if k > 0 {
                assert(rest[k - 1] == rules[k]);
            }
        }
        if exists|k: int| 0 <= k < rest.len() && rsync_matches((#[trigger] rest[k]).segments, path) {
            let k = choose|k: int|
                0 <= k < rest.len() && rsync_matches((#[trigger] rest[k]).segments, path);
            assert(rules[k + 1] == rest[k]);
        }
    }
}

proof fn lemma_literal_prefix(
    base: Seq<Seq<char>>,
    row: Seq<SegmentView>,
    path: Seq<Seq<char>>,
)
    ensures
        rsync_matches(literal_segments(base) + row, path) <==> base.len() <= path.len()
            && path.take(base.len() as int) == base && rsync_matches(
            row,
            path.skip(base.len() as int),
        ),
    decreases base.len(),
{
    let segs = literal_segments(base) + row;
    if base.len() == 0 {
        assert(segs =~= row);
        assert(path.skip(0) =~= path);
        assert(path.take(0) =~= base);
    } else {
        let rest = base.skip(1);
        assert(segs.skip(1) =~= literal_segments(rest) + row);
        if path.len() > 0 {
            lemma_literal_glob(base[0], path[0]);
            lemma_literal_prefix(rest, row, path.skip(1));
            if base.len() <= path.len() {
                assert(path.skip(1).skip(rest.len() as int) =~= path.skip(base.len() as int));
                assert(path.take(base.len() as int) =~= seq![path[0]] + path.skip(1).take(
                    rest.len() as int,
                ));
                assert(base =~= seq![base[0]] + rest);
                if path.take(base.len() as int) == base {
                    assert(path[0] == path.take(base.len() as int)[0]);
                    assert(path.skip(1).take(rest.len() as int) =~= path.take(
                        base.len() as int,
                    ).skip(1));
                }
            }
        }
    }
}

proof fn lemma_pattern_verdict(
    base: Seq<Seq<char>>,
    p: PatternView,
    path: Seq<Seq<char>>,
    is_dir: bool,
)
    ensures
        first_match(pattern_rsync_rules(base, p), path, is_dir) == (if inside(base, path)
            && pattern_matches(p, path.skip(base.len() as int), is_dir) {
            if p.negated {
                Decision::Reincluded
            } else {
                Decision::Ignored
            }
        } else {
            Decision::Unmatched
        }),
{
    let rules = pattern_rsync_rules(base, p);
    let segs = p.segments;
    lemma_first_match_uniform(rules, p.negated, p.dir_only, path, is_dir);
    if segs.len() > 0 {
        let rows = expansion(segs, optional_segments(segs), segs.len());
        let rel = path.skip(base.len() as int);
        variants_cover_the_pattern(segs, rel);
        let at = base.len() <= path.len() && path.take(base.len() as int) == base;
        assert forall|k: int| 0 <= k < rows.len() implies rsync_matches(
            (#[trigger] rules[k]).segments,
            path,
        ) == (at && rsync_matches(rows[k], rel)) by {
            lemma_literal_prefix(base, rows[k], path);
        }
        if at && rel.len() == 0 {
            lemma_no_empty_path(segs, rel);
        }
        if at && segments_match(segs, rel) {
            let k = choose|k: int| 0 <= k < rows.len() && rsync_matches(#[trigger] rows[k], rel);
            assert(rsync_matches(rules[k].segments, path));
        }
    }
}

proof fn lemma_patterns_verdict(
    base: Seq<Seq<char>>,
    patterns: Seq<PatternView>,
    path: Seq<Seq<char>>,
    is_dir: bool,
)
    ensures
        first_match(patterns_rsync_rules(base, patterns), path, is_dir) == (if inside(base, path) {
            patterns_decide(patterns, path.skip(base.len() as int), is_dir)
        } else {
            Decision::Unmatched
        }),
    decreases patterns.len(),
{
    if patterns.len() > 0 {
        lemma_pattern_verdict(base, patterns.last(), path, is_dir);
        lemma_patterns_verdict(base, patterns.drop_last(), path, is_dir);
        lemma_first_match_add(
            pattern_rsync_rules(base, patterns.last()),
            patterns_rsync_rules(base, patterns.drop_last()),
            path,
            is_dir,
        );
    }
}

proof fn lemma_sources_verdict(sources: Seq<SourceView>, path: Seq<Seq<char>>, is_dir: bool)
    ensures
        first_match(sources_rsync_rules(sources), path, is_dir) == sources_decide(
            sources,
            path,
            is_dir,
        ),
    decreases sources.len(),
{
    if sources.len() > 0 {
        let last = sources.last();
        lemma_patterns_verdict(last.base, last.patterns, path, is_dir);
        lemma_sources_verdict(sources.drop_last(), path, is_dir);
        lemma_first_match_add(
            patterns_rsync_rules(last.base, last.patterns),
            sources_rsync_rules(sources.drop_last()),
            path,
            is_dir,
        );
    }
}

proof fn lemma_root_rule(name: Seq<char>, path: Seq<Seq<char>>)
    ensures
        rsync_matches(root_rule(name).segments, path) <==> path == seq![name],
{
    let segs = literal_segments(seq![name]);
    assert(segs + Seq::<SegmentView>::empty() =~= segs);
    lemma_literal_prefix(seq![name], Seq::empty(), path);
    if path.len() == 1 {
        assert(path.take(1) =~= path);
    }
}

/// The first emitted rule that matches a path gives the evaluator's verdict
/// on it. (Inside `.git` and `.dsync`, which rsync does not enter, there is
/// nothing to match.)
pub proof fn first_match_is_the_decision(
    sources: Seq<SourceView>,
    path: Seq<Seq<char>>,
    is_dir: bool,
)
    requires
        path.len() > 0,
        path.len() == 1 || !builtin_name(path[0]),
    ensures
        first_match(rsync_rules(sources), path, is_dir) == decision(sources, path, is_dir),
{
    let first = seq![root_rule(".git"@), root_rule(".dsync"@)];
    lemma_sources_verdict(sources, path, is_dir);
    lemma_first_match_add(first, sources_rsync_rules(sources), path, is_dir);
    lemma_first_match_uniform(first, false, false, path, is_dir);
    lemma_root_rule(".git"@, path);
    lemma_root_rule(".dsync"@, path);
    assert(first[0] == root_rule(".git"@));
    assert(first[1] == root_rule(".dsync"@));
    if path.len() == 1 {
        assert(path =~= seq![path[0]]);
    }
}

/// rsync, given the emitted rules, leaves out exactly the paths that the rule
/// set ignores.
pub proof fn rsync_leaves_out_what_is_ignored(
    sources: Seq<SourceView>,
    path: Seq<Seq<char>>,
    is_dir: bool,
)
    ensures
        left_out(rsync_rules(sources), path, is_dir) <==> ignored(sources, path, is_dir),
{
    let rules = rsync_rules(sources);
    if path.len() > 0 {
        if builtin_name(path[0]) && path.len() > 1 {
            let top = path.take(1);
            first_match_is_the_decision(sources, top, true);
            assert(first_match(rules, path.take(1), true) is Ignored);
        } else {
            first_match_is_the_decision(sources, path, is_dir);
            assert forall|i: int| 0 < i < path.len() implies first_match(
                rules,
                #[trigger] path.take(i),
                true,
            ) == decision(sources, path.take(i), true) by {
                assert(path.take(i)[0] == path[0]);
                first_match_is_the_decision(sources, path.take(i), true);
            }
        }
    }
}

// ---------------------------------------------------------------------------
// Texts
// ---------------------------------------------------------------------------
proof fn lemma_doubled_texts(rows: Seq<Seq<SegmentView>>, x: SegmentView)
    ensures
        doubled(
            rows.map_values(|row: Seq<SegmentView>| segment_texts(row)),
            segment_text(x),
        ) == doubled(rows, x).map_values(|row: Seq<SegmentView>| segment_texts(row)),
    decreases rows.len(),
{
    let f = |row: Seq<SegmentView>| segment_texts(row);
    if rows.len() == 0 {
        assert(doubled(rows, x).map_values(f) =~= Seq::empty());
    } else {
        lemma_doubled_texts(rows.drop_last(), x);
        assert(rows.map_values(f).drop_last() =~= rows.drop_last().map_values(f));
        assert(segment_texts(rows.last()).push(segment_text(x)) =~= segment_texts(
            rows.last().push(x),
        ));
        assert(doubled(rows, x).map_values(f) =~= doubled(rows.drop_last(), x).map_values(f).push(
            f(rows.last().push(x)),
        ).push(f(rows.last())));
    }
}

proof fn lemma_expansion_texts(segs: Seq<SegmentView>, optional: Seq<bool>, n: nat)
    requires
        n <= segs.len(),
    ensures
        expansion(segment_texts(segs), optional, n) == expansion(segs, optional, n).map_values(
            |row: Seq<SegmentView>| segment_texts(row),
        ),
    decreases n,
{
    let f = |row: Seq<SegmentView>| segment_texts(row);
    if n == 0 {
        assert(expansion(segs, optional, 0).map_values(f) =~= seq![
            segment_texts(Seq::empty()),
        ]);
        assert(segment_texts(Seq::empty()) =~= Seq::empty());
    } else {
        let m = (n - 1) as nat;
        let rows = expansion(segs, optional, m);
        let x = segs[n - 1];
        lemma_expansion_texts(segs, optional, m);
        if optional[n - 1] {
            lemma_doubled_texts(rows, x);
        } else {
            let longer = rows.map_values(|row: Seq<SegmentView>| row.push(x));
            let texts = rows.map_values(f).map_values(
                |row: Seq<Seq<char>>| row.push(segment_text(x)),
            );
            assert forall|k: int| 0 <= k < rows.len() implies texts[k] == f(#[trigger] longer[k]) by {
                assert(segment_texts(rows[k]).push(segment_text(x)) =~= segment_texts(
                    rows[k].push(x),
                ));
            }
            assert(texts =~= longer.map_values(f));
            assert(expansion(segment_texts(segs), optional, n) =~= texts);
        }
    }
}

proof fn lemma_rows_nonempty(segs: Seq<SegmentView>, k: int)
    requires
        segs.len() > 0,
        0 <= k < expansion(segs, optional_segments(segs), segs.len()).len(),
    ensures
        expansion(segs, optional_segments(segs), segs.len())[k].len() > 0,
{
}

proof fn lemma_pattern_texts(base: Seq<Seq<char>>, p: PatternView)
    ensures
        pattern_rules(base, p) == pattern_rsync_rules(base, p).map_values(
            |rule: RsyncRule| rsync_text(rule),
        ),
{
    let rules = pattern_rsync_rules(base, p);
    let texts = pattern_rules(base, p);
    let f = |rule: RsyncRule| rsync_text(rule);
    let segs = p.segments;
    if segs.len() > 0 {
        let optional = optional_segments(segs);
        let rows = expansion(segs, optional, segs.len());
        lemma_expansion_texts(segs, optional, segs.len());
        assert(texts.len() == rows.len());
        assert forall|k: int| 0 <= k < rows.len() implies texts[k] == f(#[trigger] rules[k]) by {
            lemma_rows_nonempty(segs, k);
            lemma_prefixed_text(base, rows[k]);
            let row_text = join(segment_texts(rows[k]), seq!['/']);
            assert(variant_rows(segs)[k] == segment_texts(rows[k]));
            assert(texts[k] == rule_text(base, p, row_text));
            assert(rule_text(base, p, row_text) =~= rsync_text(rules[k]));
        }
        assert(texts =~= rules.map_values(f));
    } else {
        assert(texts =~= rules.map_values(f));
    }
}

proof fn lemma_patterns_texts(base: Seq<Seq<char>>, patterns: Seq<PatternView>)
    ensures
        patterns_rules(base, patterns) == patterns_rsync_rules(base, patterns).map_values(
            |rule: RsyncRule| rsync_text(rule),
        ),
    decreases patterns.len(),
{
    let f = |rule: RsyncRule| rsync_text(rule);
    if patterns.len() > 0 {
        let own = pattern_rsync_rules(base, patterns.last());
        let rest = patterns_rsync_rules(base, patterns.drop_last());
        lemma_pattern_texts(base, patterns.last());
        lemma_patterns_texts(base, patterns.drop_last());
        assert((own + rest).map_values(f) =~= own.map_values(f) + rest.map_values(f));
    } else {
        assert(patterns_rsync_rules(base, patterns).map_values(f) =~= Seq::empty());
    }
}

proof fn lemma_sources_texts(sources: Seq<SourceView>)
    ensures
        sources_rules(sources) == sources_rsync_rules(sources).map_values(
            |rule: RsyncRule| rsync_text(rule),
        ),
    decreases sources.len(),
{
    let f = |rule: RsyncRule| rsync_text(rule);
    if sources.len() > 0 {
        let own = patterns_rsync_rules(sources.last().base, sources.last().patterns);
        let rest = sources_rsync_rules(sources.drop_last());
        lemma_patterns_texts(sources.last().base, sources.last().patterns);
        lemma_sources_texts(sources.drop_last());
        assert((own + rest).map_values(f) =~= own.map_values(f) + rest.map_values(f));
    } else {
        assert(sources_rsync_rules(sources).map_values(f) =~= Seq::empty());
    }
}

/// The emitted filter rules are the texts of the rules whose meaning
/// [`first_match`] gives.
pub proof fn filter_rules_spell_the_rules(sources: Seq<SourceView>)
    ensures
        filter_rules(sources) == rsync_rules(sources).map_values(|rule: RsyncRule| rsync_text(rule)),
{
    let f = |rule: RsyncRule| rsync_text(rule);
    lemma_sources_texts(sources);
    assert forall|name: Seq<char>| name == ".git"@ || name == ".dsync"@ implies #[trigger] rsync_text(
        root_rule(name),
    ) == seq!['-', ' ', '/'] + name by {
        reveal_strlit(".git");
        reveal_strlit(".dsync");
        lemma_literal_text(name);
        let texts = segment_texts(literal_segments(seq![name]));
        assert(texts =~= seq![literal_text(name)]);
        reveal_with_fuel(literal_text, 7);
        assert(literal_text(name) =~= name);
        assert(rsync_text(root_rule(name)) =~= seq!['-', ' ', '/'] + name);
    }
    reveal_strlit("- /.git");
    reveal_strlit("- /.dsync");
    reveal_strlit(".git");
    reveal_strlit(".dsync");
    assert("- /.git"@ =~= rsync_text(root_rule(".git"@)));
    assert("- /.dsync"@ =~= rsync_text(root_rule(".dsync"@)));
    assert(filter_rules(sources) =~= rsync_rules(sources).map_values(f));
}

// ---------------------------------------------------------------------------
// What does not translate
// ---------------------------------------------------------------------------
/// The number of optional parts among the first `n`.
spec fn optional_count(optional: Seq<bool>, n: nat) -> nat
    decreases n,
{
    if n == 0 {
        0
    } else {
        optional_count(optional, (n - 1) as nat) + (if optional[n - 1] {
            1nat
        } else {
            0
        })
    }
}

/// Two to the power of `n`.
pub open spec fn two_to_the(n: nat) -> nat
    decreases n,
{
    if n == 0 {
        1
    } else {
        2 * two_to_the((n - 1) as nat)
    }
}

/// The number of `**` among the first `n` segments.
pub open spec fn double_stars(segs: Seq<SegmentView>, n: nat) -> nat
    decreases n,
{
    if n == 0 {
        0
    } else {
        double_stars(segs, (n - 1) as nat) + (if segs[n - 1] is DoubleStar {
            1nat
        } else {
            0
        })
    }
}

proof fn lemma_two_to_the(n: nat)
    ensures
        two_to_the(n) > 16 <==> n > 4,
        two_to_the(n) >= 1,
    decreases n,
{
    if n <= 5 {
        reveal_with_fuel(two_to_the, 6);
    } else {
        lemma_two_to_the((n - 1) as nat);
    }
}

proof fn lemma_doubled_size<T>(rows: Seq<Seq<T>>, x: T)
    ensures
        doubled(rows, x).len() == 2 * rows.len(),
    decreases rows.len(),
{
    if rows.len() > 0 {
        lemma_doubled_size(rows.drop_last(), x);
    }
}

proof fn lemma_expansion_size<T>(parts: Seq<T>, optional: Seq<bool>, n: nat)
    ensures
        expansion(parts, optional, n).len() == two_to_the(optional_count(optional, n)),
    decreases n,
{
    if n > 0 {
        let m = (n - 1) as nat;
        lemma_expansion_size(parts, optional, m);
        if optional[n - 1] {
            lemma_doubled_size(expansion(parts, optional, m), parts[n - 1]);
            assert((optional_count(optional, n) - 1) as nat == optional_count(optional, m));
        }
    }
}

proof fn lemma_optional_count(segs: Seq<SegmentView>, n: nat)
    requires
        n < segs.len(),
    ensures
        optional_count(optional_segments(segs), n) == double_stars(segs, n),
    decreases n,
{
    if n > 0 {
        lemma_optional_count(segs, (n - 1) as nat);
    }
}

/// A pattern has twice as many variants for each `**` but a trailing one, and
/// is not translated exactly if there are more than four of those.
pub proof fn more_than_four_inner_double_stars_are_too_many(segs: Seq<SegmentView>)
    requires
        segs.len() > 0,
    ensures
        variant_rows(segs).len() == two_to_the(double_stars(segs, (segs.len() - 1) as nat)),
        too_many_variants(segs) <==> double_stars(segs, (segs.len() - 1) as nat) > 4,
{
    let optional = optional_segments(segs);
    let m = (segs.len() - 1) as nat;
    lemma_expansion_size(segment_texts(segs), optional, segs.len());
    lemma_optional_count(segs, m);
    lemma_two_to_the(double_stars(segs, m));
    assert(optional_count(optional, segs.len()) == optional_count(optional, m));
}

proof fn lemma_oversized_pattern(patterns: Seq<PatternView>)
    ensures
        match oversized_pattern(patterns) {
            None => forall|j: int|
                0 <= j < patterns.len() ==> !too_many_variants((#[trigger] patterns[j]).segments),
            Some(p) => exists|j: int|
                0 <= j < patterns.len() && #[trigger] patterns[j] == p && too_many_variants(
                    p.segments,
                ),
        },
    decreases patterns.len(),
{
    if patterns.len() > 0 {
        let init = patterns.drop_last();
        let last = patterns.len() - 1;
        lemma_oversized_pattern(init);
        if too_many_variants(patterns.last().segments) {
            assert(patterns[last] == patterns.last());
        } else {
            match oversized_pattern(init) {
                None => {
                    assert forall|j: int| 0 <= j < patterns.len() implies !too_many_variants(
                        (#[trigger] patterns[j]).segments,
                    ) by {
                        if j < last {
                            assert(init[j] == patterns[j]);
                        }
                    }
                },
                Some(p) => {
                    let j = choose|j: int|
                        0 <= j < init.len() && #[trigger] init[j] == p && too_many_variants(
                            p.segments,
                        );
                    assert(patterns[j] == p);
                },
            }
        }
    }
}

/// A rule set translates exactly if each of its patterns does.
pub proof fn rule_sets_translate_if_every_pattern_does(sources: Seq<SourceView>)
    ensures
        oversized(sources) is None <==> forall|k: int, j: int|
            0 <= k < sources.len() && 0 <= j < sources[k].patterns.len() ==> !too_many_variants(
                (#[trigger] sources[k].patterns[j]).segments,
            ),
    decreases sources.len(),
{
    if sources.len() > 0 {
        let init = sources.drop_last();
        let last = sources.len() - 1;
        rule_sets_translate_if_every_pattern_does(init);
        lemma_oversized_pattern(sources.last().patterns);
        if oversized(sources) is None {
            assert forall|k: int, j: int|
                0 <= k < sources.len() && 0 <= j < sources[k].patterns.len() implies
                !too_many_variants((#[trigger] sources[k].patterns[j]).segments) by {
                if k < last {
                    assert(init[k].patterns[j] == sources[k].patterns[j]);
                }
            }
        } else {
            match oversized_pattern(sources.last().patterns) {
                Some(p) => {
                    let j = choose|j: int|
                        0 <= j < sources.last().patterns.len()
                            && #[trigger] sources.last().patterns[j] == p && too_many_variants(
                            p.segments,
                        );
                    assert(sources[last].patterns[j] == p);
                },
                None => {
                    let (k, j) = choose|k: int, j: int|
                        0 <= k < init.len() && 0 <= j < init[k].patterns.len()
                            && too_many_variants((#[trigger] init[k].patterns[j]).segments);
                    assert(sources[k].patterns[j] == init[k].patterns[j]);
                },
            }
        }
    }
}

/// The rules of a file that was added later come before all others, last
/// pattern first, so that they are the first to match.
pub proof fn later_files_and_patterns_come_first(
    sources: Seq<SourceView>,
    added: SourceView,
    patterns: Seq<PatternView>,
    p: PatternView,
)
    ensures
        filter_rules(Seq::empty()) == seq!["- /.git"@, "- /.dsync"@],
        filter_rules(sources.push(added)) == seq!["- /.git"@, "- /.dsync"@] + (patterns_rules(
            added.base,
            added.patterns,
        ) + filter_rules(sources).skip(2)),
        patterns_rules(added.base, patterns.push(p)) == pattern_rules(added.base, p)
            + patterns_rules(added.base, patterns),
{
    let first = seq!["- /.git"@, "- /.dsync"@];
    assert(filter_rules(Seq::empty()) =~= first);
    assert(sources.push(added).drop_last() =~= sources);
    assert(patterns.push(p).drop_last() =~= patterns);
    assert(filter_rules(sources).skip(2) =~= sources_rules(sources));
}

/// A rule is marked `+` for a re-include and `-` otherwise, starts at the
/// root, goes through the directory of its file, and ends with a slash if it
/// is for directories only.
pub proof fn rules_are_rooted_in_their_directory(
    base: Seq<Seq<char>>,
    p: PatternView,
    variant: Seq<char>,
)
    ensures
        rule_text(base, p, variant) == (match p.negated {
            true => "+ /"@,
            false => "- /"@,
        }) + base_text(base) + variant + (match p.dir_only {
            true => "/"@,
            false => ""@,
        }),
        base_text(Seq::empty()).len() == 0,
        forall|name: Seq<char>|
            #[trigger] base_text(base.push(name)) == base_text(base) + literal_text(name)
                + seq!['/'],
{
    reveal_strlit("+ /");
    reveal_strlit("- /");
    reveal_strlit("/");
    reveal_strlit("");
    assert("+ /"@ =~= seq!['+', ' ', '/']);
    assert("- /"@ =~= seq!['-', ' ', '/']);
    assert("/"@ =~= seq!['/']);
    assert(""@ =~= Seq::empty());
    assert forall|name: Seq<char>|
        #[trigger] base_text(base.push(name)) == base_text(base) + literal_text(name)
            + seq!['/'] by {
        assert(base.push(name).drop_last() =~= base);
        assert(base_text(base.push(name)) =~= base_text(base) + literal_text(name) + seq!['/']);
    }
}

/// A word at the root of a file's directory becomes the one rule that names
/// it there.
pub proof fn rooted_words_become_rooted_rules(word: Seq<char>, dir_only: bool)
    requires
        plain_word(word),
        !word.contains(']'),
    ensures
        filter_rules(
            seq![
                source_of(
                    Seq::empty(),
                    seq!['/'] + word + (match dir_only {
                        true => "/\n"@,
                        false => "\n"@,
                    }),
                ),
            ],
        ) == seq![
            "- /.git"@,
            "- /.dsync"@,
            "- /"@ + word + (match dir_only {
                true => "/"@,
                false => ""@,
            }),
        ],
{
    reveal_strlit("/\n");
    reveal_strlit("\n");
    reveal_strlit("");
    reveal_strlit("/");
    let none = Seq::<char>::empty();
    let texts = seq![word];
    let line = slashed_line(texts, true, dir_only);
    let contents = seq!['/'] + word + (match dir_only {
        true => "/\n"@,
        false => "\n"@,
    });
    assert(join(texts, seq!['/']) =~= word);
    assert(contents =~= line + seq!['\n'] + none);
    assert forall|k: int| 0 <= k < word.len() implies word[k] != '/' && word[k] != '\n' by {}
    assert(word[word.len() - 1] != ' ' && word[word.len() - 1] != '\r');
    assert(plain_texts(texts, true, dir_only));
    assert forall|k: int| 0 <= k < line.len() implies line[k] != '\n' by {
        if 0 < k <= word.len() {
            assert(line[k] == word[k - 1]);
        }
    }
    assert(line.last() != '\r');
    files_hold_the_patterns_of_their_lines(none, line, none);
    rooted_lines_spell_one_segment(word, dir_only);
    let p = pattern_of(line)->0;
    let source = source_of(none, contents);
    let sources = seq![source];
    assert(source.patterns =~= seq![p]);
    assert(source.base =~= Seq::empty()) by {
        assert(split(none, '/') =~= seq![none]);
        reveal_with_fuel(Seq::filter, 2);
    }
    assert(word != seq!['*', '*']) by {
        assert(word[0] != '*');
    }
    assert forall|k: int| 0 <= k < word.len() implies (#[trigger] word[k]) != '*' && word[k] != '?'
        && word[k] != '[' && word[k] != ']' && word[k] != '\\' by {}
    plain_words_are_written_as_they_are(word);
    let segs = p.segments;
    assert(segs =~= seq![SegmentView::Glob(glob_of(word))]);
    assert(segment_texts(segs) =~= seq![word]);
    let rows = variant_rows(segs);
    reveal_with_fuel(expansion, 2);
    assert(!optional_segments(segs)[0]);
    assert(Seq::<Seq<char>>::empty().push(word) =~= seq![word]);
    assert(rows =~= seq![seq![word]]);
    assert(join(seq![word], seq!['/']) == word);
    assert(variant_texts(segs) =~= seq![word]);
    rules_are_rooted_in_their_directory(source.base, p, word);
    assert(base_text(source.base) =~= none);
    let rule = rule_text(source.base, p, word);
    assert(rule =~= "- /"@ + word + (match dir_only {
        true => "/"@,
        false => ""@,
    }));
    assert(pattern_rules(source.base, p) =~= seq![rule]);
    later_files_and_patterns_come_first(Seq::empty(), source, Seq::empty(), p);
    assert(Seq::<PatternView>::empty().push(p) =~= seq![p]);
    assert(Seq::<SourceView>::empty().push(source) =~= sources);
    assert(patterns_rules(source.base, Seq::empty()) =~= Seq::empty());
    assert(patterns_rules(source.base, source.patterns) =~= seq![rule]);
    assert(filter_rules(sources) =~= seq!["- /.git"@, "- /.dsync"@, rule]);
}

/// What is reported as too large is the last such pattern of the last file
/// that has one.
pub proof fn the_last_oversized_pattern_is_reported(
    sources: Seq<SourceView>,
    added: SourceView,
    patterns: Seq<PatternView>,
    p: PatternView,
)
    ensures
        oversized(Seq::empty()) is None,
        oversized_pattern(Seq::empty()) is None,
        oversized(sources.push(added)) == (match oversized_pattern(added.patterns) {
            Some(found) => Some(found),
            None => oversized(sources),
        }),
        too_many_variants(p.segments) ==> oversized_pattern(patterns.push(p)) == Some(p),
        !too_many_variants(p.segments) ==> oversized_pattern(patterns.push(p))
            == oversized_pattern(patterns),
{
    assert(sources.push(added).drop_last() =~= sources);
    assert(patterns.push(p).drop_last() =~= patterns);
}

} // verus!
