//! The watchman expression says what the evaluator says.
//!
//! watchman lets `**/` match zero or more directories and a trailing `/**`
//! one or more segments, which is how the evaluator reads a pattern. This
//! module states what the emitted terms mean when read so, and that a file
//! matches one of them exactly if the rule set ignores it.

use crate::eval::{
    builtin_name, decision, ignored, inside, patterns_decide, patterns_of, source_decides,
    source_of, sources_decide, SourceView,
};
use crate::json::Json;
use crate::load_laws::splitting_undoes_joining;
use crate::pattern::{
    collapse, glob_matches, glob_of, lemma_no_empty_path, line_pattern, line_segments,
    pattern_matches, segment_of, segments_match, tokens, PatternView, SegmentView, TokView,
};
use crate::pattern_laws::{texts_match, texts_match_as_their_segments};
use crate::render::{
    glob_text, lemma_literal_glob, literal_segments, segment_text, segment_texts,
};
use crate::render_laws::{rendered_globs_read_back, tok_reads_back};
use crate::text::{join, lemma_split_nonempty, lines, split, without_prefix};
use crate::watchman::{
    builtin_terms, ignored_json, ignored_terms, negated, negated_pattern, not_json,
    path_glob_text, pattern_terms, patterns_terms, sources_terms, synced_json, term_json,
    under_segments, WatchmanTerm,
};
use vstd::prelude::*;

verus! {

/// Whether watchman's reading of a term matches the file at `path`.
pub open spec fn term_matches(term: WatchmanTerm, path: Seq<Seq<char>>) -> bool {
    match term {
        WatchmanTerm::DirName(name) => path.len() > 1 && path[0] == name,
        WatchmanTerm::WholeName(name) => path == seq![name],
        WatchmanTerm::Match(segs) => segments_match(segs, path),
    }
}

/// Whether any of the terms matches.
pub open spec fn any_matches(terms: Seq<WatchmanTerm>, path: Seq<Seq<char>>) -> bool {
    exists|k: int| 0 <= k < terms.len() && term_matches(#[trigger] terms[k], path)
}

/// Every pattern has a segment, as every pattern that a line spells has.
pub open spec fn patterns_nonempty(patterns: Seq<PatternView>) -> bool {
    forall|k: int| 0 <= k < patterns.len() ==> (#[trigger] patterns[k]).segments.len() > 0
}

/// Every pattern of every source has a segment.
pub open spec fn sources_nonempty(sources: Seq<SourceView>) -> bool {
    forall|k: int| 0 <= k < sources.len() ==> patterns_nonempty((#[trigger] sources[k]).patterns)
}

proof fn lemma_collapse_nonempty<T>(s: Seq<T>, x: T)
    requires
        s.len() > 0,
    ensures
        collapse(s, x).len() > 0,
    decreases s.len(),
{
    reveal_with_fuel(collapse, 2);
}

proof fn lemma_patterns_of_nonempty(lines: Seq<Seq<char>>)
    ensures
        patterns_nonempty(patterns_of(lines)),
    decreases lines.len(),
{
    if lines.len() > 0 {
        lemma_patterns_of_nonempty(lines.drop_last());
        let s = line_pattern(lines.last());
        let pieces = split(without_prefix(s, '/'), '/');
        lemma_split_nonempty(without_prefix(s, '/'), '/');
        lemma_collapse_nonempty(
            pieces.map_values(|piece: Seq<char>| segment_of(piece)),
            SegmentView::DoubleStar,
        );
        assert(line_segments(s).len() > 0);
    }
}

/// Every pattern of an ignore file has a segment.
pub proof fn every_line_pattern_has_a_segment(base: Seq<char>, contents: Seq<char>)
    ensures
        patterns_nonempty(source_of(base, contents).patterns),
{
    lemma_patterns_of_nonempty(lines(contents));
}

/// A rule set stays one whose patterns all have a segment when a source is
/// added to it.
pub proof fn added_sources_have_segments(
    sources: Seq<SourceView>,
    base: Seq<char>,
    contents: Seq<char>,
)
    requires
        sources_nonempty(sources),
    ensures
        sources_nonempty(sources.push(source_of(base, contents))),
        sources_nonempty(Seq::empty()),
{
    every_line_pattern_has_a_segment(base, contents);
    let more = sources.push(source_of(base, contents));
    assert forall|k: int| 0 <= k < more.len() implies patterns_nonempty(
        (#[trigger] more[k]).patterns,
    ) by {
        if k < sources.len() {
            assert(more[k] == sources[k]);
        }
    }
}

proof fn lemma_any_add(a: Seq<WatchmanTerm>, b: Seq<WatchmanTerm>, path: Seq<Seq<char>>)
    ensures
        any_matches(a + b, path) <==> any_matches(a, path) || any_matches(b, path),
{
    let all = a + b;
    if any_matches(a, path) {
        let k = choose|k: int| 0 <= k < a.len() && term_matches(#[trigger] a[k], path);
        assert(term_matches(all[k], path));
    }
    if any_matches(b, path) {
        let k = choose|k: int| 0 <= k < b.len() && term_matches(#[trigger] b[k], path);
        assert(term_matches(all[k + a.len()], path));
    }
    if any_matches(all, path) {
        let k = choose|k: int| 0 <= k < all.len() && term_matches(#[trigger] all[k], path);
        if k < a.len() {
            assert(term_matches(a[k], path));
        } else {
            assert(term_matches(b[k - a.len()], path));
        }
    }
}

proof fn lemma_literal_prefix(base: Seq<Seq<char>>, row: Seq<SegmentView>, path: Seq<Seq<char>>)
    ensures
        segments_match(literal_segments(base) + row, path) <==> base.len() <= path.len()
            && path.take(base.len() as int) == base && segments_match(
            row,
            path.skip(base.len() as int),
        ),
    decreases base.len(),
{
    let segs = literal_segments(base) + row;
    if base.len() == 0 {
        assert(segs =~= row);
        assert(path.skip(0) =~= path);
        assert(path.take(0) =~= base);
    } else {
        let rest = base.skip(1);
        assert(segs.skip(1) =~= literal_segments(rest) + row);
        if path.len() > 0 {
            lemma_literal_glob(base[0], path[0]);
            lemma_literal_prefix(rest, row, path.skip(1));
            if base.len() <= path.len() {
                assert(path.skip(1).skip(rest.len() as int) =~= path.skip(base.len() as int));
                assert(path.take(base.len() as int) =~= seq![path[0]] + path.skip(1).take(
                    rest.len() as int,
                ));
                assert(base =~= seq![base[0]] + rest);
                if path.take(base.len() as int) == base {
                    assert(path[0] == path.take(base.len() as int)[0]);
                    assert(path.skip(1).take(rest.len() as int) =~= path.take(
                        base.len() as int,
                    ).skip(1));
                }
            }
        }
    }
}

/// Whether the segments match a proper ancestor of `path`.
pub open spec fn matches_an_ancestor(segs: Seq<SegmentView>, path: Seq<Seq<char>>) -> bool {
    exists|i: int| 0 < i < path.len() && segments_match(segs, #[trigger] path.take(i))
}

proof fn lemma_under_single(segs: Seq<SegmentView>, path: Seq<Seq<char>>)
    requires
        segs.len() == 1,
    ensures
        segments_match(under_segments(segs), path) <==> matches_an_ancestor(segs, path),
{
    let under = under_segments(segs);
    reveal_with_fuel(segments_match, 3);
    assert(segs.skip(1) =~= Seq::empty());
    assert(under.skip(1) =~= seq![SegmentView::DoubleStar]);
    match segs[0] {
        SegmentView::Glob(toks) => {
            assert(under =~= seq![segs[0], SegmentView::DoubleStar]);
            if segments_match(under, path) {
                assert(path.take(1).skip(1).len() == 0);
                assert(segments_match(segs, path.take(1)));
            }
            if matches_an_ancestor(segs, path) {
                let i = choose|i: int|
                    0 < i < path.len() && segments_match(segs, #[trigger] path.take(i));
                assert(path.take(i).skip(1).len() == 0);
            }
        },
        SegmentView::DoubleStar => {
            let star = seq![TokView::Star];
            assert(under =~= seq![SegmentView::Glob(star), SegmentView::DoubleStar]);
            if path.len() > 0 {
                let name = path[0];
                reveal_with_fuel(glob_matches, 2);
                assert(star.skip(1) =~= Seq::empty());
                assert(name.skip(name.len() as int).len() == 0);
                assert(glob_matches(star.skip(1), name.skip(name.len() as int)));
                assert(glob_matches(star, name));
            }
            if path.len() > 1 {
                assert(path.skip(1).len() > 0);
                assert(segments_match(segs, path.take(1)));
            }
        },
    }
}

/// What lies under a match is what has a matching ancestor.
proof fn lemma_under(segs: Seq<SegmentView>, path: Seq<Seq<char>>)
    requires
        segs.len() > 0,
    ensures
        segments_match(under_segments(segs), path) <==> matches_an_ancestor(segs, path),
    decreases segs.len(),
{
    if segs.len() == 1 {
        lemma_under_single(segs, path);
    } else {
        let rest = segs.skip(1);
        let under = under_segments(segs);
        assert(under.skip(1) =~= under_segments(rest));
        assert(under[0] == segs[0]);
        match segs[0] {
            SegmentView::Glob(toks) => {
                if path.len() > 0 {
                    let tail = path.skip(1);
                    lemma_under(rest, tail);
                    if segments_match(under, path) {
                        let j = choose|j: int|
                            0 < j < tail.len() && segments_match(rest, #[trigger] tail.take(j));
                        assert(path.take(j + 1).skip(1) =~= tail.take(j));
                        assert(segments_match(segs, path.take(j + 1)));
                    }
                    if matches_an_ancestor(segs, path) {
                        let i = choose|i: int|
                            0 < i < path.len() && segments_match(segs, #[trigger] path.take(i));
                        assert(path.take(i).skip(1) =~= tail.take(i - 1));
                        if i == 1 {
                            lemma_no_empty_path(rest, path.take(i).skip(1));
                        }
                        assert(segments_match(rest, tail.take(i - 1)));
                    }
                }
            },
            SegmentView::DoubleStar => {
                if segments_match(under, path) {
                    let k = choose|k: int|
                        0 <= k <= path.len() && segments_match(
                            under_segments(rest),
                            #[trigger] path.skip(k),
                        );
                    let tail = path.skip(k);
                    lemma_under(rest, tail);
                    let j = choose|j: int|
                        0 < j < tail.len() && segments_match(rest, #[trigger] tail.take(j));
                    assert(path.take(k + j).skip(k) =~= tail.take(j));
                    assert(segments_match(rest, path.take(k + j).skip(k)));
                    assert(segments_match(segs, path.take(k + j)));
                }
                if matches_an_ancestor(segs, path) {
                    let i = choose|i: int|
                        0 < i < path.len() && segments_match(segs, #[trigger] path.take(i));
                    let dir = path.take(i);
                    let k = choose|k: int|
                        0 <= k <= dir.len() && segments_match(rest, #[trigger] dir.skip(k));
                    if k == i {
                        lemma_no_empty_path(rest, dir.skip(k));
                    }
                    let tail = path.skip(k);
                    assert(dir.skip(k) =~= tail.take(i - k));
                    assert(segments_match(rest, tail.take(i - k)));
                    lemma_under(rest, tail);
                    assert(segments_match(under_segments(rest), path.skip(k)));
                }
            },
        }
    }
}

/// Whether a pattern of a source at `base` matches the file at `path` or one
/// of its ancestor directories.
pub open spec fn pattern_reaches(
    base: Seq<Seq<char>>,
    p: PatternView,
    path: Seq<Seq<char>>,
) -> bool {
    (inside(base, path) && pattern_matches(p, path.skip(base.len() as int), false)) || exists|
        i: int,
    |
        0 < i < path.len() && inside(base, #[trigger] path.take(i)) && pattern_matches(
            p,
            path.take(i).skip(base.len() as int),
            true,
        )
}

proof fn lemma_pattern_reaches(base: Seq<Seq<char>>, p: PatternView, path: Seq<Seq<char>>)
    requires
        p.segments.len() > 0,
    ensures
        any_matches(pattern_terms(base, p), path) <==> pattern_reaches(base, p, path),
{
    let segs = p.segments;
    let under = under_segments(segs);
    let lits = literal_segments(base);
    let n = base.len() as int;
    let terms = pattern_terms(base, p);
    let direct = WatchmanTerm::Match(lits + segs);
    let below = WatchmanTerm::Match(lits + under);
    assert(terms =~= if p.dir_only {
        seq![below]
    } else {
        seq![direct, below]
    });
    assert(any_matches(terms, path) <==> (!p.dir_only && term_matches(direct, path))
        || term_matches(below, path)) by {
        if term_matches(below, path) {
            assert(term_matches(terms[terms.len() - 1], path));
        }
        if !p.dir_only && term_matches(direct, path) {
            assert(term_matches(terms[0], path));
        }
    }
    lemma_literal_prefix(base, segs, path);
    lemma_literal_prefix(base, under, path);
    let at = n <= path.len() && path.take(n) == base;
    if at {
        let rel = path.skip(n);
        if rel.len() == 0 {
            lemma_no_empty_path(segs, rel);
            lemma_no_empty_path(under, rel);
        }
        lemma_under(segs, rel);
        if segments_match(under, rel) {
            let j = choose|j: int|
                0 < j < rel.len() && segments_match(segs, #[trigger] rel.take(j));
            let dir = path.take(n + j);
            assert(dir.take(n) =~= base);
            assert(dir.skip(n) =~= rel.take(j));
            assert(inside(base, path.take(n + j)));
        }
    }
    if exists|i: int|
        0 < i < path.len() && inside(base, #[trigger] path.take(i)) && pattern_matches(
            p,
            path.take(i).skip(n),
            true,
        ) {
        let i = choose|i: int|
            0 < i < path.len() && inside(base, #[trigger] path.take(i)) && pattern_matches(
                p,
                path.take(i).skip(n),
                true,
            );
        assert(path.take(i).take(n) =~= path.take(n));
        assert(path.take(i).skip(n) =~= path.skip(n).take(i - n));
        assert(matches_an_ancestor(segs, path.skip(n)));
    }
    if inside(base, path) {
        assert(at);
    }
}

/// Whether a source ignores the file at `path` or one of its ancestor
/// directories.
pub open spec fn source_reaches(source: SourceView, path: Seq<Seq<char>>) -> bool {
    source_decides(source, path, false) is Ignored || exists|i: int|
        0 < i < path.len() && source_decides(source, #[trigger] path.take(i), true) is Ignored
}

proof fn lemma_never_reincluded(
    patterns: Seq<PatternView>,
    path: Seq<Seq<char>>,
    is_dir: bool,
)
    requires
        negated_pattern(patterns) is None,
    ensures
        !(patterns_decide(patterns, path, is_dir) is Reincluded),
    decreases patterns.len(),
{
    if patterns.len() > 0 {
        lemma_never_reincluded(patterns.drop_last(), path, is_dir);
    }
}

proof fn lemma_source_reaches(
    base: Seq<Seq<char>>,
    patterns: Seq<PatternView>,
    path: Seq<Seq<char>>,
)
    requires
        negated_pattern(patterns) is None,
        patterns_nonempty(patterns),
    ensures
        any_matches(patterns_terms(base, patterns), path) <==> source_reaches(
            SourceView { base, patterns },
            path,
        ),
    decreases patterns.len(),
{
    let source = SourceView { base, patterns };
    if patterns.len() > 0 {
        let init = patterns.drop_last();
        let p = patterns.last();
        let earlier = SourceView { base, patterns: init };
        assert forall|k: int| 0 <= k < init.len() implies (#[trigger] init[k]).segments.len()
            > 0 by {
            assert(init[k] == patterns[k]);
        }
        lemma_source_reaches(base, init, path);
        lemma_pattern_reaches(base, p, path);
        lemma_any_add(patterns_terms(base, init), pattern_terms(base, p), path);
        assert forall|at: Seq<Seq<char>>, d: bool| #[trigger]
            source_decides(source, at, d) is Ignored <==> source_decides(earlier, at, d) is Ignored
            || (inside(base, at) && pattern_matches(p, at.skip(base.len() as int), d)) by {}
        if source_reaches(source, path) && !(source_decides(source, path, false) is Ignored) {
            let i = choose|i: int|
                0 < i < path.len() && source_decides(source, #[trigger] path.take(i), true)
                    is Ignored;
            assert(source_decides(source, path.take(i), true) is Ignored);
        }
        if source_reaches(earlier, path) && !(source_decides(earlier, path, false) is Ignored) {
            let i = choose|i: int|
                0 < i < path.len() && source_decides(earlier, #[trigger] path.take(i), true)
                    is Ignored;
            assert(source_decides(source, path.take(i), true) is Ignored);
        }
        if source_decides(earlier, path, false) is Ignored {
            assert(source_decides(source, path, false) is Ignored);
        }
        if pattern_reaches(base, p, path) {
            if inside(base, path) && pattern_matches(p, path.skip(base.len() as int), false) {
                assert(source_decides(source, path, false) is Ignored);
            } else {
                let i = choose|i: int|
                    0 < i < path.len() && inside(base, #[trigger] path.take(i)) && pattern_matches(
                        p,
                        path.take(i).skip(base.len() as int),
                        true,
                    );
                assert(source_decides(source, path.take(i), true) is Ignored);
            }
        }
    }
}

/// Whether the sources ignore the file at `path` or one of its ancestor
/// directories.
pub open spec fn sources_reach(sources: Seq<SourceView>, path: Seq<Seq<char>>) -> bool {
    sources_decide(sources, path, false) is Ignored || exists|i: int|
        0 < i < path.len() && sources_decide(sources, #[trigger] path.take(i), true) is Ignored
}

proof fn lemma_sources_reach(sources: Seq<SourceView>, path: Seq<Seq<char>>)
    requires
        negated(sources) is None,
        sources_nonempty(sources),
    ensures
        any_matches(sources_terms(sources), path) <==> sources_reach(sources, path),
    decreases sources.len(),
{
    if sources.len() > 0 {
        let init = sources.drop_last();
        let last = sources.last();
        assert forall|k: int| 0 <= k < init.len() implies patterns_nonempty(
            (#[trigger] init[k]).patterns,
        ) by {
            assert(init[k] == sources[k]);
        }
        assert(patterns_nonempty(sources[sources.len() - 1].patterns));
        lemma_sources_reach(init, path);
        lemma_source_reaches(last.base, last.patterns, path);
        lemma_any_add(sources_terms(init), patterns_terms(last.base, last.patterns), path);
        assert(last == SourceView { base: last.base, patterns: last.patterns });
        assert forall|at: Seq<Seq<char>>, d: bool| #[trigger]
            sources_decide(sources, at, d) is Ignored <==> sources_decide(init, at, d) is Ignored
            || source_decides(last, at, d) is Ignored by {
            lemma_never_reincluded(last.patterns, at.skip(last.base.len() as int), d);
        }
        if sources_reach(sources, path) && !(sources_decide(sources, path, false) is Ignored) {
            let i = choose|i: int|
                0 < i < path.len() && sources_decide(sources, #[trigger] path.take(i), true)
                    is Ignored;
            assert(sources_decide(sources, path.take(i), true) is Ignored);
        }
        if sources_reach(init, path) {
            if sources_decide(init, path, false) is Ignored {
                assert(sources_decide(sources, path, false) is Ignored);
            } else {
                let i = choose|i: int|
                    0 < i < path.len() && sources_decide(init, #[trigger] path.take(i), true)
                        is Ignored;
                assert(sources_decide(sources, path.take(i), true) is Ignored);
            }
        }
        if source_reaches(last, path) {
            if source_decides(last, path, false) is Ignored {
                assert(sources_decide(sources, path, false) is Ignored);
            } else {
                let i = choose|i: int|
                    0 < i < path.len() && source_decides(last, #[trigger] path.take(i), true)
                        is Ignored;
                assert(sources_decide(sources, path.take(i), true) is Ignored);
            }
        }
    }
}

/// The built-in terms match exactly the internal paths.
pub proof fn builtin_terms_match_the_internal_paths(path: Seq<Seq<char>>)
    ensures
        any_matches(builtin_terms(), path) <==> path.len() > 0 && (path[0] == ".git"@ || path[0]
            == ".dsync"@),
{
    let terms = builtin_terms();
    if path.len() == 1 {
        assert(path =~= seq![path[0]]);
    }
    if path.len() > 0 && builtin_name(path[0]) {
        let k: int = if path[0] == ".git"@ {
            if path.len() > 1 {
                0
            } else {
                1
            }
        } else {
            if path.len() > 1 {
                2
            } else {
                3
            }
        };
        assert(term_matches(terms[k], path));
    }
}

/// A file of the repository matches the emitted expression exactly if the
/// rule set, which has no `!` pattern, ignores it.
pub proof fn watchman_matches_what_is_ignored(sources: Seq<SourceView>, path: Seq<Seq<char>>)
    requires
        negated(sources) is None,
        sources_nonempty(sources),
        path.len() > 0,
    ensures
        any_matches(ignored_terms(sources), path) <==> ignored(sources, path, false),
{
    lemma_any_add(builtin_terms(), sources_terms(sources), path);
    builtin_terms_match_the_internal_paths(path);
    lemma_sources_reach(sources, path);
    if !builtin_name(path[0]) {
        assert forall|i: int| 0 < i < path.len() implies decision(
            sources,
            #[trigger] path.take(i),
            true,
        ) == sources_decide(sources, path.take(i), true) by {
            assert(path.take(i)[0] == path[0]);
        }
    }
}

proof fn lemma_negated_pattern(patterns: Seq<PatternView>)
    ensures
        negated_pattern(patterns) is None <==> forall|j: int|
            0 <= j < patterns.len() ==> !(#[trigger] patterns[j]).negated,
    decreases patterns.len(),
{
    if patterns.len() > 0 {
        let init = patterns.drop_last();
        let last = patterns.len() - 1;
        lemma_negated_pattern(init);
        if negated_pattern(patterns) is None {
            assert forall|j: int| 0 <= j < patterns.len() implies !(
            #[trigger] patterns[j]).negated by {
                if j < last {
                    assert(init[j] == patterns[j]);
                }
            }
        } else if negated_pattern(init) is Some {
            let j = choose|j: int| 0 <= j < init.len() && (#[trigger] init[j]).negated;
            assert(patterns[j] == init[j]);
        } else {
            assert(patterns[last].negated);
        }
    }
}

/// A rule set has an expression exactly if none of its patterns re-includes.
pub proof fn rule_sets_without_reincludes_have_an_expression(sources: Seq<SourceView>)
    ensures
        negated(sources) is None <==> forall|k: int, j: int|
            0 <= k < sources.len() && 0 <= j < sources[k].patterns.len() ==> !(
            #[trigger] sources[k].patterns[j]).negated,
    decreases sources.len(),
{
    if sources.len() > 0 {
        let init = sources.drop_last();
        let last = sources.len() - 1;
        rule_sets_without_reincludes_have_an_expression(init);
        lemma_negated_pattern(sources.last().patterns);
        if negated(sources) is None {
            assert forall|k: int, j: int|
                0 <= k < sources.len() && 0 <= j < sources[k].patterns.len() implies !(
            #[trigger] sources[k].patterns[j]).negated by {
                if k < last {
                    assert(init[k].patterns[j] == sources[k].patterns[j]);
                }
            }
        } else if negated(init) is Some {
            let (k, j) = choose|k: int, j: int|
                0 <= k < init.len() && 0 <= j < init[k].patterns.len() && (
                #[trigger] init[k].patterns[j]).negated;
            assert(sources[k].patterns[j] == init[k].patterns[j]);
        } else {
            let j = choose|j: int|
                0 <= j < sources.last().patterns.len() && (
                #[trigger] sources.last().patterns[j]).negated;
            assert(sources[last].patterns[j].negated);
        }
    }
}

/// The expression lists every term, in order, each in watchman's own form:
/// files under a root entry, the root entry itself, and files whose whole
/// name, leading dots included, matches a glob.
pub proof fn expressions_list_every_term(sources: Seq<SourceView>)
    ensures
        ignored_json(sources) matches Json::Array(items) && items.len() == ignored_terms(
            sources,
        ).len() + 1 && items[0] == Json::Str("anyof"@) && forall|k: int|
            0 <= k < ignored_terms(sources).len() ==> match #[trigger] ignored_terms(sources)[k] {
                WatchmanTerm::DirName(name) => items[k + 1] == Json::Array(
                    seq![Json::Str("dirname"@), Json::Str(name)],
                ),
                WatchmanTerm::WholeName(name) => items[k + 1] == Json::Array(
                    seq![Json::Str("name"@), Json::Str(name), Json::Str("wholename"@)],
                ),
                WatchmanTerm::Match(segs) => items[k + 1] == Json::Array(
                    seq![
                        Json::Str("match"@),
                        Json::Str(join(segment_texts(segs), seq!['/'])),
                        Json::Str("wholename"@),
                        Json::Object(
                            Map::<Seq<char>, Json>::empty().insert(
                                "includedotfiles"@,
                                Json::Bool(true),
                            ),
                        ),
                    ],
                ),
            },
{
    let terms = ignored_terms(sources);
    let items = ignored_json(sources)->Array_0;
    assert forall|k: int| 0 <= k < terms.len() implies items[k + 1] == term_json(
        #[trigger] terms[k],
    ) by {}
}

/// The files to sync are the regular ones that the other expression does not
/// match.
pub proof fn synced_files_are_the_regular_ones_not_ignored(sources: Seq<SourceView>, e: Json)
    ensures
        not_json(e) == Json::Array(seq![Json::Str("not"@), e]),
        synced_json(sources) == Json::Array(
            seq![
                Json::Str("allof"@),
                Json::Array(seq![Json::Str("type"@), Json::Str("f"@)]),
                Json::Array(seq![Json::Str("not"@), ignored_json(sources)]),
            ],
        ),
{
}

/// Whether a pattern segment reads back from its text.
pub open spec fn segment_reads_back(seg: SegmentView) -> bool {
    match seg {
        SegmentView::DoubleStar => true,
        SegmentView::Glob(toks) => {
            &&& forall|k: int| 0 <= k < toks.len() ==> tok_reads_back(#[trigger] toks[k])
            &&& forall|k: int|
                0 < k < toks.len() ==> !((#[trigger] toks[k]) is Star && toks[k - 1] is Star)
            &&& !glob_text(toks).contains('/')
        },
    }
}

proof fn lemma_segment_reads_back(seg: SegmentView)
    requires
        segment_reads_back(seg),
    ensures
        segment_of(segment_text(seg)) == seg,
        !segment_text(seg).contains('/'),
{
    match seg {
        SegmentView::DoubleStar => {},
        SegmentView::Glob(toks) => {
            rendered_globs_read_back(toks);
            let stars: Seq<char> = seq!['*', '*'];
            if glob_text(toks) == stars {
                let star: Seq<TokView> = seq![TokView::Star];
                lemma_stars_read_as_one();
                assert(toks == star);
                assert(star.drop_last() =~= Seq::empty());
                reveal_with_fuel(glob_text, 2);
                assert(glob_text(star).len() == 1);
            }
        },
    }
}

proof fn lemma_stars_read_as_one()
    ensures
        glob_of(seq!['*', '*']) == seq![TokView::Star],
{
    let text: Seq<char> = seq!['*', '*'];
    assert(text.skip(1) =~= seq!['*']);
    assert(text.skip(1).skip(1) =~= Seq::empty());
    reveal_with_fuel(tokens, 3);
    let two = seq![TokView::Star, TokView::Star];
    assert(tokens(text) =~= two);
    assert(two.drop_last() =~= seq![TokView::Star]);
    assert(two.drop_last().drop_last() =~= Seq::empty());
    reveal_with_fuel(collapse, 3);
    assert(collapse(two, TokView::Star) =~= seq![TokView::Star]);
}

/// A glob as it is written into an expression or a filter rule, split at its
/// slashes, matches the paths that the pattern's segments match.
pub proof fn written_globs_match_as_their_segments(segs: Seq<SegmentView>, path: Seq<Seq<char>>)
    requires
        segs.len() > 0,
        forall|k: int| 0 <= k < segs.len() ==> segment_reads_back(#[trigger] segs[k]),
    ensures
        split(path_glob_text(segs), '/') == segment_texts(segs),
        texts_match(split(path_glob_text(segs), '/'), path) <==> segments_match(segs, path),
{
    let texts = segment_texts(segs);
    assert forall|k: int| 0 <= k < texts.len() implies !(#[trigger] texts[k]).contains('/')
        && segment_of(texts[k]) == segs[k] by {
        assert(segment_reads_back(segs[k]));
        lemma_segment_reads_back(segs[k]);
    }
    splitting_undoes_joining(texts, '/');
    texts_match_as_their_segments(texts, path);
    assert(texts.map_values(|piece: Seq<char>| segment_of(piece)) =~= segs);
}

/// What is reported as a re-include is the first such pattern of the first
/// file that has one.
pub proof fn the_first_reinclude_is_reported(
    sources: Seq<SourceView>,
    added: SourceView,
    patterns: Seq<PatternView>,
    p: PatternView,
)
    ensures
        negated(Seq::empty()) is None,
        negated_pattern(Seq::empty()) is None,
        negated(sources.push(added)) == (match negated(sources) {
            Some(found) => Some(found),
            None => negated_pattern(added.patterns),
        }),
        negated_pattern(patterns.push(p)) == (match negated_pattern(patterns) {
            Some(found) => Some(found),
            None => if p.negated {
                Some(p)
            } else {
                None
            },
        }),
{
    assert(sources.push(added).drop_last() =~= sources);
    assert(patterns.push(p).drop_last() =~= patterns);
}

} // verus!
