//! Translation of an [`IgnoreSet`] into watchman query expressions.

use crate::eval::{IgnoreSet, Source, SourceView};
use crate::json::{
    json_array, json_bool, json_object, json_of, json_string, jsons, object_of, Json,
};
use crate::pattern::{Pattern, PatternView, Segment, SegmentView, TokView};
use crate::render::{
    lemma_literal_text, literal_segments, render_glob, render_literal, segment_text, segment_texts,
};
use crate::text::{group_views, join, join_strings, views};
use crate::translate::TranslateError;
use vstd::prelude::*;

verus! {

// ---------------------------------------------------------------------------
// What is emitted
// ---------------------------------------------------------------------------
/// One term of a watchman expression.
pub enum WatchmanTerm {
    /// The file lies anywhere under the named entry of the root.
    DirName(Seq<char>),
    /// The file is the named entry of the root.
    WholeName(Seq<char>),
    /// The file's whole name matches the glob that the segments spell.
    Match(Seq<SegmentView>),
}

/// The text of a glob over whole paths.
pub open spec fn path_glob_text(segs: Seq<SegmentView>) -> Seq<char> {
    join(segment_texts(segs), seq!['/'])
}

/// A term as JSON.
pub open spec fn term_json(term: WatchmanTerm) -> Json {
    match term {
        WatchmanTerm::DirName(name) => Json::Array(seq![Json::Str("dirname"@), Json::Str(name)]),
        WatchmanTerm::WholeName(name) => Json::Array(
            seq![Json::Str("name"@), Json::Str(name), Json::Str("wholename"@)],
        ),
        WatchmanTerm::Match(segs) => Json::Array(
            seq![
                Json::Str("match"@),
                Json::Str(path_glob_text(segs)),
                Json::Str("wholename"@),
                Json::Object(Map::empty().insert("includedotfiles"@, Json::Bool(true))),
            ],
        ),
    }
}

/// The expression that matches where any of the terms does, as JSON.
pub open spec fn anyof_json(terms: Seq<WatchmanTerm>) -> Json {
    Json::Array(
        seq![Json::Str("anyof"@)] + terms.map_values(|term: WatchmanTerm| term_json(term)),
    )
}

/// The glob for everything under what a pattern's segments match. A trailing
/// `**` already stands for something inside a directory: one segment of it
/// is that directory's entry, and what lies under that is matched.
pub open spec fn under_segments(segs: Seq<SegmentView>) -> Seq<SegmentView> {
    if segs.len() > 0 && segs.last() is DoubleStar {
        segs.drop_last().push(SegmentView::Glob(seq![TokView::Star])).push(SegmentView::DoubleStar)
    } else {
        segs.push(SegmentView::DoubleStar)
    }
}

/// The terms for one pattern of a source at `base`: files that it matches,
/// and files under a directory that it matches.
pub open spec fn pattern_terms(base: Seq<Seq<char>>, p: PatternView) -> Seq<WatchmanTerm> {
    (if p.dir_only {
        Seq::empty()
    } else {
        seq![WatchmanTerm::Match(literal_segments(base) + p.segments)]
    }) + seq![WatchmanTerm::Match(literal_segments(base) + under_segments(p.segments))]
}

/// The terms for the patterns of one source.
pub open spec fn patterns_terms(
    base: Seq<Seq<char>>,
    patterns: Seq<PatternView>,
) -> Seq<WatchmanTerm>
    decreases patterns.len(),
{
    if patterns.len() == 0 {
        Seq::empty()
    } else {
        patterns_terms(base, patterns.drop_last()) + pattern_terms(base, patterns.last())
    }
}

/// The terms for the sources of a set.
pub open spec fn sources_terms(sources: Seq<SourceView>) -> Seq<WatchmanTerm>
    decreases sources.len(),
{
    if sources.len() == 0 {
        Seq::empty()
    } else {
        sources_terms(sources.drop_last()) + patterns_terms(
            sources.last().base,
            sources.last().patterns,
        )
    }
}

/// The terms for the entries that are always ignored.
pub open spec fn builtin_terms() -> Seq<WatchmanTerm> {
    seq![
        WatchmanTerm::DirName(".git"@),
        WatchmanTerm::WholeName(".git"@),
        WatchmanTerm::DirName(".dsync"@),
        WatchmanTerm::WholeName(".dsync"@),
    ]
}

/// The terms for a rule set.
pub open spec fn ignored_terms(sources: Seq<SourceView>) -> Seq<WatchmanTerm> {
    builtin_terms() + sources_terms(sources)
}

/// The expression for the files that a rule set ignores, as JSON.
pub open spec fn ignored_json(sources: Seq<SourceView>) -> Json {
    anyof_json(ignored_terms(sources))
}

/// The expression that `["not", e]` is, as JSON.
pub open spec fn not_json(e: Json) -> Json {
    Json::Array(seq![Json::Str("not"@), e])
}

/// The expression for the regular files that a rule set does not ignore, as
/// JSON.
pub open spec fn synced_json(sources: Seq<SourceView>) -> Json {
    Json::Array(
        seq![
            Json::Str("allof"@),
            Json::Array(seq![Json::Str("type"@), Json::Str("f"@)]),
            not_json(ignored_json(sources)),
        ],
    )
}

/// The first negated pattern.
pub open spec fn negated_pattern(patterns: Seq<PatternView>) -> Option<PatternView>
    decreases patterns.len(),
{
    if patterns.len() == 0 {
        None
    } else if negated_pattern(patterns.drop_last()) is Some {
        negated_pattern(patterns.drop_last())
    } else if patterns.last().negated {
        Some(patterns.last())
    } else {
        None
    }
}

/// The first negated pattern of a set, in the order of its sources.
pub open spec fn negated(sources: Seq<SourceView>) -> Option<PatternView>
    decreases sources.len(),
{
    if sources.len() == 0 {
        None
    } else if negated(sources.drop_last()) is Some {
        negated(sources.drop_last())
    } else {
        negated_pattern(sources.last().patterns)
    }
}

// ---------------------------------------------------------------------------
// Emitting it
// ---------------------------------------------------------------------------
/// What the terms are, as JSON.
pub open spec fn terms_json(terms: Seq<WatchmanTerm>) -> Seq<Json> {
    terms.map_values(|term: WatchmanTerm| term_json(term))
}

proof fn lemma_terms_json_add(a: Seq<WatchmanTerm>, b: Seq<WatchmanTerm>)
    ensures
        terms_json(a + b) == terms_json(a) + terms_json(b),
{
    assert(terms_json(a + b) =~= terms_json(a) + terms_json(b));
}

/// `["dirname", name]`.
fn dirname_term(name: &str) -> (v: serde_json::Value)
    ensures
        json_of(v) == term_json(WatchmanTerm::DirName(name@)),
{
    let items: Vec<serde_json::Value> = vec![json_string("dirname"), json_string(name)];
    proof {
        assert(jsons(items@) =~= seq![Json::Str("dirname"@), Json::Str(name@)]);
    }
    json_array(items)
}

/// `["name", name, "wholename"]`.
fn wholename_term(name: &str) -> (v: serde_json::Value)
    ensures
        json_of(v) == term_json(WatchmanTerm::WholeName(name@)),
{
    let items: Vec<serde_json::Value> = vec![
        json_string("name"),
        json_string(name),
        json_string("wholename"),
    ];
    proof {
        assert(jsons(items@) =~= seq![
            Json::Str("name"@),
            Json::Str(name@),
            Json::Str("wholename"@),
        ]);
    }
    json_array(items)
}

/// `["match", glob, "wholename", {"includedotfiles": true}]`.
fn match_term(Ghost(segs): Ghost<Seq<SegmentView>>, glob: &String) -> (v: serde_json::Value)
    requires
        glob@ == path_glob_text(segs),
    ensures
        json_of(v) == term_json(WatchmanTerm::Match(segs)),
{
    let fields: Vec<(String, serde_json::Value)> = vec![
        ("includedotfiles".to_string(), json_bool(true)),
    ];
    proof {
        reveal_with_fuel(object_of, 2);
        assert(fields@.drop_last() =~= Seq::empty());
        assert(object_of(fields@) =~= Map::empty().insert("includedotfiles"@, Json::Bool(true)));
    }
    let items: Vec<serde_json::Value> = vec![
        json_string("match"),
        json_string(glob.as_str()),
        json_string("wholename"),
        json_object(fields),
    ];
    proof {
        assert(jsons(items@) =~= seq![
            Json::Str("match"@),
            Json::Str(glob@),
            Json::Str("wholename"@),
            Json::Object(Map::empty().insert("includedotfiles"@, Json::Bool(true))),
        ]);
    }
    json_array(items)
}

/// The texts of a base directory's segments as globs.
fn render_base_segments(base: &Vec<Vec<char>>) -> (texts: Vec<String>)
    ensures
        views(texts@) == segment_texts(literal_segments(views(base@))),
{
    broadcast use group_views;

    let ghost all = segment_texts(literal_segments(views(base@)));
    let mut texts: Vec<String> = Vec::new();
    for i in 0..base.len()
        invariant
            all == segment_texts(literal_segments(views(base@))),
            views(texts@) == all.take(i as int),
    {
        broadcast use group_views;

        proof {
            lemma_literal_text(base@[i as int]@);
            assert(all.take(i + 1) =~= all.take(i as int).push(all[i as int]));
        }
        texts.push(render_literal(base[i].as_slice()));
    }
    proof {
        assert(all.take(all.len() as int) =~= all);
    }
    texts
}

/// The texts of the base directory's segments, followed by those of the
/// first `n` segments of the pattern.
fn render_segments(base: &Vec<Vec<char>>, pat: &Pattern, n: usize) -> (texts: Vec<String>)
    requires
        n <= pat.segments@.len(),
    ensures
        views(texts@) == segment_texts(
            literal_segments(views(base@)) + pat@.segments.take(n as int),
        ),
{
    broadcast use group_views;

    let ghost lits = literal_segments(views(base@));
    let ghost segs = pat@.segments;
    let mut texts = render_base_segments(base);
    proof {
        assert(lits + segs.take(0) =~= lits);
    }
    for i in 0..n
        invariant
            n <= pat.segments@.len(),
            segs == pat@.segments,
            views(texts@) == segment_texts(lits + segs.take(i as int)),
    {
        broadcast use group_views;

        let text = match &pat.segments[i] {
            Segment::DoubleStar => {
                let mut stars = String::new();
                stars.push('*');
                stars.push('*');
                proof {
                    assert(stars@ =~= seq!['*', '*']);
                }
                stars
            },
            Segment::Glob(toks) => render_glob(toks.as_slice()),
        };
        proof {
            assert(text@ == segment_text(segs[i as int]));
            assert(lits + segs.take(i + 1) =~= (lits + segs.take(i as int)).push(segs[i as int]));
            let before = lits + segs.take(i as int);
            assert(segment_texts(before.push(segs[i as int])) =~= segment_texts(before).push(
                text@,
            ));
        }
        texts.push(text);
    }
    texts
}

/// The text of the glob that the given segment texts make up.
fn path_glob(Ghost(segs): Ghost<Seq<SegmentView>>, texts: &Vec<String>) -> (glob: String)
    requires
        views(texts@) == segment_texts(segs),
    ensures
        glob@ == path_glob_text(segs),
{
    proof {
        reveal_strlit("/");
        assert("/"@ =~= seq!['/']);
    }
    join_strings(texts, "/")
}

/// The terms for one pattern.
fn push_pattern_terms(terms: &mut Vec<serde_json::Value>, base: &Vec<Vec<char>>, pat: &Pattern)
    ensures
        jsons(final(terms)@) == jsons(old(terms)@) + terms_json(
            pattern_terms(views(base@), pat@),
        ),
{
    broadcast use group_views;

    let ghost lits = literal_segments(views(base@));
    let ghost segs = pat@.segments;
    let n: usize = pat.segments.len();
    if !pat.dir_only {
        let texts = render_segments(base, pat, n);
        proof {
            assert(segs.take(n as int) =~= segs);
        }
        let glob = path_glob(Ghost(lits + segs), &texts);
        terms.push(match_term(Ghost(lits + segs), &glob));
    }
    // Files under a directory matched by the pattern. When the pattern
    // itself ends in `**`, appending `/**` would yield `**/**`, which
    // watchman collapses to a single `**`: weaker than the trailing `**`,
    // which matches one or more segments. `*` takes its place: one segment
    // for the matched directory's interior component, then `/**` for the
    // files beneath it.
    let mut trailing = false;
    if n > 0 {
        if let Segment::DoubleStar = pat.segments[n - 1] {
            trailing = true;
        }
    }
    proof {
        assert(trailing == (segs.len() > 0 && segs.last() is DoubleStar));
    }
    let kept: usize = if trailing {
        n - 1
    } else {
        n
    };
    let mut texts = render_segments(base, pat, kept);
    let ghost mut under = lits + segs.take(kept as int);
    if trailing {
        let mut star = String::new();
        star.push('*');
        texts.push(star);
        proof {
            let one = SegmentView::Glob(seq![TokView::Star]);
            reveal_with_fuel(crate::render::glob_text, 2);
            assert(seq![TokView::Star].drop_last() =~= Seq::empty());
            assert(segment_text(one) =~= star@);
            assert(segment_texts(under.push(one)) =~= segment_texts(under).push(star@));
            under = under.push(one);
        }
    }
    let mut stars = String::new();
    stars.push('*');
    stars.push('*');
    texts.push(stars);
    proof {
        assert(stars@ =~= seq!['*', '*']);
        assert(segment_texts(under.push(SegmentView::DoubleStar)) =~= segment_texts(under).push(
            stars@,
        ));
        under = under.push(SegmentView::DoubleStar);
        assert(under =~= lits + under_segments(segs));
    }
    let glob = path_glob(Ghost(under), &texts);
    terms.push(match_term(Ghost(under), &glob));
    proof {
        let added = pattern_terms(views(base@), pat@);
        assert(jsons(terms@) =~= jsons(old(terms)@) + terms_json(added));
    }
}

/// The terms for one source; fails on its first negated pattern.
fn push_source_terms(terms: &mut Vec<serde_json::Value>, source: &Source) -> (done: Result<
    (),
    TranslateError,
>)
    ensures
        match done {
            Ok(_) => negated_pattern(source@.patterns) is None && jsons(final(terms)@) == jsons(
                old(terms)@,
            ) + terms_json(patterns_terms(source@.base, source@.patterns)),
            Err(e) => negated_pattern(source@.patterns) matches Some(p) && e
                is UnsupportedNegation && e.line() == p.original,
        },
{
    broadcast use group_views;

    proof {
        source.lemma_view();
    }
    let ghost base = source@.base;
    let ghost all = source@.patterns;
    let ghost before = jsons(terms@);
    proof {
        assert(before + terms_json(patterns_terms(base, all.take(0))) =~= before);
        assert(all.take(all.len() as int) =~= all);
    }
    for i in 0..source.patterns.len()
        invariant
            base == views(source.base@),
            all == views(source.patterns@),
            all == source@.patterns,
            negated_pattern(all.take(i as int)) is None,
            jsons(terms@) == before + terms_json(patterns_terms(base, all.take(i as int))),
    {
        broadcast use group_views;

        proof {
            assert(all.take(i + 1).drop_last() =~= all.take(i as int));
            assert(all.take(i + 1).last() == source.patterns@[i as int]@);
        }
        if source.patterns[i].negated {
            proof {
                lemma_first_negated(all, i as int);
            }
            return Err(
                TranslateError::UnsupportedNegation {
                    pattern: source.patterns[i].original.clone(),
                },
            );
        }
        push_pattern_terms(terms, &source.base, &source.patterns[i]);
        proof {
            let done = patterns_terms(base, all.take(i as int));
            let own = pattern_terms(base, all[i as int]);
            lemma_terms_json_add(done, own);
            assert(before + terms_json(done) + terms_json(own) =~= before + (terms_json(done)
                + terms_json(own)));
        }
    }
    proof {
        assert(all.take(all.len() as int) =~= all);
    }
    Ok(())
}

proof fn lemma_first_negated(patterns: Seq<PatternView>, i: int)
    requires
        0 <= i < patterns.len(),
        negated_pattern(patterns.take(i)) is None,
        patterns[i].negated,
    ensures
        negated_pattern(patterns) == Some(patterns[i]),
    decreases patterns.len(),
{
    if i == patterns.len() - 1 {
        assert(patterns.drop_last() =~= patterns.take(i));
    } else {
        assert(patterns.drop_last().take(i) =~= patterns.take(i));
        lemma_first_negated(patterns.drop_last(), i);
    }
}

proof fn lemma_first_negated_source(sources: Seq<SourceView>, i: int)
    requires
        0 <= i < sources.len(),
        negated(sources.take(i)) is None,
        negated_pattern(sources[i].patterns) is Some,
    ensures
        negated(sources) == negated_pattern(sources[i].patterns),
    decreases sources.len(),
{
    if i == sources.len() - 1 {
        assert(sources.drop_last() =~= sources.take(i));
    } else {
        assert(sources.drop_last().take(i) =~= sources.take(i));
        lemma_first_negated_source(sources.drop_last(), i);
    }
}

/// Builds a watchman expression matching the *files* (not directories) that
/// the rule set ignores: a file matches if some pattern matches it directly,
/// or matches one of its ancestor directories.
///
/// Negated (`!`) patterns cannot be expressed this way: deciding a path
/// requires knowing which of several patterns matched *the same* ancestor,
/// which watchman's term language cannot couple. So any negated pattern
/// yields [`TranslateError::UnsupportedNegation`], and the caller treats an
/// untranslatable rule set as uncertainty and falls back to a full rsync.
///
/// Watchman's wildmatch (unlike rsync's) lets `**/` match zero directories,
/// matching gitignore, so no variant expansion is needed. All `match` terms
/// set `includedotfiles` (gitignore globs match dotfiles).
pub fn watchman_ignored_files_expr(set: &IgnoreSet) -> (expr: Result<
    serde_json::Value,
    TranslateError,
>)
    ensures
        match expr {
            Ok(v) => negated(set@) is None && json_of(v) == ignored_json(set@),
            Err(e) => negated(set@) matches Some(p) && e is UnsupportedNegation && e.line()
                == p.original,
        },
{
    broadcast use group_views;

    let mut terms: Vec<serde_json::Value> = Vec::new();
    terms.push(json_string("anyof"));
    terms.push(dirname_term(".git"));
    terms.push(wholename_term(".git"));
    terms.push(dirname_term(".dsync"));
    terms.push(wholename_term(".dsync"));
    proof {
        set.lemma_view();
    }
    let ghost all = set@;
    let ghost first = seq![Json::Str("anyof"@)] + terms_json(builtin_terms());
    proof {
        assert(jsons(terms@) =~= first);
        assert(first + terms_json(sources_terms(all.take(0))) =~= first);
    }
    for i in 0..set.sources.len()
        invariant
            all == set@,
            all == views(set.sources@),
            negated(all.take(i as int)) is None,
            jsons(terms@) == first + terms_json(sources_terms(all.take(i as int))),
    {
        broadcast use group_views;

        proof {
            assert(all.take(i + 1).drop_last() =~= all.take(i as int));
            assert(all.take(i + 1).last() == set.sources@[i as int]@);
        }
        match push_source_terms(&mut terms, &set.sources[i]) {
            Ok(_) => {},
            Err(e) => {
                proof {
                    lemma_first_negated_source(all, i as int);
                }
                return Err(e);
            },
        }
        proof {
            let done = sources_terms(all.take(i as int));
            let own = patterns_terms(all[i as int].base, all[i as int].patterns);
            lemma_terms_json_add(done, own);
            assert(first + terms_json(done) + terms_json(own) =~= first + (terms_json(done)
                + terms_json(own)));
        }
    }
    proof {
        assert(all.take(all.len() as int) =~= all);
        lemma_terms_json_add(builtin_terms(), sources_terms(all));
        assert(jsons(terms@) =~= seq![Json::Str("anyof"@)] + terms_json(ignored_terms(all)));
    }
    Ok(json_array(terms))
}

/// Wraps an expression in `["not", ...]`.
pub(crate) fn not_expr(e: serde_json::Value) -> (v: serde_json::Value)
    ensures
        json_of(v) == not_json(json_of(e)),
{
    let items: Vec<serde_json::Value> = vec![json_string("not"), e];
    proof {
        assert(jsons(items@) =~= seq![Json::Str("not"@), json_of(e)]);
    }
    json_array(items)
}

/// Builds the expression for files that *should be synced*: regular files
/// not ignored by the rule set.
pub fn watchman_synced_files_expr(set: &IgnoreSet) -> (expr: Result<
    serde_json::Value,
    TranslateError,
>)
    ensures
        match expr {
            Ok(v) => negated(set@) is None && json_of(v) == synced_json(set@),
            Err(e) => negated(set@) matches Some(p) && e is UnsupportedNegation && e.line()
                == p.original,
        },
{
    let ignored = match watchman_ignored_files_expr(set) {
        Ok(ignored) => ignored,
        Err(e) => {
            return Err(e);
        },
    };
    let regular: Vec<serde_json::Value> = vec![json_string("type"), json_string("f")];
    proof {
        assert(jsons(regular@) =~= seq![Json::Str("type"@), Json::Str("f"@)]);
    }
    let items: Vec<serde_json::Value> = vec![
        json_string("allof"),
        json_array(regular),
        not_expr(ignored),
    ];
    proof {
        assert(jsons(items@) =~= seq![
            Json::Str("allof"@),
            Json::Array(seq![Json::Str("type"@), Json::Str("f"@)]),
            not_json(ignored_json(set@)),
        ]);
    }
    Ok(json_array(items))
}

} // verus!
