//! What holds of every rule set.

use crate::eval::{
    decision, ignored, inside, patterns_decide, patterns_of, source_decides, source_of,
    sources_decide, Decision, SourceView,
};
use crate::pattern::{
    glob_matches, pattern_matches, pattern_of, segments_match, PatternView, SegmentView, TokView,
};
use crate::pattern_laws::{
    empty_text_matches_nothing, lines_without_a_slash_match_names_at_any_depth,
    plain_characters_match_themselves, slashed_line, text_matches,
};
use crate::text::{join, lemma_split_nonempty, lines, nonempty_pieces, split, without_suffix};
use vstd::prelude::*;

verus! {

/// The repo-root `.git` and `.dsync`, and everything in them, are ignored
/// whatever the rules say.
pub proof fn builtins_cannot_be_overridden(
    sources: Seq<SourceView>,
    path: Seq<Seq<char>>,
    is_dir: bool,
)
    requires
        path.len() > 0,
        path[0] == ".git"@ || path[0] == ".dsync"@,
    ensures
        ignored(sources, path, is_dir),
{
}

/// Everything inside an ignored directory is ignored: no rule re-includes a
/// path whose parent directory is excluded.
pub proof fn inside_an_ignored_directory_all_is_ignored(
    sources: Seq<SourceView>,
    path: Seq<Seq<char>>,
    n: int,
    is_dir: bool,
)
    requires
        0 < n < path.len(),
        ignored(sources, path.take(n), true),
    ensures
        ignored(sources, path, is_dir),
{
    let dir = path.take(n);
    if !(decision(sources, dir, true) is Ignored) {
        let i = choose|i: int|
            0 < i < dir.len() && decision(sources, #[trigger] dir.take(i), true) is Ignored;
        assert(dir.take(i) =~= path.take(i));
        assert(decision(sources, path.take(i), true) is Ignored);
    }
}

/// A source added later decides wherever it has a verdict, and changes
/// nothing where it has none.
pub proof fn later_sources_take_precedence(
    sources: Seq<SourceView>,
    added: SourceView,
    path: Seq<Seq<char>>,
    is_dir: bool,
)
    ensures
        sources_decide(sources.push(added), path, is_dir) == (if source_decides(
            added,
            path,
            is_dir,
        ) is Unmatched {
            sources_decide(sources, path, is_dir)
        } else {
            source_decides(added, path, is_dir)
        }),
{
    assert(sources.push(added).drop_last() =~= sources);
}

/// Within a file, the last pattern that matches decides.
pub proof fn later_patterns_take_precedence(
    patterns: Seq<PatternView>,
    added: PatternView,
    path: Seq<Seq<char>>,
    is_dir: bool,
)
    ensures
        patterns_decide(patterns.push(added), path, is_dir) == (if pattern_matches(
            added,
            path,
            is_dir,
        ) {
            if added.negated {
                Decision::Reincluded
            } else {
                Decision::Ignored
            }
        } else {
            patterns_decide(patterns, path, is_dir)
        }),
{
    assert(patterns.push(added).drop_last() =~= patterns);
}

/// A source says nothing about paths that do not lie strictly inside its
/// directory.
pub proof fn sources_apply_inside_their_directory(
    sources: Seq<SourceView>,
    added: SourceView,
    path: Seq<Seq<char>>,
    is_dir: bool,
)
    requires
        !inside(added.base, path),
    ensures
        decision(sources.push(added), path, is_dir) == decision(sources, path, is_dir),
{
    later_sources_take_precedence(sources, added, path, is_dir);
}

/// With no rules, only the built-in entries are ignored.
pub proof fn empty_set_ignores_only_the_builtins(path: Seq<Seq<char>>, is_dir: bool)
    ensures
        ignored(Seq::empty(), path, is_dir) <==> path.len() > 0 && (path[0] == ".git"@ || path[0]
            == ".dsync"@),
{
    let none = Seq::<SourceView>::empty();
    if ignored(none, path, is_dir) && !(decision(none, path, is_dir) is Ignored) {
        let i = choose|i: int|
            0 < i < path.len() && decision(none, #[trigger] path.take(i), true) is Ignored;
        assert(path.take(i)[0] == path[0]);
    }
}

/// A directory-only pattern matches no file.
pub proof fn directory_patterns_match_no_file(p: PatternView, path: Seq<Seq<char>>)
    requires
        p.dir_only,
    ensures
        !pattern_matches(p, path, false),
{
}

/// A pattern without a slash matches by the last path segment, at any depth.
pub proof fn unanchored_patterns_match_the_basename(
    toks: Seq<TokView>,
    path: Seq<Seq<char>>,
)
    ensures
        segments_match(seq![SegmentView::DoubleStar, SegmentView::Glob(toks)], path) <==> path.len()
            > 0 && glob_matches(toks, path.last()),
{
    let segs = seq![SegmentView::DoubleStar, SegmentView::Glob(toks)];
    let rest = segs.skip(1);
    let glob = seq![SegmentView::Glob(toks)];
    assert(rest =~= glob);
    assert(glob.skip(1) =~= Seq::empty());
    reveal_with_fuel(segments_match, 3);
    if segments_match(segs, path) {
        let i = choose|i: int|
            0 <= i <= path.len() && segments_match(rest, #[trigger] path.skip(i));
        assert(path.skip(i).skip(1).len() == 0);
        assert(path.skip(i)[0] == path.last());
    }
    if path.len() > 0 && glob_matches(toks, path.last()) {
        let i = path.len() - 1;
        assert(path.skip(i)[0] == path.last());
        assert(path.skip(i).skip(1).len() == 0);
        assert(segments_match(rest, path.skip(i)));
    }
}

/// A trailing `**` matches everything inside a directory, and not the
/// directory itself.
pub proof fn trailing_double_star_is_strictly_inside(
    toks: Seq<TokView>,
    path: Seq<Seq<char>>,
)
    ensures
        segments_match(seq![SegmentView::Glob(toks), SegmentView::DoubleStar], path) <==> path.len()
            > 1 && glob_matches(toks, path[0]),
{
    let segs = seq![SegmentView::Glob(toks), SegmentView::DoubleStar];
    assert(segs.skip(1) =~= seq![SegmentView::DoubleStar]);
    reveal_with_fuel(segments_match, 2);
}

/// `?` and `*` inside a segment never reach across a slash: every pattern
/// segment but `**` takes exactly one path segment.
pub proof fn globs_take_one_segment_each(segs: Seq<SegmentView>, path: Seq<Seq<char>>)
    requires
        forall|i: int| 0 <= i < segs.len() ==> !(#[trigger] segs[i] is DoubleStar),
        segments_match(segs, path),
    ensures
        path.len() == segs.len(),
    decreases segs.len(),
{
    if segs.len() > 0 {
        assert forall|i: int| 0 <= i < segs.skip(1).len() implies !(#[trigger] segs.skip(1)[i]
            is DoubleStar) by {
            assert(segs.skip(1)[i] == segs[i + 1]);
        }
        globs_take_one_segment_each(segs.skip(1), path.skip(1));
    }
}

/// A path is ignored exactly if the rules decide against it or against a
/// directory on the way to it, which they do for the two internal entries
/// whatever else they say. The root itself never is.
pub proof fn paths_are_ignored_with_their_directories(
    sources: Seq<SourceView>,
    path: Seq<Seq<char>>,
    is_dir: bool,
)
    ensures
        !ignored(sources, Seq::empty(), is_dir),
        path.len() > 0 ==> {
            ||| path[0] == ".git"@
            ||| path[0] == ".dsync"@
            ||| (ignored(sources, path, is_dir) <==> (sources_decide(sources, path, is_dir)
                == Decision::Ignored || exists|n: int|
                0 < n < path.len() && sources_decide(sources, #[trigger] path.take(n), true)
                    == Decision::Ignored))
        },
{
    if path.len() > 0 && path[0] != ".git"@ && path[0] != ".dsync"@ {
        assert forall|n: int| 0 < n < path.len() implies decision(
            sources,
            #[trigger] path.take(n),
            true,
        ) == sources_decide(sources, path.take(n), true) by {
            assert(path.take(n)[0] == path[0]);
        }
        if ignored(sources, path, is_dir) && !(sources_decide(sources, path, is_dir)
            == Decision::Ignored) {
            let n = choose|n: int|
                0 < n < path.len() && decision(sources, #[trigger] path.take(n), true) is Ignored;
            assert(sources_decide(sources, path.take(n), true) == Decision::Ignored);
        }
        if exists|n: int|
            0 < n < path.len() && sources_decide(sources, #[trigger] path.take(n), true)
                == Decision::Ignored {
            let n = choose|n: int|
                0 < n < path.len() && sources_decide(sources, #[trigger] path.take(n), true)
                    == Decision::Ignored;
            assert(decision(sources, path.take(n), true) is Ignored);
        }
    }
}

/// The rules of a file say of a path under the file's directory what they
/// would say, in the root's file, of the rest of the path, and nothing of the
/// directory itself or of a path that is not under it.
pub proof fn files_speak_of_what_is_under_their_directory(
    base: Seq<Seq<char>>,
    patterns: Seq<PatternView>,
    rest: Seq<Seq<char>>,
    is_dir: bool,
)
    requires
        rest.len() > 0,
    ensures
        source_decides(SourceView { base, patterns }, base + rest, is_dir) == source_decides(
            SourceView { base: Seq::empty(), patterns },
            rest,
            is_dir,
        ),
        source_decides(SourceView { base: Seq::empty(), patterns }, rest, is_dir)
            == patterns_decide(patterns, rest, is_dir),
        source_decides(SourceView { base, patterns }, base, is_dir) == Decision::Unmatched,
        rest.take(if base.len() <= rest.len() {
            base.len() as int
        } else {
            0
        }) != base ==> source_decides(SourceView { base, patterns }, rest, is_dir)
            == Decision::Unmatched,
{
    let path = base + rest;
    assert(path.take(base.len() as int) =~= base);
    assert(path.skip(base.len() as int) =~= rest);
    assert(rest.take(0) =~= Seq::empty());
    assert(rest.skip(0) =~= rest);
}

/// No pattern and no file say anything, and a single pattern speaks of the
/// paths that it matches: against them, or for them if it is marked by `!`.
pub proof fn patterns_speak_of_what_they_match(
    p: PatternView,
    path: Seq<Seq<char>>,
    is_dir: bool,
)
    ensures
        patterns_decide(Seq::empty(), path, is_dir) == Decision::Unmatched,
        sources_decide(Seq::empty(), path, is_dir) == Decision::Unmatched,
        patterns_decide(seq![p], path, is_dir) == (if !pattern_matches(p, path, is_dir) {
            Decision::Unmatched
        } else if p.negated {
            Decision::Reincluded
        } else {
            Decision::Ignored
        }),
        pattern_matches(p, path, true) <==> path.len() > 0 && segments_match(p.segments, path),
        pattern_matches(p, path, false) <==> pattern_matches(p, path, true) && !p.dir_only,
{
    assert(seq![p].drop_last() =~= Seq::empty());
    reveal_with_fuel(patterns_decide, 2);
}

proof fn lemma_split_line(line: Seq<char>, rest: Seq<char>)
    requires
        !line.contains('\n'),
    ensures
        split(line + seq!['\n'] + rest, '\n') == seq![line] + split(rest, '\n'),
    decreases rest.len(),
{
    let all = line + seq!['\n'] + rest;
    if rest.len() == 0 {
        assert(all =~= line.push('\n'));
        assert(all.drop_last() =~= line);
        lemma_split_none(line);
        assert(split(rest, '\n') =~= seq![Seq::<char>::empty()]);
        assert(split(all, '\n') =~= seq![line] + split(rest, '\n'));
    } else {
        lemma_split_line(line, rest.drop_last());
        lemma_split_nonempty(rest.drop_last(), '\n');
        assert(all.drop_last() =~= line + seq!['\n'] + rest.drop_last());
        assert(all.last() == rest.last());
        assert(split(all, '\n') =~= seq![line] + split(rest, '\n'));
    }
}

proof fn lemma_split_none(s: Seq<char>)
    requires
        !s.contains('\n'),
    ensures
        split(s, '\n') == seq![s],
    decreases s.len(),
{
    if s.len() == 0 {
        assert(s =~= Seq::empty());
    } else {
        let init = s.drop_last();
        assert forall|k: int| 0 <= k < init.len() implies init[k] != '\n' by {
            assert(init[k] == s[k]);
        }
        lemma_split_none(init);
        assert(s[s.len() - 1] != '\n');
        assert(init.push(s.last()) =~= s);
        assert(split(s, '\n') =~= seq![s]);
    }
}

/// The patterns that a line spells: one or none.
pub open spec fn line_patterns(line: Seq<char>) -> Seq<PatternView> {
    match pattern_of(line) {
        Some(p) => seq![p],
        None => Seq::empty(),
    }
}

proof fn lemma_patterns_front(line: Seq<char>, rest: Seq<Seq<char>>)
    ensures
        patterns_of(seq![line] + rest) == line_patterns(line) + patterns_of(rest),
    decreases rest.len(),
{
    let all = seq![line] + rest;
    if rest.len() == 0 {
        assert(all.drop_last() =~= Seq::empty());
        reveal_with_fuel(patterns_of, 2);
        assert(patterns_of(all) =~= line_patterns(line) + patterns_of(rest));
    } else {
        lemma_patterns_front(line, rest.drop_last());
        assert(all.drop_last() =~= seq![line] + rest.drop_last());
        assert(patterns_of(all) =~= line_patterns(line) + patterns_of(rest));
    }
}

/// A file holds the patterns of its lines, in order, line by line; a carriage
/// return at the end of a line does not belong to it, and the last line need
/// not be ended.
pub proof fn files_hold_the_patterns_of_their_lines(
    base: Seq<char>,
    line: Seq<char>,
    rest: Seq<char>,
)
    requires
        !line.contains('\n'),
        line.len() > 0 ==> line.last() != '\r',
    ensures
        source_of(base, Seq::empty()).patterns.len() == 0,
        source_of(base, line).patterns == line_patterns(line),
        source_of(base, line + seq!['\n'] + rest).patterns == line_patterns(line) + source_of(
            base,
            rest,
        ).patterns,
        source_of(base, line + seq!['\r', '\n'] + rest).patterns == line_patterns(line) + source_of(
            base,
            rest,
        ).patterns,
        source_of(base, rest).base == nonempty_pieces(base, '/'),
{
    let none = Seq::<char>::empty();
    lemma_split_none(none);
    lemma_split_none(line);
    assert(lines(none) =~= Seq::empty());
    assert(source_of(base, none).patterns =~= Seq::empty());
    lemma_patterns_front(line, Seq::empty());
    assert(seq![line] + Seq::<Seq<char>>::empty() =~= seq![line]);
    assert(patterns_of(Seq::empty()) =~= Seq::<PatternView>::empty());
    if line.len() > 0 {
        assert(lines(line) =~= seq![line]);
    } else {
        assert(line =~= none);
        assert(line_patterns(line) =~= Seq::empty());
    }
    assert(source_of(base, line).patterns =~= line_patterns(line));
    lemma_lines_front(line, rest);
    lemma_patterns_front(line, lines(rest));
    let ended = line.push('\r');
    assert(line + seq!['\r', '\n'] + rest =~= ended + seq!['\n'] + rest);
    assert forall|k: int| 0 <= k < ended.len() implies ended[k] != '\n' by {
        if k < line.len() {
            assert(ended[k] == line[k]);
        }
    }
    lemma_lines_front(ended, rest);
    assert(ended.drop_last() =~= line);
}

proof fn lemma_lines_front(line: Seq<char>, rest: Seq<char>)
    requires
        !line.contains('\n'),
    ensures
        lines(line + seq!['\n'] + rest) == seq![without_suffix(line, '\r')] + lines(rest),
{
    lemma_split_line(line, rest);
    lemma_split_nonempty(rest, '\n');
    let all = line + seq!['\n'] + rest;
    assert(split(all, '\n').drop_last() =~= seq![line] + split(rest, '\n').drop_last());
    assert(split(all, '\n').last() == split(rest, '\n').last());
    assert(lines(all) =~= seq![without_suffix(line, '\r')] + lines(rest));
}

/// Whether a word stands for itself in a pattern line.
pub open spec fn plain_word(word: Seq<char>) -> bool {
    word.len() > 0 && forall|k: int|
        0 <= k < word.len() ==> {
            let c = #[trigger] word[k];
            c != '\\' && c != '?' && c != '*' && c != '[' && c != '/' && c != '!' && c != '#' && c
                != ' ' && c != '\r' && c != '\n'
        }
}

proof fn lemma_plain_text(word: Seq<char>, name: Seq<char>)
    requires
        word.len() > 0 ==> plain_word(word),
    ensures
        text_matches(word, name) <==> name == word,
    decreases word.len(),
{
    if word.len() == 0 {
        assert(word =~= Seq::empty());
        empty_text_matches_nothing(name);
        if name.len() == 0 {
            assert(name =~= word);
        }
    } else {
        let rest = word.skip(1);
        assert(word =~= seq![word[0]] + rest);
        assert(plain_word(word));
        assert forall|k: int| 0 <= k < rest.len() implies {
            let c = #[trigger] rest[k];
            c != '\\' && c != '?' && c != '*' && c != '[' && c != '/' && c != '!' && c != '#' && c
                != ' ' && c != '\r' && c != '\n'
        } by {
            assert(rest[k] == word[k + 1]);
        }
        plain_characters_match_themselves(word[0], rest, name);
        if name.len() > 0 {
            lemma_plain_text(rest, name.skip(1));
            assert(name =~= seq![name[0]] + name.skip(1));
        }
    }
}

/// A file that names a word ignores everything of that name, at any depth,
/// and everything under it, and nothing else but the internal entries.
pub proof fn naming_a_word_ignores_everything_of_that_name(
    word: Seq<char>,
    path: Seq<Seq<char>>,
    is_dir: bool,
)
    requires
        plain_word(word),
        path.len() > 0,
    ensures
        ignored(seq![source_of(Seq::empty(), word + seq!['\n'])], path, is_dir) <==> path[0]
            == ".git"@ || path[0] == ".dsync"@ || path.contains(word),
{
    let none = Seq::<char>::empty();
    let source = source_of(none, word + seq!['\n']);
    let sources = seq![source];
    let p = pattern_of(word)->0;
    let texts = seq![word];
    assert(word[0] != '#' && word[word.len() - 1] != '\r');
    assert forall|k: int| 0 <= k < word.len() implies word[k] != '\n' && word[k] != '/' by {}
    files_hold_the_patterns_of_their_lines(none, word, none);
    assert(word + seq!['\n'] + none =~= word + seq!['\n']);
    assert(join(texts, seq!['/']) =~= word);
    assert(slashed_line(texts, false, false) =~= word);
    lines_without_a_slash_match_names_at_any_depth(false, word, false, path, is_dir);
    assert(source.patterns =~= seq![p]);
    assert(split(none, '/') =~= seq![none]);
    reveal(Seq::filter);
    reveal_with_fuel(Seq::filter, 2);
    assert(source.base =~= Seq::empty());
    assert forall|q: Seq<Seq<char>>, d: bool| q.len() > 0 implies #[trigger] sources_decide(
        sources,
        q,
        d,
    ) == (if q.last() == word {
        Decision::Ignored
    } else {
        Decision::Unmatched
    }) by {
        assert(word != seq!['*', '*']) by {
            assert(word[0] != '*');
        }
        lines_without_a_slash_match_names_at_any_depth(false, word, false, q, d);
        lemma_plain_text(word, q.last());
        patterns_speak_of_what_they_match(p, q, d);
        assert(q.take(0) =~= Seq::empty());
        assert(q.skip(0) =~= q);
        assert(sources.drop_last() =~= Seq::empty());
        reveal_with_fuel(sources_decide, 2);
    }
    paths_are_ignored_with_their_directories(sources, path, is_dir);
    if path[0] == ".git"@ || path[0] == ".dsync"@ {
        builtins_cannot_be_overridden(sources, path, is_dir);
    } else {
        assert(sources_decide(sources, path, is_dir) == Decision::Ignored <==> path.last() == word);
        if path.contains(word) {
            let k = choose|k: int| 0 <= k < path.len() && path[k] == word;
            if k < path.len() - 1 {
                assert(path.take(k + 1).last() == word);
                assert(sources_decide(sources, path.take(k + 1), true) == Decision::Ignored);
            }
        }
        if exists|n: int|
            0 < n < path.len() && sources_decide(sources, #[trigger] path.take(n), true)
                == Decision::Ignored {
            let n = choose|n: int|
                0 < n < path.len() && sources_decide(sources, #[trigger] path.take(n), true)
                    == Decision::Ignored;
            assert(path.take(n).last() == path[n - 1]);
        }
    }
}

} // verus!
