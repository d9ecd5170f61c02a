//! Layered ignore-rule evaluation with gitignore semantics.

use crate::pattern::{parse_line, pattern_matches, pattern_of, Pattern, PatternView};
use crate::text::{
    chars_of, group_views, lines, lines_of, nonempty_pieces, same_chars, spells, split_nonempty,
    string_of, views,
};
use vstd::prelude::*;

verus! {

/// One ignore file's worth of rules, rooted at a directory.
#[derive(Debug, Clone)]
pub struct Source {
    /// Path segments of the directory containing the ignore file, relative
    /// to the repo root. Empty for the root (and for root-scoped sources
    /// such as `.git/info/exclude` or the global excludes file).
    pub(crate) base: Vec<Vec<char>>,
    /// Patterns in file order (later patterns take precedence, per
    /// gitignore's last-match-wins rule).
    pub(crate) patterns: Vec<Pattern>,
}

/// What a [`Source`] stands for.
pub struct SourceView {
    pub base: Seq<Seq<char>>,
    pub patterns: Seq<PatternView>,
}

impl View for Source {
    type V = SourceView;

    closed spec fn view(&self) -> SourceView {
        SourceView { base: views(self.base@), patterns: views(self.patterns@) }
    }
}

/// What the rule set says about a single path (ignoring parent directories).
#[derive(Debug, Clone, Copy, PartialEq, Eq)]
pub enum Decision {
    Ignored,
    Reincluded,
    Unmatched,
}

/// A layered set of ignore rules, evaluated with gitignore semantics.
///
/// Sources are added in increasing precedence order; for git's rules that is
/// global excludes, then `.git/info/exclude`, then `.gitignore` files from
/// the root downward (deeper files take precedence), then the
/// `.dsyncexclude` layer on top.
///
/// Two rules are built in and cannot be overridden: the repo-root `.git` and
/// `.dsync` entries are always ignored (dsync never syncs them).
#[derive(Debug, Clone)]
pub struct IgnoreSet {
    /// In increasing precedence order.
    pub(crate) sources: Vec<Source>,
}

impl View for IgnoreSet {
    type V = Seq<SourceView>;

    closed spec fn view(&self) -> Seq<SourceView> {
        views(self.sources@)
    }
}

// ---------------------------------------------------------------------------
// What a rule set says
// ---------------------------------------------------------------------------
/// The patterns that the lines of an ignore file spell, in file order.
pub open spec fn patterns_of(lines: Seq<Seq<char>>) -> Seq<PatternView>
    decreases lines.len(),
{
    if lines.len() == 0 {
        Seq::empty()
    } else {
        let head = patterns_of(lines.drop_last());
        match pattern_of(lines.last()) {
            Some(p) => head.push(p),
            None => head,
        }
    }
}

/// The source that an ignore file with the given contents, in the directory
/// `base`, stands for.
pub open spec fn source_of(base: Seq<char>, contents: Seq<char>) -> SourceView {
    SourceView { base: nonempty_pieces(base, '/'), patterns: patterns_of(lines(contents)) }
}

/// The repo-root entries that are always ignored.
pub open spec fn builtin_name(name: Seq<char>) -> bool {
    name == ".git"@ || name == ".dsync"@
}

/// The verdict of the last pattern that matches.
pub open spec fn patterns_decide(
    patterns: Seq<PatternView>,
    path: Seq<Seq<char>>,
    is_dir: bool,
) -> Decision
    decreases patterns.len(),
{
    if patterns.len() == 0 {
        Decision::Unmatched
    } else if pattern_matches(patterns.last(), path, is_dir) {
        if patterns.last().negated {
            Decision::Reincluded
        } else {
            Decision::Ignored
        }
    } else {
        patterns_decide(patterns.drop_last(), path, is_dir)
    }
}

/// Whether `path` lies strictly inside the directory `base`.
pub open spec fn inside(base: Seq<Seq<char>>, path: Seq<Seq<char>>) -> bool {
    base.len() < path.len() && path.take(base.len() as int) == base
}

/// The verdict of one source: its patterns apply strictly inside its base
/// directory, to the path relative to it.
pub open spec fn source_decides(
    source: SourceView,
    path: Seq<Seq<char>>,
    is_dir: bool,
) -> Decision {
    if inside(source.base, path) {
        patterns_decide(source.patterns, path.skip(source.base.len() as int), is_dir)
    } else {
        Decision::Unmatched
    }
}

/// The verdict of the last source that has one.
pub open spec fn sources_decide(
    sources: Seq<SourceView>,
    path: Seq<Seq<char>>,
    is_dir: bool,
) -> Decision
    decreases sources.len(),
{
    if sources.len() == 0 {
        Decision::Unmatched
    } else if source_decides(sources.last(), path, is_dir) is Unmatched {
        sources_decide(sources.drop_last(), path, is_dir)
    } else {
        source_decides(sources.last(), path, is_dir)
    }
}

/// The verdict for exactly this path: the built-in rules first, then the
/// highest-precedence matching pattern.
pub open spec fn decision(
    sources: Seq<SourceView>,
    path: Seq<Seq<char>>,
    is_dir: bool,
) -> Decision {
    if builtin_name(path[0]) {
        Decision::Ignored
    } else {
        sources_decide(sources, path, is_dir)
    }
}

/// Whether a path is ignored: it or one of its ancestor directories is
/// excluded by the rules. The repo root itself is not.
pub open spec fn ignored(sources: Seq<SourceView>, path: Seq<Seq<char>>, is_dir: bool) -> bool {
    path.len() > 0 && (decision(sources, path, is_dir) is Ignored || exists|i: int|
        0 < i < path.len() && decision(sources, #[trigger] path.take(i), true) is Ignored)
}

// ---------------------------------------------------------------------------
// Evaluating it
// ---------------------------------------------------------------------------
/// The patterns that the given lines spell.
fn parse_lines(lines: &Vec<Vec<char>>) -> (patterns: Vec<Pattern>)
    ensures
        views(patterns@) == patterns_of(views(lines@)),
{
    broadcast use group_views;

    let ghost all = views(lines@);
    let mut patterns: Vec<Pattern> = Vec::new();
    for i in 0..lines.len()
        invariant
            all == views(lines@),
            views(patterns@) == patterns_of(all.take(i as int)),
    {
        broadcast use group_views;

        let line = string_of(lines[i].as_slice());
        proof {
            assert(all.take(i + 1).drop_last() =~= all.take(i as int));
            assert(all.take(i + 1).last() == line@);
        }
        if let Some(p) = parse_line(line.as_str()) {
            patterns.push(p);
        }
    }
    proof {
        assert(all.take(all.len() as int) =~= all);
    }
    patterns
}

/// Whether `path` lies strictly inside `base`.
fn is_inside(base: &Vec<Vec<char>>, path: &[Vec<char>]) -> (found: bool)
    ensures
        found == inside(views(base@), views(path@)),
{
    broadcast use group_views;

    if path.len() <= base.len() {
        return false;
    }
    for i in 0..base.len()
        invariant
            base@.len() < path@.len(),
            forall|k: int| 0 <= k < i ==> views(base@)[k] == views(path@)[k],
    {
        broadcast use group_views;

        if !same_chars(base[i].as_slice(), path[i].as_slice()) {
            proof {
                assert(views(path@).take(base@.len() as int)[i as int] != views(base@)[i as int]);
            }
            return false;
        }
    }
    proof {
        assert(views(path@).take(base@.len() as int) =~= views(base@));
    }
    true
}

impl Source {
    pub(crate) proof fn lemma_view(&self)
        ensures
            self@.base == views(self.base@),
            self@.patterns == views(self.patterns@),
    {
    }

    /// The verdict of this source's patterns on `path`.
    fn decide(&self, path: &[Vec<char>], is_dir: bool) -> (verdict: Decision)
        ensures
            verdict == source_decides(self@, views(path@), is_dir),
    {
        broadcast use group_views;

        if !is_inside(&self.base, path) {
            return Decision::Unmatched;
        }
        let rel = vstd::slice::slice_subrange(path, self.base.len(), path.len());
        let ghost all = views(self.patterns@);
        proof {
            assert(views(rel@) =~= views(path@).skip(self.base@.len() as int));
            assert(all.take(all.len() as int) =~= all);
        }
        let mut i: usize = self.patterns.len();
        while i > 0
            invariant
                i <= self.patterns@.len(),
                all == views(self.patterns@),
                inside(self@.base, views(path@)),
                views(rel@) == views(path@).skip(self.base@.len() as int),
                patterns_decide(all, views(rel@), is_dir) == patterns_decide(
                    all.take(i as int),
                    views(rel@),
                    is_dir,
                ),
            decreases i,
        {
            broadcast use group_views;

            proof {
                assert(all.take(i as int).drop_last() =~= all.take(i - 1));
                assert(all.take(i as int).last() == self.patterns@[i - 1]@);
            }
            if self.patterns[i - 1].matches_segments(rel, is_dir) {
                return if self.patterns[i - 1].negated {
                    Decision::Reincluded
                } else {
                    Decision::Ignored
                };
            }
            i = i - 1;
        }
        Decision::Unmatched
    }
}

impl Default for IgnoreSet {
    /// An empty rule set.
    fn default() -> (set: Self)
        ensures
            set@ == Seq::<SourceView>::empty(),
    {
        IgnoreSet::new()
    }
}

impl IgnoreSet {
    pub(crate) proof fn lemma_view(&self)
        ensures
            self@ == views(self.sources@),
    {
    }

    /// An empty rule set (only the built-in `.git` / `.dsync` exclusions).
    pub fn new() -> (set: Self)
        ensures
            set@ == Seq::<SourceView>::empty(),
    {
        broadcast use group_views;

        IgnoreSet { sources: Vec::new() }
    }

    /// Adds one ignore file. `base` is the repo-root-relative directory the
    /// file's patterns are anchored to (`""` for the root). Sources added
    /// later take precedence over sources added earlier.
    pub fn add_source(&mut self, base: &str, contents: &str)
        ensures
            final(self)@ == old(self)@.push(source_of(base@, contents@)),
    {
        broadcast use group_views;

        let base = split_nonempty(chars_of(base).as_slice(), '/');
        let patterns = parse_lines(&lines_of(chars_of(contents).as_slice()));
        self.sources.push(Source { base, patterns });
    }

    /// Is `path` ignored (i.e. *not* synced)?
    ///
    /// `path` is relative to the repo root, `/`-separated, with no leading
    /// slash. `is_dir` is whether it names a directory. Per gitignore
    /// semantics, a path is ignored if it or any of its ancestor directories
    /// is excluded by the rules; a `!` pattern cannot re-include a path whose
    /// parent directory is excluded.
    pub fn is_ignored(&self, path: &str, is_dir: bool) -> (yes: bool)
        ensures
            yes == ignored(self@, nonempty_pieces(path@, '/'), is_dir),
    {
        broadcast use group_views;

        let segs = split_nonempty(chars_of(path).as_slice(), '/');
        self.ignores(segs.as_slice(), is_dir)
    }

    /// [`IgnoreSet::is_ignored`] on a path already split into segments.
    pub(crate) fn ignores(&self, segs: &[Vec<char>], is_dir: bool) -> (yes: bool)
        ensures
            yes == ignored(self@, views(segs@), is_dir),
    {
        broadcast use group_views;

        if segs.len() == 0 {
            return false;
        }
        for i in 1..segs.len()
            invariant
                segs@.len() > 0,
                forall|k: int|
                    0 < k < i ==> !(decision(self@, #[trigger] views(segs@).take(k), true)
                        is Ignored),
        {
            broadcast use group_views;

            let prefix = vstd::slice::slice_subrange(segs, 0, i);
            proof {
                assert(views(prefix@) =~= views(segs@).take(i as int));
            }
            if let Decision::Ignored = self.decide(prefix, true) {
                return true;
            }
        }
        matches!(self.decide(segs, is_dir), Decision::Ignored)
    }

    /// The verdict for exactly this path: the highest-precedence matching
    /// pattern wins (later sources beat earlier ones; within a source, later
    /// patterns beat earlier ones).
    fn decide(&self, path: &[Vec<char>], is_dir: bool) -> (verdict: Decision)
        requires
            path@.len() > 0,
        ensures
            verdict == decision(self@, views(path@), is_dir),
    {
        broadcast use group_views;

        // Built-in, non-overridable: the repo-root .git and .dsync entries.
        if spells(path[0].as_slice(), ".git") || spells(path[0].as_slice(), ".dsync") {
            return Decision::Ignored;
        }
        let ghost all = self@;
        proof {
            assert(all.take(all.len() as int) =~= all);
        }
        let mut i: usize = self.sources.len();
        while i > 0
            invariant
                i <= self.sources@.len(),
                all == views(self.sources@),
                !builtin_name(views(path@)[0]),
                sources_decide(all, views(path@), is_dir) == sources_decide(
                    all.take(i as int),
                    views(path@),
                    is_dir,
                ),
            decreases i,
        {
            broadcast use group_views;

            proof {
                assert(all.take(i as int).drop_last() =~= all.take(i - 1));
                assert(all.take(i as int).last() == self.sources@[i - 1]@);
            }
            let verdict = self.sources[i - 1].decide(path, is_dir);
            if !matches!(verdict, Decision::Unmatched) {
                return verdict;
            }
            i = i - 1;
        }
        Decision::Unmatched
    }
}

} // verus!
