//! Loading the layered ignore rules of a git repository.
//!
//! Which files are read, and in which order, is decided here; reading them
//! is up to the caller, who is told the next directory to look at and hands
//! back what is in it.

use crate::eval::{ignored, source_of, IgnoreSet, SourceView};
use crate::load_laws::global_layers_come_first;
use crate::names::{sort_names, sorted};
use crate::text::{
    chars_of, copy_chars, group_views, join, join_strings, nonempty_pieces, opt_text, spells,
    string_of, views,
};
use vstd::prelude::*;

verus! {

/// The dsync-specific overlay file, looked up at the repo root. Supports
/// gitignore syntax, including `!pattern` re-includes, and is layered
/// *after* (at higher precedence than) all of git's own rules.
pub const DSYNC_EXCLUDE_FILE: &'static str = ".dsyncexclude";

// ---------------------------------------------------------------------------
// The walk
// ---------------------------------------------------------------------------
/// How far the loading of a repository has come.
pub struct RepoLoadView {
    /// The rules so far, in increasing precedence order.
    pub sources: Seq<SourceView>,
    /// The directories still to look at, the next one first, each as the
    /// names on the way to it from the root.
    pub pending: Seq<Seq<Seq<char>>>,
    /// The directory being looked at.
    pub at: Option<Seq<Seq<char>>>,
}

/// A directory's path relative to the root.
pub open spec fn dir_text(path: Seq<Seq<char>>) -> Seq<char> {
    join(path, seq!['/'])
}

/// Whether the rules ignore a directory.
pub open spec fn dir_ignored(sources: Seq<SourceView>, path: Seq<Seq<char>>) -> bool {
    ignored(sources, nonempty_pieces(dir_text(path), '/'), true)
}

/// The rules with one more layer, if there is one.
pub open spec fn layered(
    sources: Seq<SourceView>,
    base: Seq<char>,
    contents: Option<Seq<char>>,
) -> Seq<SourceView> {
    match contents {
        Some(text) => sources.push(source_of(base, text)),
        None => sources,
    }
}

/// The directories to look at without the ignored ones that come first.
pub open spec fn unignored(
    sources: Seq<SourceView>,
    pending: Seq<Seq<Seq<char>>>,
) -> Seq<Seq<Seq<char>>>
    decreases pending.len(),
{
    if pending.len() > 0 && dir_ignored(sources, pending[0]) {
        unignored(sources, pending.skip(1))
    } else {
        pending
    }
}

/// The subdirectories of `path` that may be looked at: all but the root's
/// `.git` and `.dsync`.
pub open spec fn entered(path: Seq<Seq<char>>, names: Seq<Seq<char>>) -> Seq<Seq<char>>
    decreases names.len(),
{
    if names.len() == 0 {
        names
    } else {
        let init = entered(path, names.drop_last());
        if path.len() == 0 && (names.last() == ".git"@ || names.last() == ".dsync"@) {
            init
        } else {
            init.push(names.last())
        }
    }
}

/// The paths of subdirectories of `path`.
pub open spec fn children(path: Seq<Seq<char>>, names: Seq<Seq<char>>) -> Seq<Seq<Seq<char>>> {
    names.map_values(|name: Seq<char>| path.push(name))
}

impl RepoLoadView {
    /// The state before the root is looked at: the global layers are in.
    pub open spec fn start(
        global_excludes: Option<Seq<char>>,
        info_exclude: Option<Seq<char>>,
    ) -> RepoLoadView {
        RepoLoadView {
            sources: layered(
                layered(Seq::empty(), Seq::empty(), global_excludes),
                Seq::empty(),
                info_exclude,
            ),
            pending: seq![Seq::empty()],
            at: None,
        }
    }

    /// The state after turning to the next directory: ignored directories,
    /// whose `.gitignore` files git itself never reads, are skipped.
    pub open spec fn turned(self) -> RepoLoadView {
        let left = unignored(self.sources, self.pending);
        if left.len() == 0 {
            RepoLoadView { pending: left, at: None, ..self }
        } else {
            RepoLoadView { pending: left.skip(1), at: Some(left[0]), ..self }
        }
    }

    /// The state after looking at the directory: its `.gitignore` is a new
    /// layer, and its subdirectories come next, in order of their names.
    pub open spec fn visited(
        self,
        gitignore: Option<Seq<char>>,
        subdirs: Seq<Seq<char>>,
    ) -> RepoLoadView {
        let path = self.at->0;
        RepoLoadView {
            sources: layered(self.sources, dir_text(path), gitignore),
            pending: children(path, sorted(entered(path, subdirs))) + self.pending,
            at: None,
        }
    }

    /// The rules, with the `.dsyncexclude` layer on top.
    pub open spec fn finished(self, dsyncexclude: Option<Seq<char>>) -> Seq<SourceView> {
        layered(self.sources, Seq::empty(), dsyncexclude)
    }
}

/// The loading of a repository's ignore rules: a depth-first preorder walk
/// that adds `.gitignore` sources shallow-to-deep (deeper files are added
/// later, so they take precedence), pruning ignored directories as git does.
#[derive(Debug, Clone)]
pub struct RepoLoad {
    set: IgnoreSet,
    /// The directories still to look at, the next one last.
    stack: Vec<Vec<Vec<char>>>,
    at: Option<Vec<Vec<char>>>,
}

/// The views of paths.
pub open spec fn path_views(paths: Seq<Vec<Vec<char>>>) -> Seq<Seq<Seq<char>>> {
    paths.map_values(|path: Vec<Vec<char>>| views(path@))
}

impl View for RepoLoad {
    type V = RepoLoadView;

    closed spec fn view(&self) -> RepoLoadView {
        RepoLoadView {
            sources: self.set@,
            pending: path_views(self.stack@).reverse(),
            at: match self.at {
                Some(path) => Some(views(path@)),
                None => None,
            },
        }
    }
}

/// Adds one layer, if there is one.
fn add_layer(set: &mut IgnoreSet, base: &str, contents: Option<&str>)
    ensures
        final(set)@ == layered(old(set)@, base@, opt_text(contents)),
{
    if let Some(text) = contents {
        set.add_source(base, text);
    }
}

/// The strings that spell a path's names.
fn name_strings(path: &Vec<Vec<char>>) -> (names: Vec<String>)
    ensures
        views(names@) == views(path@),
{
    broadcast use group_views;

    let mut names: Vec<String> = Vec::new();
    for i in 0..path.len()
        invariant
            views(names@) == views(path@).take(i as int),
    {
        broadcast use group_views;

        names.push(string_of(path[i].as_slice()));
        proof {
            assert(views(path@).take(i + 1) =~= views(path@).take(i as int).push(
                path@[i as int]@,
            ));
        }
    }
    proof {
        assert(views(path@).take(path@.len() as int) =~= views(path@));
    }
    names
}

/// A directory's path relative to the root.
fn dir_string(path: &Vec<Vec<char>>) -> (text: String)
    ensures
        text@ == dir_text(views(path@)),
{
    let names = name_strings(path);
    proof {
        reveal_strlit("/");
        assert("/"@ =~= seq!['/']);
    }
    join_strings(&names, "/")
}

/// The path of a subdirectory.
fn child_path(path: &Vec<Vec<char>>, name: &Vec<char>) -> (child: Vec<Vec<char>>)
    ensures
        views(child@) == views(path@).push(name@),
{
    broadcast use group_views;

    let mut child: Vec<Vec<char>> = Vec::new();
    for i in 0..path.len()
        invariant
            views(child@) == views(path@).take(i as int),
    {
        broadcast use group_views;

        child.push(copy_chars(path[i].as_slice()));
        proof {
            assert(views(path@).take(i + 1) =~= views(path@).take(i as int).push(
                path@[i as int]@,
            ));
        }
    }
    proof {
        assert(views(path@).take(path@.len() as int) =~= views(path@));
    }
    child.push(copy_chars(name.as_slice()));
    child
}

/// The subdirectories that may be looked at.
fn entered_names(at_root: bool, Ghost(path): Ghost<Seq<Seq<char>>>, names: &Vec<String>) -> (kept:
    Vec<Vec<char>>)
    requires
        at_root == (path.len() == 0),
    ensures
        views(kept@) == entered(path, views(names@)),
{
    broadcast use group_views;

    let ghost all = views(names@);
    let mut kept: Vec<Vec<char>> = Vec::new();
    for i in 0..names.len()
        invariant
            at_root == (path.len() == 0),
            all == views(names@),
            views(kept@) == entered(path, all.take(i as int)),
    {
        broadcast use group_views;

        proof {
            assert(all.take(i + 1).drop_last() =~= all.take(i as int));
            assert(all.take(i + 1).last() == names@[i as int]@);
        }
        let name = chars_of(names[i].as_str());
        let internal = at_root && (spells(name.as_slice(), ".git") || spells(
            name.as_slice(),
            ".dsync",
        ));
        if !internal {
            kept.push(name);
        }
    }
    proof {
        assert(all.take(all.len() as int) =~= all);
    }
    kept
}

/// Starts loading the full layered rule set of a repository:
///
/// 1. `global_excludes`: the contents of the user's `core.excludesFile`,
///    if the caller has resolved one;
/// 2. `info_exclude`: the contents of `$GIT_DIR/info/exclude`;
/// 3. every `.gitignore` in the worktree, root downward, skipping ignored
///    directories (whose `.gitignore` files git itself never reads), by
///    [`RepoLoad::next_dir`] and [`RepoLoad::visit`];
/// 4. the root [`DSYNC_EXCLUDE_FILE`], at highest precedence, by
///    [`RepoLoad::finish`].
pub fn load_repo(global_excludes: Option<&str>, info_exclude: Option<&str>) -> (load: RepoLoad)
    ensures
        load@ == RepoLoadView::start(opt_text(global_excludes), opt_text(info_exclude)),
        load@.sources == (match (global_excludes, info_exclude) {
            (Some(global), Some(info)) => seq![
                source_of(Seq::empty(), global@),
                source_of(Seq::empty(), info@),
            ],
            (Some(global), None) => seq![source_of(Seq::empty(), global@)],
            (None, Some(info)) => seq![source_of(Seq::empty(), info@)],
            (None, None) => Seq::empty(),
        }),
        load@.pending == seq![Seq::<Seq<char>>::empty()],
        load@.at is None,
{
    broadcast use group_views;

    let mut set = IgnoreSet::new();
    proof {
        reveal_strlit("");
        assert(""@ =~= Seq::empty());
    }
    add_layer(&mut set, "", global_excludes);
    add_layer(&mut set, "", info_exclude);
    let mut stack: Vec<Vec<Vec<char>>> = Vec::new();
    stack.push(Vec::new());
    let load = RepoLoad { set, stack, at: None };
    proof {
        assert(path_views(load.stack@).reverse() =~= seq![Seq::<Seq<char>>::empty()]);
        global_layers_come_first(opt_text(global_excludes), opt_text(info_exclude));
    }
    load
}

impl RepoLoad {
    /// Turns to the next directory to look at: its path relative to the
    /// root, or `None` when all have been looked at.
    pub fn next_dir(&mut self) -> (path: Option<String>)
        ensures
            final(self)@ == old(self)@.turned(),
            path matches Some(text) ==> final(self)@.at matches Some(at) && text@ == dir_text(at),
            path is None ==> final(self)@.at is None,
    {
        broadcast use group_views;

        let ghost start = self@.pending;
        let ghost rules = self@.sources;
        loop
            invariant
                rules == self.set@,
                unignored(rules, start) == unignored(rules, path_views(self.stack@).reverse()),
                old(self)@.sources == rules,
                old(self)@.pending == start,
            decreases self.stack@.len(),
        {
            broadcast use group_views;

            let ghost before = path_views(self.stack@);
            match self.stack.pop() {
                None => {
                    self.at = None;
                    proof {
                        assert(before.reverse() =~= Seq::empty());
                        assert(path_views(self.stack@).reverse() =~= Seq::empty());
                    }
                    return None;
                },
                Some(path) => {
                    proof {
                        assert(before.reverse()[0] == views(path@));
                        assert(before.reverse().skip(1) =~= path_views(self.stack@).reverse());
                    }
                    let text = dir_string(&path);
                    if !self.set.is_ignored(text.as_str(), true) {
                        self.at = Some(path);
                        return Some(text);
                    }
                },
            }
        }
    }

    /// Takes what the directory holds: the contents of its `.gitignore`, if
    /// it has one, and the names of its subdirectories (symbolic links are
    /// none), in any order.
    pub fn visit(&mut self, gitignore: Option<&str>, subdirs: &Vec<String>)
        requires
            old(self)@.at is Some,
        ensures
            final(self)@ == old(self)@.visited(opt_text(gitignore), views(subdirs@)),
    {
        broadcast use group_views;

        let path = match self.at.take() {
            Some(path) => path,
            None => {
                return ;
            },
        };
        let ghost dir = views(path@);
        let base = dir_string(&path);
        add_layer(&mut self.set, base.as_str(), gitignore);
        let kept = entered_names(path.len() == 0, Ghost(dir), subdirs);
        let names = sort_names(&kept);
        let ghost next = children(dir, views(names@));
        let ghost before = path_views(self.stack@).reverse();
        let mut i: usize = names.len();
        proof {
            assert(next.skip(next.len() as int) + before =~= before);
        }
        while i > 0
            invariant
                i <= names@.len(),
                dir == views(path@),
                next == children(dir, views(names@)),
                path_views(self.stack@).reverse() == next.skip(i as int) + before,
                self.set@ == layered(old(self)@.sources, dir_text(dir), opt_text(gitignore)),
                self.at is None,
            decreases i,
        {
            broadcast use group_views;

            let child = child_path(&path, &names[i - 1]);
            let ghost stack = path_views(self.stack@);
            let ghost added = views(child@);
            self.stack.push(child);
            proof {
                assert(path_views(self.stack@) =~= stack.push(added));
                assert(stack.push(added).reverse() =~= seq![added] + stack.reverse());
                assert(seq![added] + (next.skip(i as int) + before) =~= next.skip(i - 1) + before);
            }
            i = i - 1;
        }
        proof {
            assert(next.skip(0) =~= next);
        }
    }

    /// The rule set, with the contents of the root [`DSYNC_EXCLUDE_FILE`],
    /// if there is one, on top.
    pub fn finish(self, dsyncexclude: Option<&str>) -> (set: IgnoreSet)
        ensures
            set@ == self@.finished(opt_text(dsyncexclude)),
    {
        let mut set = self.set;
        proof {
            reveal_strlit("");
            assert(""@ =~= Seq::empty());
        }
        add_layer(&mut set, "", dsyncexclude);
        set
    }
}

} // verus!
