//! What holds of every loading of a repository.

use crate::eval::{
    decision, ignored, inside, patterns_of, source_decides, source_of, sources_decide, SourceView,
};
use crate::eval_laws::{later_sources_take_precedence, sources_apply_inside_their_directory};
use crate::load::{children, dir_ignored, dir_text, entered, layered, unignored, RepoLoadView};
use crate::names::{sorted, sorting_orders_the_names, text_le};
use crate::text::{join, lemma_split_nonempty, lines, nonempty_pieces, split};
use crate::watchman_laws::{added_sources_have_segments, sources_nonempty};
use vstd::prelude::*;

verus! {

// ---------------------------------------------------------------------------
// Paths as text
// ---------------------------------------------------------------------------
/// Whether every name on a path is one that a directory entry can have.
pub open spec fn plain_path(path: Seq<Seq<char>>) -> bool {
    forall|k: int| 0 <= k < path.len() ==> (#[trigger] path[k]).len() > 0 && !path[k].contains('/')
}

proof fn lemma_split_add(s: Seq<char>, t: Seq<char>, sep: char)
    requires
        !t.contains(sep),
    ensures
        split(s + t, sep) == split(s, sep).drop_last().push(split(s, sep).last() + t),
    decreases t.len(),
{
    lemma_split_nonempty(s, sep);
    if t.len() == 0 {
        assert(s + t =~= s);
        assert(split(s, sep).last() + t =~= split(s, sep).last());
        assert(split(s, sep).drop_last().push(split(s, sep).last()) =~= split(s, sep));
    } else {
        let init = t.drop_last();
        assert forall|k: int| 0 <= k < init.len() implies init[k] != sep by {
            assert(init[k] == t[k]);
        }
        lemma_split_add(s, init, sep);
        assert((s + t).drop_last() =~= s + init);
        assert(t[t.len() - 1] != sep);
        let before = split(s, sep).drop_last().push(split(s, sep).last() + init);
        assert(before.drop_last() =~= split(s, sep).drop_last());
        assert((split(s, sep).last() + init).push(t.last()) =~= split(s, sep).last() + t);
    }
}

/// Splitting undoes joining.
pub proof fn splitting_undoes_joining(parts: Seq<Seq<char>>, sep: char)
    requires
        parts.len() > 0,
        forall|k: int| 0 <= k < parts.len() ==> !(#[trigger] parts[k]).contains(sep),
    ensures
        split(join(parts, seq![sep]), sep) == parts,
    decreases parts.len(),
{
    let last = parts.last();
    assert(!parts[parts.len() - 1].contains(sep));
    if parts.len() == 1 {
        lemma_split_add(Seq::empty(), last, sep);
        assert(Seq::<char>::empty() + last =~= last);
        assert(split(Seq::empty(), sep) =~= seq![Seq::empty()]);
        assert(split(last, sep) =~= parts);
    } else {
        let init = parts.drop_last();
        assert forall|k: int| 0 <= k < init.len() implies !(#[trigger] init[k]).contains(sep) by {
            assert(init[k] == parts[k]);
        }
        splitting_undoes_joining(init, sep);
        let head = join(init, seq![sep]);
        let slashed = head.push(sep);
        assert(head + seq![sep] =~= slashed);
        assert(slashed.drop_last() =~= head);
        assert(split(slashed, sep) == init.push(Seq::empty()));
        lemma_split_add(slashed, last, sep);
        assert(Seq::<char>::empty() + last =~= last);
        assert(init.push(Seq::<char>::empty()).drop_last() =~= init);
        assert(init.push(last) =~= parts);
    }
}

/// A directory's path as text stands for the names on the way to it, so that
/// the rules are asked about that directory.
pub proof fn directory_paths_read_back(path: Seq<Seq<char>>, sources: Seq<SourceView>)
    requires
        plain_path(path),
    ensures
        nonempty_pieces(dir_text(path), '/') == path,
        dir_ignored(sources, path) == ignored(sources, path, true),
{
    let keep = |p: Seq<char>| p.len() > 0;
    if path.len() == 0 {
        assert(split(dir_text(path), '/') =~= seq![Seq::empty()]);
        reveal_with_fuel(Seq::filter, 2);
        assert(nonempty_pieces(dir_text(path), '/') =~= path);
    } else {
        assert forall|k: int| 0 <= k < path.len() implies !(#[trigger] path[k]).contains('/') by {}
        splitting_undoes_joining(path, '/');
        lemma_filter_all(path);
    }
}

proof fn lemma_filter_all(parts: Seq<Seq<char>>)
    requires
        forall|k: int| 0 <= k < parts.len() ==> (#[trigger] parts[k]).len() > 0,
    ensures
        parts.filter(|p: Seq<char>| p.len() > 0) == parts,
    decreases parts.len(),
{
    reveal(Seq::filter);
    if parts.len() > 0 {
        let init = parts.drop_last();
        assert forall|k: int| 0 <= k < init.len() implies (#[trigger] init[k]).len() > 0 by {
            assert(init[k] == parts[k]);
        }
        lemma_filter_all(init);
        assert(parts[parts.len() - 1].len() > 0);
        assert(init.push(parts.last()) =~= parts);
    }
}

// ---------------------------------------------------------------------------
// The walk
// ---------------------------------------------------------------------------
/// A directory and everything under it, as far as the walk looks at it.
pub struct DirTree {
    /// The contents of the directory's `.gitignore`.
    pub gitignore: Option<Seq<char>>,
    /// The subdirectories, each with its name.
    pub subdirs: Seq<(Seq<char>, DirTree)>,
}

/// The names of a directory's subdirectories.
pub open spec fn subdir_names(dir: DirTree) -> Seq<Seq<char>> {
    dir.subdirs.map_values(|sub: (Seq<char>, DirTree)| sub.0)
}

/// The rules with those of the directory at `path` and everything under it:
/// its own `.gitignore` first, then its subdirectories in order, each unless
/// the rules so far ignore it.
pub open spec fn walk(
    sources: Seq<SourceView>,
    path: Seq<Seq<char>>,
    dir: DirTree,
) -> Seq<SourceView>
    decreases dir,
{
    walk_subdirs(layered(sources, dir_text(path), dir.gitignore), path, dir.subdirs)
}

/// The rules with those of the given subdirectories of `path`.
pub open spec fn walk_subdirs(
    sources: Seq<SourceView>,
    path: Seq<Seq<char>>,
    subs: Seq<(Seq<char>, DirTree)>,
) -> Seq<SourceView>
    decreases subs,
{
    if subs.len() == 0 {
        sources
    } else {
        let child = path.push(subs[0].0);
        let with_first = if dir_ignored(sources, child) {
            sources
        } else {
            walk(sources, child, subs[0].1)
        };
        walk_subdirs(with_first, path, subs.skip(1))
    }
}

/// The number of directories in a tree.
pub open spec fn tree_size(dir: DirTree) -> nat
    decreases dir,
{
    1 + subs_size(dir.subdirs)
}

/// The number of directories in trees.
pub open spec fn subs_size(subs: Seq<(Seq<char>, DirTree)>) -> nat
    decreases subs,
{
    if subs.len() == 0 {
        0
    } else {
        tree_size(subs[0].1) + subs_size(subs.skip(1))
    }
}

/// The number of directories still to look at.
pub open spec fn todo_size(todo: Seq<(Seq<Seq<char>>, DirTree)>) -> nat
    decreases todo.len(),
{
    if todo.len() == 0 {
        0
    } else {
        tree_size(todo[0].1) + todo_size(todo.skip(1))
    }
}

/// The subdirectories of the directory at `path`, each with its path.
pub open spec fn located(
    path: Seq<Seq<char>>,
    subs: Seq<(Seq<char>, DirTree)>,
) -> Seq<(Seq<Seq<char>>, DirTree)> {
    subs.map_values(|sub: (Seq<char>, DirTree)| (path.push(sub.0), sub.1))
}

pub proof fn lemma_todo_size(
    path: Seq<Seq<char>>,
    subs: Seq<(Seq<char>, DirTree)>,
    rest: Seq<(Seq<Seq<char>>, DirTree)>,
)
    ensures
        todo_size(located(path, subs) + rest) == subs_size(subs) + todo_size(rest),
    decreases subs.len(),
{
    let all = located(path, subs) + rest;
    if subs.len() == 0 {
        assert(all =~= rest);
    } else {
        assert(all.skip(1) =~= located(path, subs.skip(1)) + rest);
        lemma_todo_size(path, subs.skip(1), rest);
    }
}

/// The rules once every directory of `todo`, and everything under it, has
/// been looked at one by one.
pub open spec fn run(
    sources: Seq<SourceView>,
    todo: Seq<(Seq<Seq<char>>, DirTree)>,
) -> Seq<SourceView>
    decreases todo_size(todo),
{
    if todo.len() == 0 {
        sources
    } else if dir_ignored(sources, todo[0].0) {
        run(sources, todo.skip(1))
    } else {
        let (path, dir) = todo[0];
        proof {
            lemma_todo_size(path, dir.subdirs, todo.skip(1));
        }
        run(
            layered(sources, dir_text(path), dir.gitignore),
            located(path, dir.subdirs) + todo.skip(1),
        )
    }
}

proof fn lemma_run_one(
    sources: Seq<SourceView>,
    path: Seq<Seq<char>>,
    dir: DirTree,
    rest: Seq<(Seq<Seq<char>>, DirTree)>,
)
    ensures
        run(sources, seq![(path, dir)] + rest) == run(
            if dir_ignored(sources, path) {
                sources
            } else {
                walk(sources, path, dir)
            },
            rest,
        ),
    decreases dir, 1int,
{
    let todo = seq![(path, dir)] + rest;
    assert(todo.skip(1) =~= rest);
    if !dir_ignored(sources, path) {
        lemma_run_subdirs(
            layered(sources, dir_text(path), dir.gitignore),
            path,
            dir.subdirs,
            rest,
        );
    }
}

proof fn lemma_run_subdirs(
    sources: Seq<SourceView>,
    path: Seq<Seq<char>>,
    subs: Seq<(Seq<char>, DirTree)>,
    rest: Seq<(Seq<Seq<char>>, DirTree)>,
)
    ensures
        run(sources, located(path, subs) + rest) == run(walk_subdirs(sources, path, subs), rest),
    decreases subs, 0int,
{
    let todo = located(path, subs) + rest;
    if subs.len() == 0 {
        assert(todo =~= rest);
    } else {
        let child = path.push(subs[0].0);
        let others = located(path, subs.skip(1)) + rest;
        assert(todo =~= seq![(child, subs[0].1)] + others);
        lemma_run_one(sources, child, subs[0].1, others);
        let with_first = if dir_ignored(sources, child) {
            sources
        } else {
            walk(sources, child, subs[0].1)
        };
        lemma_run_subdirs(with_first, path, subs.skip(1), rest);
    }
}

/// Looking at the directories one by one, as they come up, gives the rules
/// of the recursive walk from the root.
pub proof fn one_by_one_is_the_recursive_walk(sources: Seq<SourceView>, root: DirTree)
    ensures
        run(sources, seq![(Seq::empty(), root)]) == walk(sources, Seq::empty(), root),
{
    let none = Seq::<(Seq<Seq<char>>, DirTree)>::empty();
    let top = seq![(Seq::<Seq<char>>::empty(), root)];
    assert(top + none =~= top);
    directory_paths_read_back(Seq::empty(), sources);
    lemma_run_one(sources, Seq::empty(), root, none);
}

/// Whether a directory's subdirectories are listed in order, and without
/// those that are never entered.
pub open spec fn listed(path: Seq<Seq<char>>, dir: DirTree) -> bool {
    sorted(entered(path, subdir_names(dir))) == subdir_names(dir)
}

/// The state in which the given directories are still to be looked at.
pub open spec fn load_state(
    sources: Seq<SourceView>,
    todo: Seq<(Seq<Seq<char>>, DirTree)>,
) -> RepoLoadView {
    RepoLoadView {
        sources,
        pending: todo.map_values(|dir: (Seq<Seq<char>>, DirTree)| dir.0),
        at: None,
    }
}

/// Each step of the loading is a step of [`run`]: an ignored directory is
/// passed over, and any other is looked at and followed by its
/// subdirectories.
pub proof fn each_step_is_a_step_of_the_walk(
    sources: Seq<SourceView>,
    todo: Seq<(Seq<Seq<char>>, DirTree)>,
)
    requires
        todo.len() > 0,
        listed(todo[0].0, todo[0].1),
    ensures
        dir_ignored(sources, todo[0].0) ==> load_state(sources, todo).turned() == load_state(
            sources,
            todo.skip(1),
        ).turned(),
        !dir_ignored(sources, todo[0].0) ==> load_state(sources, todo).turned().at == Some(
            todo[0].0,
        ) && load_state(sources, todo).turned().visited(
            todo[0].1.gitignore,
            subdir_names(todo[0].1),
        ) == load_state(
            layered(sources, dir_text(todo[0].0), todo[0].1.gitignore),
            located(todo[0].0, todo[0].1.subdirs) + todo.skip(1),
        ),
{
    let (path, dir) = todo[0];
    let state = load_state(sources, todo);
    let rest = load_state(sources, todo.skip(1));
    assert(state.pending.skip(1) =~= rest.pending);
    assert(state.pending[0] == path);
    if !dir_ignored(sources, path) {
        let next = load_state(
            layered(sources, dir_text(path), dir.gitignore),
            located(path, dir.subdirs) + todo.skip(1),
        );
        assert(next.pending =~= children(path, subdir_names(dir)) + rest.pending);
    }
}

/// Which files are read depends on git's own rules alone: the
/// `.dsyncexclude` layer comes last and takes precedence over all of them.
pub proof fn dsyncexclude_is_the_top_layer(state: RepoLoadView, contents: Seq<char>)
    ensures
        state.finished(Some(contents)) == state.sources.push(source_of(Seq::empty(), contents)),
        state.finished(None) == state.sources,
{
}

// ---------------------------------------------------------------------------
// What the walk gathers
// ---------------------------------------------------------------------------
/// Whether every subdirectory has a name that a directory entry can have, and
/// no two of them the same.
pub open spec fn plain_subs(subs: Seq<(Seq<char>, DirTree)>) -> bool
    decreases subs,
{
    subs.len() > 0 ==> {
        &&& subs[0].0.len() > 0
        &&& !subs[0].0.contains('/')
        &&& forall|k: int| 0 < k < subs.len() ==> (#[trigger] subs[k]).0 != subs[0].0
        &&& plain_tree(subs[0].1)
        &&& plain_subs(subs.skip(1))
    }
}

/// Whether that holds of a directory and everything under it.
pub open spec fn plain_tree(dir: DirTree) -> bool
    decreases dir,
{
    plain_subs(dir.subdirs)
}

/// Whether `a` is a directory on the way to `b`.
pub open spec fn leads_to(a: Seq<Seq<char>>, b: Seq<Seq<char>>) -> bool {
    a.len() < b.len() && b.take(a.len() as int) == a
}

/// Whether `path` is the directory `dir` or lies under it.
pub open spec fn at_or_under(path: Seq<Seq<char>>, dir: Seq<Seq<char>>) -> bool {
    dir.len() <= path.len() && path.take(dir.len() as int) == dir
}

/// Whether no file comes after one of a directory that its own leads to.
pub open spec fn shallow_first(sources: Seq<SourceView>) -> bool {
    forall|i: int, j: int|
        0 <= i < j < sources.len() ==> !leads_to(
            (#[trigger] sources[j]).base,
            (#[trigger] sources[i]).base,
        )
}

/// Whether all sources are of the directory `path` or of ones under it.
pub open spec fn all_under(sources: Seq<SourceView>, path: Seq<Seq<char>>) -> bool {
    forall|k: int| 0 <= k < sources.len() ==> at_or_under((#[trigger] sources[k]).base, path)
}

/// Whether all sources are of the given subdirectories of `path` or of ones
/// under them.
pub open spec fn all_in_subs(
    sources: Seq<SourceView>,
    path: Seq<Seq<char>>,
    subs: Seq<(Seq<char>, DirTree)>,
) -> bool {
    forall|k: int|
        0 <= k < sources.len() ==> exists|m: int|
            0 <= m < subs.len() && at_or_under(
                (#[trigger] sources[k]).base,
                path.push((#[trigger] subs[m]).0),
            )
}

proof fn lemma_walk(sources: Seq<SourceView>, path: Seq<Seq<char>>, dir: DirTree) -> (added: Seq<
    SourceView,
>)
    requires
        plain_path(path),
        plain_tree(dir),
    ensures
        walk(sources, path, dir) == sources + added,
        all_under(added, path),
        shallow_first(added),
    decreases dir, 1int,
{
    let with_own = layered(sources, dir_text(path), dir.gitignore);
    directory_paths_read_back(path, sources);
    let own: Seq<SourceView> = match dir.gitignore {
        Some(text) => seq![source_of(dir_text(path), text)],
        None => Seq::empty(),
    };
    assert(with_own =~= sources + own);
    let below = lemma_walk_subdirs(with_own, path, dir.subdirs);
    let added = own + below;
    assert(sources + own + below =~= sources + added);
    assert forall|k: int| 0 <= k < below.len() implies at_or_under(
        (#[trigger] below[k]).base,
        path,
    ) && below[k].base.len() > path.len() by {
        let m = choose|m: int|
            0 <= m < dir.subdirs.len() && at_or_under(
                below[k].base,
                path.push((#[trigger] dir.subdirs[m]).0),
            );
        let child = path.push(dir.subdirs[m].0);
        assert(below[k].base.take(child.len() as int).take(path.len() as int)
            =~= below[k].base.take(path.len() as int));
        assert(child.take(path.len() as int) =~= path);
    }
    assert forall|k: int| 0 <= k < added.len() implies at_or_under(
        (#[trigger] added[k]).base,
        path,
    ) by {
        if k < own.len() {
            assert(added[k] == own[k]);
            assert(own[k].base == path);
            assert(path.take(path.len() as int) =~= path);
        } else {
            assert(added[k] == below[k - own.len()]);
        }
    }
    assert forall|i: int, j: int| 0 <= i < j < added.len() implies !leads_to(
        (#[trigger] added[j]).base,
        (#[trigger] added[i]).base,
    ) by {
        assert(own.len() <= 1);
        assert(added[j] == below[j - own.len()]);
        if i < own.len() {
            assert(added[i].base == path);
        } else {
            assert(added[i] == below[i - own.len()]);
        }
    }
    added
}

proof fn lemma_walk_subdirs(
    sources: Seq<SourceView>,
    path: Seq<Seq<char>>,
    subs: Seq<(Seq<char>, DirTree)>,
) -> (added: Seq<SourceView>)
    requires
        plain_path(path),
        plain_subs(subs),
    ensures
        walk_subdirs(sources, path, subs) == sources + added,
        all_in_subs(added, path, subs),
        shallow_first(added),
    decreases subs, 0int,
{
    if subs.len() == 0 {
        assert(sources + Seq::<SourceView>::empty() =~= sources);
        Seq::empty()
    } else {
        let child = path.push(subs[0].0);
        let rest = subs.skip(1);
        assert(plain_path(child)) by {
            assert forall|k: int| 0 <= k < child.len() implies (#[trigger] child[k]).len() > 0
                && !child[k].contains('/') by {
                if k < path.len() {
                    assert(child[k] == path[k]);
                }
            }
        }
        let first: Seq<SourceView> = if dir_ignored(sources, child) {
            Seq::empty()
        } else {
            lemma_walk(sources, child, subs[0].1)
        };
        let with_first = sources + first;
        assert(sources + Seq::<SourceView>::empty() =~= sources);
        let later = lemma_walk_subdirs(with_first, path, rest);
        let added = first + later;
        assert(with_first + later =~= sources + added);
        lemma_siblings(path, subs, first, later);
        added
    }
}

proof fn lemma_siblings(
    path: Seq<Seq<char>>,
    subs: Seq<(Seq<char>, DirTree)>,
    first: Seq<SourceView>,
    later: Seq<SourceView>,
)
    requires
        subs.len() > 0,
        plain_subs(subs),
        all_under(first, path.push(subs[0].0)),
        shallow_first(first),
        all_in_subs(later, path, subs.skip(1)),
        shallow_first(later),
    ensures
        all_in_subs(first + later, path, subs),
        shallow_first(first + later),
{
    let added = first + later;
    let rest = subs.skip(1);
    let n = path.len() as int;
    assert forall|k: int| 0 <= k < first.len() implies (#[trigger] first[k]).base.len() > n
        && first[k].base[n] == subs[0].0 by {
        assert(at_or_under(first[k].base, path.push(subs[0].0)));
        assert(first[k].base.take(n + 1)[n] == path.push(subs[0].0)[n]);
    }
    assert forall|k: int| 0 <= k < later.len() implies (#[trigger] later[k]).base.len() > n
        && later[k].base[n] != subs[0].0 by {
        let m = choose|m: int|
            0 <= m < rest.len() && at_or_under(later[k].base, path.push((#[trigger] rest[m]).0));
        assert(rest[m] == subs[m + 1]);
        assert(later[k].base.take(n + 1)[n] == path.push(rest[m].0)[n]);
    }
    assert forall|k: int| 0 <= k < added.len() implies exists|m: int|
        0 <= m < subs.len() && at_or_under(
            (#[trigger] added[k]).base,
            path.push((#[trigger] subs[m]).0),
        ) by {
        if k < first.len() {
            assert(added[k] == first[k]);
            assert(at_or_under(added[k].base, path.push(subs[0].0)));
        } else {
            assert(added[k] == later[k - first.len()]);
            let m = choose|m: int|
                0 <= m < rest.len() && at_or_under(
                    later[k - first.len()].base,
                    path.push((#[trigger] rest[m]).0),
                );
            assert(rest[m] == subs[m + 1]);
            assert(at_or_under(added[k].base, path.push(subs[m + 1].0)));
        }
    }
    assert forall|i: int, j: int| 0 <= i < j < added.len() implies !leads_to(
        (#[trigger] added[j]).base,
        (#[trigger] added[i]).base,
    ) by {
        if j < first.len() {
            assert(added[i] == first[i] && added[j] == first[j]);
        } else if i >= first.len() {
            assert(added[i] == later[i - first.len()] && added[j] == later[j - first.len()]);
        } else {
            let a = first[i].base;
            let b = later[j - first.len()].base;
            assert(added[i] == first[i] && added[j] == later[j - first.len()]);
            if leads_to(b, a) {
                assert(a.take(b.len() as int)[n] == b[n]);
            }
        }
    }
}

/// The walk keeps the layers below and adds its own on top, shallow before
/// deep: no file comes after one that lies deeper on the same way, so that
/// deeper files take precedence.
pub proof fn deeper_files_come_later(sources: Seq<SourceView>, root: DirTree)
    requires
        plain_tree(root),
    ensures
        walk(sources, Seq::empty(), root).len() >= sources.len(),
        walk(sources, Seq::empty(), root).take(sources.len() as int) == sources,
        shallow_first(walk(sources, Seq::empty(), root).skip(sources.len() as int)),
{
    let added = lemma_walk(sources, Seq::empty(), root);
    let all = walk(sources, Seq::empty(), root);
    assert(all.take(sources.len() as int) =~= sources);
    assert(all.skip(sources.len() as int) =~= added);
}

proof fn lemma_walk_segments(sources: Seq<SourceView>, path: Seq<Seq<char>>, dir: DirTree)
    requires
        sources_nonempty(sources),
    ensures
        sources_nonempty(walk(sources, path, dir)),
    decreases dir, 1int,
{
    if let Some(text) = dir.gitignore {
        added_sources_have_segments(sources, dir_text(path), text);
    }
    lemma_walk_subdirs_segments(
        layered(sources, dir_text(path), dir.gitignore),
        path,
        dir.subdirs,
    );
}

proof fn lemma_walk_subdirs_segments(
    sources: Seq<SourceView>,
    path: Seq<Seq<char>>,
    subs: Seq<(Seq<char>, DirTree)>,
)
    requires
        sources_nonempty(sources),
    ensures
        sources_nonempty(walk_subdirs(sources, path, subs)),
    decreases subs, 0int,
{
    if subs.len() > 0 {
        let child = path.push(subs[0].0);
        if dir_ignored(sources, child) {
            lemma_walk_subdirs_segments(sources, path, subs.skip(1));
        } else {
            lemma_walk_segments(sources, child, subs[0].1);
            lemma_walk_subdirs_segments(
                walk(sources, child, subs[0].1),
                path,
                subs.skip(1),
            );
        }
    }
}

/// The rules of a repository: the global excludes, `.git/info/exclude`, what
/// the walk gathers, and the `.dsyncexclude` layer.
pub open spec fn loaded_rules(
    global_excludes: Option<Seq<char>>,
    info_exclude: Option<Seq<char>>,
    root: DirTree,
    dsyncexclude: Option<Seq<char>>,
) -> Seq<SourceView> {
    layered(
        walk(RepoLoadView::start(global_excludes, info_exclude).sources, Seq::empty(), root),
        Seq::empty(),
        dsyncexclude,
    )
}

/// Every pattern of a repository's rules has a segment, so that what holds of
/// the watchman translation of such rules holds of all that are loaded.
pub proof fn loaded_rules_have_segments(
    global_excludes: Option<Seq<char>>,
    info_exclude: Option<Seq<char>>,
    root: DirTree,
    dsyncexclude: Option<Seq<char>>,
)
    ensures
        sources_nonempty(loaded_rules(global_excludes, info_exclude, root, dsyncexclude)),
{
    let none = Seq::<SourceView>::empty();
    let global = layered(none, Seq::empty(), global_excludes);
    added_sources_have_segments(
        none,
        Seq::empty(),
        match global_excludes {
            Some(text) => text,
            None => Seq::empty(),
        },
    );
    added_sources_have_segments(
        global,
        Seq::empty(),
        match info_exclude {
            Some(text) => text,
            None => Seq::empty(),
        },
    );
    let start = RepoLoadView::start(global_excludes, info_exclude).sources;
    lemma_walk_segments(start, Seq::empty(), root);
    added_sources_have_segments(
        walk(start, Seq::empty(), root),
        Seq::empty(),
        match dsyncexclude {
            Some(text) => text,
            None => Seq::empty(),
        },
    );
}

// ---------------------------------------------------------------------------
// Ignored directories
// ---------------------------------------------------------------------------
/// The tree of `dir` with `other` in place of the directory that `way` leads
/// to.
pub open spec fn with_subtree(dir: DirTree, way: Seq<Seq<char>>, other: DirTree) -> DirTree
    decreases way.len(), 1int, 0nat,
{
    if way.len() == 0 {
        other
    } else {
        DirTree {
            gitignore: dir.gitignore,
            subdirs: subs_with_subtree(dir.subdirs, way, other),
        }
    }
}

/// The subdirectories with `other` in place of the directory that `way` leads
/// to.
pub open spec fn subs_with_subtree(
    subs: Seq<(Seq<char>, DirTree)>,
    way: Seq<Seq<char>>,
    other: DirTree,
) -> Seq<(Seq<char>, DirTree)>
    decreases way.len(), 0int, subs.len(),
{
    if subs.len() == 0 || way.len() == 0 {
        subs
    } else {
        let (name, sub) = subs[0];
        let first = if name == way[0] {
            with_subtree(sub, way.skip(1), other)
        } else {
            sub
        };
        seq![(name, first)] + subs_with_subtree(subs.skip(1), way, other)
    }
}

/// The rules with those of the directory at `path` and of each on `way` from
/// there, but for the one that `way` leads to.
pub open spec fn rules_on_the_way(
    sources: Seq<SourceView>,
    path: Seq<Seq<char>>,
    dir: DirTree,
    way: Seq<Seq<char>>,
) -> Seq<SourceView>
    decreases way.len(), 1int, 0nat,
{
    if way.len() == 0 {
        sources
    } else {
        subs_rules_on_the_way(
            layered(sources, dir_text(path), dir.gitignore),
            path,
            dir.subdirs,
            way,
        )
    }
}

/// The rules with those of each directory on `way`, which starts at one of
/// the given subdirectories of `path`, but for the one that `way` leads to.
pub open spec fn subs_rules_on_the_way(
    sources: Seq<SourceView>,
    path: Seq<Seq<char>>,
    subs: Seq<(Seq<char>, DirTree)>,
    way: Seq<Seq<char>>,
) -> Seq<SourceView>
    decreases way.len(), 0int, subs.len(),
{
    if subs.len() == 0 || way.len() == 0 {
        sources
    } else if subs[0].0 == way[0] {
        rules_on_the_way(sources, path.push(way[0]), subs[0].1, way.skip(1))
    } else {
        subs_rules_on_the_way(sources, path, subs.skip(1), way)
    }
}

/// Whether two rule sets decide alike on every directory on the way to
/// `dir` that lies deeper than `n`.
spec fn agree_below(
    a: Seq<SourceView>,
    b: Seq<SourceView>,
    dir: Seq<Seq<char>>,
    n: int,
) -> bool {
    forall|j: int|
        n < j <= dir.len() ==> decision(a, #[trigger] dir.take(j), true) == decision(
            b,
            dir.take(j),
            true,
        )
}

/// Whether the rules decide against none of the first `n` directories on the
/// way to `dir`.
spec fn clear_to(sources: Seq<SourceView>, dir: Seq<Seq<char>>, n: int) -> bool {
    forall|j: int| 0 < j <= n ==> !(decision(sources, #[trigger] dir.take(j), true) is Ignored)
}

proof fn lemma_outside(sources: Seq<SourceView>, added: Seq<SourceView>, path: Seq<Seq<char>>)
    requires
        forall|k: int| 0 <= k < added.len() ==> !inside((#[trigger] added[k]).base, path),
    ensures
        decision(sources + added, path, true) == decision(sources, path, true),
    decreases added.len(),
{
    if added.len() == 0 {
        assert(sources + added =~= sources);
    } else {
        let init = added.drop_last();
        assert forall|k: int| 0 <= k < init.len() implies !inside(
            (#[trigger] init[k]).base,
            path,
        ) by {
            assert(init[k] == added[k]);
        }
        lemma_outside(sources, init, path);
        assert(!inside(added[added.len() - 1].base, path));
        assert(sources + added =~= (sources + init).push(added.last()));
        sources_apply_inside_their_directory(sources + init, added.last(), path, true);
    }
}

proof fn lemma_nothing_replaced(
    subs: Seq<(Seq<char>, DirTree)>,
    way: Seq<Seq<char>>,
    other: DirTree,
)
    requires
        way.len() > 0,
        forall|k: int| 0 <= k < subs.len() ==> (#[trigger] subs[k]).0 != way[0],
    ensures
        subs_with_subtree(subs, way, other) == subs,
    decreases subs.len(),
{
    if subs.len() > 0 {
        let rest = subs.skip(1);
        assert forall|k: int| 0 <= k < rest.len() implies (#[trigger] rest[k]).0 != way[0] by {
            assert(rest[k] == subs[k + 1]);
        }
        lemma_nothing_replaced(rest, way, other);
        assert(subs[0].0 != way[0]);
        assert(seq![subs[0]] + rest =~= subs);
    }
}

proof fn lemma_own_layer(
    now: Seq<SourceView>,
    sources: Seq<SourceView>,
    dir: Seq<Seq<char>>,
    n: int,
    contents: Option<Seq<char>>,
)
    requires
        0 <= n < dir.len(),
        plain_path(dir.take(n)),
        agree_below(now, sources, dir, n),
        clear_to(sources, dir, n),
    ensures
        agree_below(
            layered(now, dir_text(dir.take(n)), contents),
            layered(sources, dir_text(dir.take(n)), contents),
            dir,
            n,
        ),
        clear_to(layered(sources, dir_text(dir.take(n)), contents), dir, n),
{
    if let Some(text) = contents {
        let path = dir.take(n);
        let own = source_of(dir_text(path), text);
        directory_paths_read_back(path, sources);
        assert forall|j: int| n < j <= dir.len() implies decision(
            now.push(own),
            #[trigger] dir.take(j),
            true,
        ) == decision(sources.push(own), dir.take(j), true) by {
            let q = dir.take(j);
            assert(decision(now, q, true) == decision(sources, q, true));
            later_sources_take_precedence(now, own, q, true);
            later_sources_take_precedence(sources, own, q, true);
        }
        assert forall|j: int| 0 < j <= n implies !(decision(
            sources.push(own),
            #[trigger] dir.take(j),
            true,
        ) is Ignored) by {
            assert(!(decision(sources, dir.take(j), true) is Ignored));
            sources_apply_inside_their_directory(sources, own, dir.take(j), true);
        }
    }
}

proof fn lemma_ignored_walk(
    now: Seq<SourceView>,
    sources: Seq<SourceView>,
    dir: Seq<Seq<char>>,
    n: int,
    tree: DirTree,
    other: DirTree,
)
    requires
        0 <= n <= dir.len(),
        plain_path(dir.take(n)),
        plain_tree(tree),
        agree_below(now, sources, dir, n),
        clear_to(sources, dir, n),
        ignored(rules_on_the_way(sources, dir.take(n), tree, dir.skip(n)), dir, true),
    ensures
        walk(now, dir.take(n), with_subtree(tree, dir.skip(n), other)) == walk(
            now,
            dir.take(n),
            tree,
        ),
    decreases tree, 1int,
{
    let path = dir.take(n);
    let way = dir.skip(n);
    if n == dir.len() {
        assert(dir.take(n) =~= dir);
        assert(!(decision(sources, dir.take(n), true) is Ignored));
        let i = choose|i: int|
            0 < i < dir.len() && decision(sources, #[trigger] dir.take(i), true) is Ignored;
        assert(!(decision(sources, dir.take(i), true) is Ignored));
    } else {
        lemma_own_layer(now, sources, dir, n, tree.gitignore);
        lemma_ignored_subdirs(
            layered(now, dir_text(path), tree.gitignore),
            layered(sources, dir_text(path), tree.gitignore),
            dir,
            n,
            tree.subdirs,
            other,
        );
    }
}

proof fn lemma_ignored_subdirs(
    now: Seq<SourceView>,
    sources: Seq<SourceView>,
    dir: Seq<Seq<char>>,
    n: int,
    subs: Seq<(Seq<char>, DirTree)>,
    other: DirTree,
)
    requires
        0 <= n < dir.len(),
        plain_path(dir.take(n)),
        plain_subs(subs),
        agree_below(now, sources, dir, n),
        clear_to(sources, dir, n),
        ignored(subs_rules_on_the_way(sources, dir.take(n), subs, dir.skip(n)), dir, true),
    ensures
        walk_subdirs(now, dir.take(n), subs_with_subtree(subs, dir.skip(n), other))
            == walk_subdirs(now, dir.take(n), subs),
    decreases subs, 0int,
{
    let path = dir.take(n);
    let way = dir.skip(n);
    if subs.len() > 0 {
        let (name, sub) = subs[0];
        let child = path.push(name);
        let rest = subs.skip(1);
        let changed = subs_with_subtree(subs, way, other);
        assert(changed.skip(1) =~= subs_with_subtree(rest, way, other));
        assert(way[0] == dir[n]);
        assert(plain_path(child)) by {
            assert forall|k: int| 0 <= k < child.len() implies (#[trigger] child[k]).len() > 0
                && !child[k].contains('/') by {
                if k < path.len() {
                    assert(child[k] == path[k]);
                }
            }
        }
        directory_paths_read_back(child, now);
        if name == way[0] {
            assert forall|k: int| 0 <= k < rest.len() implies (#[trigger] rest[k]).0 != way[0] by {
                assert(rest[k] == subs[k + 1]);
            }
            lemma_nothing_replaced(rest, way, other);
            if !dir_ignored(now, child) {
                assert(dir.take(n + 1) =~= child);
                assert(dir.skip(n + 1) =~= way.skip(1));
                assert(!(decision(sources, dir.take(n + 1), true) is Ignored));
                lemma_ignored_walk(now, sources, dir, n + 1, sub, other);
            }
        } else {
            let with_first = if dir_ignored(now, child) {
                now
            } else {
                walk(now, child, sub)
            };
            if !dir_ignored(now, child) {
                let added = lemma_walk(now, child, sub);
                assert forall|j: int| n < j <= dir.len() implies decision(
                    now + added,
                    #[trigger] dir.take(j),
                    true,
                ) == decision(sources, dir.take(j), true) by {
                    let q = dir.take(j);
                    assert forall|k: int| 0 <= k < added.len() implies !inside(
                        (#[trigger] added[k]).base,
                        q,
                    ) by {
                        let base = added[k].base;
                        assert(at_or_under(base, child));
                        assert(base.take(child.len() as int)[n] == child[n]);
                        if inside(base, q) {
                            assert(q.take(base.len() as int)[n] == base[n]);
                        }
                    }
                    lemma_outside(now, added, q);
                    assert(decision(now, q, true) == decision(sources, q, true));
                }
            }
            lemma_ignored_subdirs(with_first, sources, dir, n, rest, other);
        }
    }
}

/// A directory that git's own rules ignore (the global excludes,
/// `.git/info/exclude`, and the `.gitignore` files of the directories it lies
/// in) is not looked into: whatever it holds, no rule and no verdict changes,
/// even where `.dsyncexclude` re-includes it.
pub proof fn ignored_directories_change_no_verdict(
    global_excludes: Option<Seq<char>>,
    info_exclude: Option<Seq<char>>,
    root: DirTree,
    dsyncexclude: Option<Seq<char>>,
    dir: Seq<Seq<char>>,
    other: DirTree,
)
    requires
        plain_tree(root),
        ignored(
            rules_on_the_way(
                RepoLoadView::start(global_excludes, info_exclude).sources,
                Seq::empty(),
                root,
                dir,
            ),
            dir,
            true,
        ),
    ensures
        loaded_rules(global_excludes, info_exclude, with_subtree(root, dir, other), dsyncexclude)
            == loaded_rules(global_excludes, info_exclude, root, dsyncexclude),
        forall|path: Seq<Seq<char>>, is_dir: bool|
            ignored(
                loaded_rules(
                    global_excludes,
                    info_exclude,
                    with_subtree(root, dir, other),
                    dsyncexclude,
                ),
                path,
                is_dir,
            ) == #[trigger] ignored(
                loaded_rules(global_excludes, info_exclude, root, dsyncexclude),
                path,
                is_dir,
            ),
{
    let start = RepoLoadView::start(global_excludes, info_exclude).sources;
    assert(dir.take(0) =~= Seq::empty());
    assert(dir.skip(0) =~= dir);
    lemma_ignored_walk(start, start, dir, 0, root, other);
}

// ---------------------------------------------------------------------------
// Layers
// ---------------------------------------------------------------------------
/// Every global layer that is given is loaded: the global excludes first and
/// `.git/info/exclude` on top of them, both for the root.
pub proof fn global_layers_come_first(
    global_excludes: Option<Seq<char>>,
    info_exclude: Option<Seq<char>>,
)
    ensures
        RepoLoadView::start(global_excludes, info_exclude).sources == (match (
            global_excludes,
            info_exclude,
        ) {
            (Some(global), Some(info)) => seq![
                source_of(Seq::empty(), global),
                source_of(Seq::empty(), info),
            ],
            (Some(global), None) => seq![source_of(Seq::empty(), global)],
            (None, Some(info)) => seq![source_of(Seq::empty(), info)],
            (None, None) => Seq::empty(),
        }),
        RepoLoadView::start(global_excludes, info_exclude).pending == seq![
            Seq::<Seq<char>>::empty(),
        ],
        RepoLoadView::start(global_excludes, info_exclude).at is None,
{
    let start = RepoLoadView::start(global_excludes, info_exclude).sources;
    match (global_excludes, info_exclude) {
        (Some(global), Some(info)) => {
            assert(start =~= seq![
                source_of(Seq::empty(), global),
                source_of(Seq::empty(), info),
            ]);
        },
        (Some(global), None) => {
            assert(start =~= seq![source_of(Seq::empty(), global)]);
        },
        (None, Some(info)) => {
            assert(start =~= seq![source_of(Seq::empty(), info)]);
        },
        (None, None) => {},
    }
}

/// What `.git/info/exclude` says of a path wins over the global excludes,
/// and where it says nothing they count.
pub proof fn info_exclude_wins_over_the_global_excludes(
    global_excludes: Option<Seq<char>>,
    info: Seq<char>,
    path: Seq<Seq<char>>,
    is_dir: bool,
)
    ensures
        ({
            let verdict = sources_decide(
                RepoLoadView::start(global_excludes, Some(info)).sources,
                path,
                is_dir,
            );
            let own = source_decides(source_of(Seq::empty(), info), path, is_dir);
            if !(own is Unmatched) {
                verdict == own
            } else {
                match global_excludes {
                    Some(global) => verdict == source_decides(
                        source_of(Seq::empty(), global),
                        path,
                        is_dir,
                    ),
                    None => verdict is Unmatched,
                }
            }
        }),
{
    global_layers_come_first(global_excludes, Some(info));
    let top = source_of(Seq::empty(), info);
    let none = Seq::<SourceView>::empty();
    match global_excludes {
        Some(global) => {
            let below = source_of(Seq::empty(), global);
            assert(seq![below, top] =~= none.push(below).push(top));
            later_sources_take_precedence(none.push(below), top, path, is_dir);
            later_sources_take_precedence(none, below, path, is_dir);
        },
        None => {
            assert(seq![top] =~= none.push(top));
            later_sources_take_precedence(none, top, path, is_dir);
        },
    }
}

/// A file that is there becomes the topmost layer, and one that is not there
/// changes nothing.
pub proof fn files_become_the_topmost_layer(
    sources: Seq<SourceView>,
    base: Seq<char>,
    contents: Seq<char>,
)
    ensures
        layered(sources, base, Some(contents)) == sources.push(source_of(base, contents)),
        layered(sources, base, None) == sources,
{
}

/// A directory's `.gitignore` becomes the topmost layer, for that directory.
pub proof fn gitignore_files_count_in_their_directory(
    state: RepoLoadView,
    contents: Seq<char>,
    subdirs: Seq<Seq<char>>,
    path: Seq<Seq<char>>,
)
    requires
        state.at == Some(path),
        plain_path(path),
    ensures
        state.visited(Some(contents), subdirs).sources.drop_last() == state.sources,
        state.visited(Some(contents), subdirs).sources.last().base == path,
        state.visited(Some(contents), subdirs).sources.last().patterns == patterns_of(
            lines(contents),
        ),
        state.visited(None, subdirs).sources == state.sources,
        state.visited(None, subdirs).at is None,
{
    directory_paths_read_back(path, state.sources);
    let new = state.visited(Some(contents), subdirs).sources;
    assert(new.drop_last() =~= state.sources);
}

proof fn lemma_entered(path: Seq<Seq<char>>, names: Seq<Seq<char>>, name: Seq<char>)
    ensures
        entered(path, names).contains(name) <==> names.contains(name) && !(path.len() == 0 && (name
            == ".git"@ || name == ".dsync"@)),
    decreases names.len(),
{
    if names.len() > 0 {
        let init = names.drop_last();
        let kept = entered(path, init);
        lemma_entered(path, init, name);
        assert(names =~= init.push(names.last()));
        lemma_contains_push(init, names.last(), name);
        lemma_contains_push(kept, names.last(), name);
    }
}

proof fn lemma_contains_push(s: Seq<Seq<char>>, x: Seq<char>, y: Seq<char>)
    ensures
        s.push(x).contains(y) <==> s.contains(y) || x == y,
{
    if s.contains(y) {
        let k = choose|k: int| 0 <= k < s.len() && s[k] == y;
        assert(s.push(x)[k] == y);
    }
    if x == y {
        assert(s.push(x)[s.len() as int] == y);
    }
    if s.push(x).contains(y) && x != y {
        let k = choose|k: int| 0 <= k < s.push(x).len() && s.push(x)[k] == y;
        assert(s[k] == y);
    }
}

/// After a directory has been looked at, all its subdirectories come next,
/// whatever their names are, but for the root's `.git` and `.dsync`; nothing
/// that was still to come is lost, and nothing else is added.
pub proof fn every_subdirectory_is_looked_at(
    state: RepoLoadView,
    gitignore: Option<Seq<char>>,
    subdirs: Seq<Seq<char>>,
    path: Seq<Seq<char>>,
    name: Seq<char>,
)
    requires
        state.at == Some(path),
    ensures
        ({
            let next = state.visited(gitignore, subdirs).pending;
            let count = next.len() - state.pending.len();
            &&& count >= 0
            &&& next.skip(count) == state.pending
            &&& next.take(count).contains(path.push(name)) <==> subdirs.contains(name) && !(
            path.len() == 0 && (name == ".git"@ || name == ".dsync"@))
            &&& forall|k: int|
                0 <= k < count ==> (#[trigger] next[k]).len() == path.len() + 1 && next[k].take(
                    path.len() as int,
                ) == path
            &&& forall|i: int, j: int|
                0 <= i < j < count ==> text_le(
                    (#[trigger] next[i])[path.len() as int],
                    (#[trigger] next[j])[path.len() as int],
                )
        }),
{
    broadcast use vstd::seq_lib::group_to_multiset_ensures;

    let names = sorted(entered(path, subdirs));
    let next = state.visited(gitignore, subdirs).pending;
    let new = children(path, names);
    let count = next.len() - state.pending.len();
    sorting_orders_the_names(entered(path, subdirs));
    assert(count == names.len());
    assert(next.skip(count) =~= state.pending);
    assert(next.take(count) =~= new);
    lemma_entered(path, subdirs, name);
    assert(names.contains(name) <==> entered(path, subdirs).contains(name)) by {
        assert(names.to_multiset().count(name) == entered(path, subdirs).to_multiset().count(name));
    }
    if names.contains(name) {
        let k = choose|k: int| 0 <= k < names.len() && names[k] == name;
        assert(new[k] == path.push(name));
    }
    if new.contains(path.push(name)) {
        let k = choose|k: int| 0 <= k < new.len() && new[k] == path.push(name);
        assert(path.push(names[k])[path.len() as int] == path.push(name)[path.len() as int]);
        assert(names[k] == name);
    }
    assert forall|k: int| 0 <= k < count implies (#[trigger] next[k]).len() == path.len() + 1
        && next[k].take(path.len() as int) == path by {
        assert(next[k] == path.push(names[k]));
        assert(path.push(names[k]).take(path.len() as int) =~= path);
    }
    assert forall|i: int, j: int| 0 <= i < j < count implies text_le(
        (#[trigger] next[i])[path.len() as int],
        (#[trigger] next[j])[path.len() as int],
    ) by {
        assert(next[i] == path.push(names[i]) && next[j] == path.push(names[j]));
        assert(text_le(names[i], names[j]));
    }
}

proof fn lemma_unignored(sources: Seq<SourceView>, pending: Seq<Seq<Seq<char>>>) -> (n: int)
    requires
        forall|k: int| 0 <= k < pending.len() ==> plain_path(#[trigger] pending[k]),
    ensures
        0 <= n <= pending.len(),
        unignored(sources, pending) == pending.skip(n),
        forall|k: int| 0 <= k < n ==> ignored(sources, #[trigger] pending[k], true),
        n < pending.len() ==> !ignored(sources, pending[n], true),
    decreases pending.len(),
{
    if pending.len() == 0 {
        assert(pending.skip(0) =~= pending);
        0
    } else {
        directory_paths_read_back(pending[0], sources);
        if dir_ignored(sources, pending[0]) {
            let rest = pending.skip(1);
            assert forall|k: int| 0 <= k < rest.len() implies plain_path(#[trigger] rest[k]) by {
                assert(rest[k] == pending[k + 1]);
            }
            let m = lemma_unignored(sources, rest);
            assert(rest.skip(m) =~= pending.skip(m + 1));
            assert forall|k: int| 0 <= k < m + 1 implies ignored(
                sources,
                #[trigger] pending[k],
                true,
            ) by {
                if k > 0 {
                    assert(rest[k - 1] == pending[k]);
                }
            }
            m + 1
        } else {
            assert(pending.skip(0) =~= pending);
            0
        }
    }
}

/// The next directory to look at is the first one still to come that the
/// rules so far do not ignore; those before it are passed over for good, and
/// the rules stay.
pub proof fn ignored_directories_are_passed_over(state: RepoLoadView) -> (n: int)
    requires
        forall|k: int| 0 <= k < state.pending.len() ==> plain_path(#[trigger] state.pending[k]),
    ensures
        0 <= n <= state.pending.len(),
        forall|k: int| 0 <= k < n ==> ignored(state.sources, #[trigger] state.pending[k], true),
        state.turned().sources == state.sources,
        n < state.pending.len() ==> !ignored(state.sources, state.pending[n], true)
            && state.turned().at == Some(state.pending[n]) && state.turned().pending
            == state.pending.skip(n + 1),
        n == state.pending.len() ==> state.turned().at is None && state.turned().pending.len() == 0,
{
    let n = lemma_unignored(state.sources, state.pending);
    if n < state.pending.len() {
        assert(state.pending.skip(n).skip(1) =~= state.pending.skip(n + 1));
    }
    n
}

proof fn lemma_filter_push(parts: Seq<Seq<char>>, part: Seq<char>)
    ensures
        parts.push(part).filter(|p: Seq<char>| p.len() > 0) == (if part.len() > 0 {
            parts.filter(|p: Seq<char>| p.len() > 0).push(part)
        } else {
            parts.filter(|p: Seq<char>| p.len() > 0)
        }),
{
    reveal(Seq::filter);
    assert(parts.push(part).drop_last() =~= parts);
}

/// The names on a path are what stands between its slashes; a slash too many
/// does not count.
pub proof fn names_stand_between_slashes(path: Seq<char>, name: Seq<char>)
    requires
        name.len() > 0,
        !name.contains('/'),
    ensures
        nonempty_pieces(Seq::empty(), '/').len() == 0,
        nonempty_pieces(path.push('/'), '/') == nonempty_pieces(path, '/'),
        nonempty_pieces(path.push('/') + name, '/') == nonempty_pieces(path, '/').push(name),
        nonempty_pieces(name, '/') == seq![name],
{
    let none = Seq::<char>::empty();
    let slashed = path.push('/');
    let pieces = split(path, '/');
    assert(split(none, '/') =~= seq![none]);
    assert(Seq::<Seq<char>>::empty().push(none) =~= seq![none]);
    lemma_filter_push(Seq::empty(), none);
    reveal(Seq::filter);
    assert(slashed.drop_last() =~= path);
    assert(split(slashed, '/') == pieces.push(none));
    lemma_filter_push(pieces, none);
    lemma_split_add(slashed, name, '/');
    assert(none + name =~= name);
    assert(pieces.push(none).drop_last() =~= pieces);
    lemma_filter_push(pieces, name);
    lemma_split_add(none, name, '/');
    assert(none + name =~= name);
    assert(seq![none].drop_last() =~= Seq::empty());
    lemma_filter_push(Seq::empty(), name);
    assert(nonempty_pieces(name, '/') =~= seq![name]);
}

} // verus!
