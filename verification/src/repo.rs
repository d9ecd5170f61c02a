//! Locating the git repository that `ds` operates on.

use crate::paths::{
    absolute_paths_start_at_the_root, bytes_of, components, components_of, is_absolute, is_step,
    join_path, joined, lossy, lossy_text, path_of, path_of_components,
    spelled_components_read_back, under,
};
use crate::text::{group_views, views};
use vstd::prelude::*;
use vstd::utf8::encode_utf8;

verus! {

/// The ancestor of a path that has the first `n` of its components.
pub open spec fn ancestor(start: Seq<u8>, n: int) -> Seq<u8> {
    path_of(components_of(start).take(n))
}

/// The path of the `.git` entry of the ancestor that has the first `n`
/// components.
pub open spec fn git_entry(start: Seq<u8>, n: int) -> Seq<u8> {
    joined(ancestor(start, n), encode_utf8(".git"@))
}

/// Whether `has_entry` may say `found` of the path `path`.
pub open spec fn says<F: Fn(&Vec<u8>) -> bool>(has_entry: F, path: Seq<u8>, found: bool) -> bool {
    exists|p: Vec<u8>| #[trigger] p@ == path && call_ensures(has_entry, (&p,), found)
}

/// Find the root of the git repository containing `start`, a canonical path:
/// the nearest ancestor (including `start` itself) that contains a `.git`
/// entry, as `has_entry` tells. `.git` may be a directory (a normal repository)
/// or a file (a worktree or submodule checkout).
pub fn find_repo_root<F: Fn(&Vec<u8>) -> bool>(start: &[u8], has_entry: F) -> (root: Result<
    Vec<u8>,
    String,
>)
    requires
        forall|p: Vec<u8>| call_requires(has_entry, (&p,)),
    ensures
        match root {
            Ok(dir) => exists|n: int|
                0 < n <= components_of(start@).len() && dir@ == #[trigger] ancestor(start@, n)
                    && says(has_entry, git_entry(start@, n), true) && forall|m: int|
                    n < m <= components_of(start@).len() ==> says(
                        has_entry,
                        #[trigger] git_entry(start@, m),
                        false,
                    ),
            Err(text) => text@ == lossy_text(start@)
                + " is not inside a git repository (ds sync must be run within one)"@ && forall|
                m: int,
            |
                0 < m <= components_of(start@).len() ==> says(
                    has_entry,
                    #[trigger] git_entry(start@, m),
                    false,
                ),
        },
{
    broadcast use group_views;

    let cs = components(start);
    let name = bytes_of(".git");
    let mut n: usize = cs.len();
    while n > 0
        invariant
            n <= cs@.len(),
            views(cs@) == components_of(start@),
            name@ == encode_utf8(".git"@),
            forall|p: Vec<u8>| call_requires(has_entry, (&p,)),
            forall|m: int|
                n < m <= components_of(start@).len() ==> says(
                    has_entry,
                    #[trigger] git_entry(start@, m),
                    false,
                ),
        decreases n,
    {
        broadcast use group_views;

        let dir = path_of_components(&cs, n);
        let entry = join_path(dir.as_slice(), name.as_slice());
        let found = has_entry(&entry);
        proof {
            assert(entry@ == git_entry(start@, n as int));
            assert(says(has_entry, git_entry(start@, n as int), found));
        }
        if found {
            return Ok(dir);
        }
        n = n - 1;
    }
    let mut text = lossy(start);
    text.append(" is not inside a git repository (ds sync must be run within one)");
    Err(text)
}

/// The directories that are asked about are those that the path goes through,
/// and each is asked for its `.git` entry.
pub proof fn ancestors_are_the_directories_on_the_way(start: Seq<u8>, n: int)
    requires
        is_absolute(start),
        0 < n <= components_of(start).len(),
    ensures
        components_of(ancestor(start, n)) == components_of(start).take(n),
        under(start, ancestor(start, n)),
        git_entry(start, n) == joined(ancestor(start, n), encode_utf8(".git"@)),
{
    let cs = components_of(start).take(n);
    absolute_paths_start_at_the_root(start);
    assert forall|k: int| 0 < k < cs.len() implies is_step(#[trigger] cs[k]) by {
        assert(cs[k] == components_of(start)[k]);
    }
    spelled_components_read_back(cs);
}

/// What is said of an entry is what was answered when it was asked about.
pub proof fn entries_are_what_was_answered<F: Fn(&Vec<u8>) -> bool>(
    has_entry: F,
    path: Seq<u8>,
    found: bool,
)
    requires
        says(has_entry, path, found),
    ensures
        exists|p: Vec<u8>| #[trigger] p@ == path && call_ensures(has_entry, (&p,), found),
{
}

} // verus!
