//! What git says about a repository's ignore files.
//!
//! The caller runs git and reads files; here is decided what to make of it.

use crate::paths::{append_bytes, bytes_of, copy_bytes, join_path, joined, lossy, lossy_text};
use crate::text::{
    after_prefix, all_white, group_views, is_white, join, join_strings, opt_bytes, opt_text,
    opt_view, prefixes_are_stripped_once, strip_prefix, trim, trimmed,
    trimming_removes_white_space_around, views,
};
use vstd::prelude::*;
use vstd::utf8::encode_utf8;

verus! {

// ---------------------------------------------------------------------------
// $GIT_DIR/info/exclude
// ---------------------------------------------------------------------------
/// What the repo root's `.git` entry is.
#[derive(Debug, Clone)]
pub enum DotGit {
    /// There is none.
    Missing,
    /// A directory: the git directory itself.
    Directory,
    /// A file with the given contents (a worktree or submodule checkout), or
    /// one that cannot be read.
    File(Option<String>),
}

/// The directory that a `.git` file names, if it names one.
pub open spec fn linked_dir(contents: Seq<char>) -> Option<Seq<char>> {
    match after_prefix(contents, "gitdir:"@) {
        Some(rest) => Some(trimmed(rest)),
        None => None,
    }
}

/// The git directory of the repository at `root`.
pub open spec fn git_dir_of(root: Seq<u8>, dot_git: DotGit) -> Option<Seq<u8>> {
    match dot_git {
        DotGit::Missing => None,
        DotGit::Directory => Some(joined(root, encode_utf8(".git"@))),
        DotGit::File(None) => None,
        DotGit::File(Some(contents)) => match linked_dir(contents@) {
            Some(target) => Some(joined(root, encode_utf8(target))),
            None => None,
        },
    }
}

/// The git directory of the repository at `root`, following a `.git` *file*
/// (worktree / submodule indirection).
pub fn git_dir(root: &[u8], dot_git: &DotGit) -> (dir: Option<Vec<u8>>)
    ensures
        opt_view(dir) == git_dir_of(root@, *dot_git),
{
    match dot_git {
        DotGit::Missing => None,
        DotGit::Directory => {
            let name = bytes_of(".git");
            Some(join_path(root, name.as_slice()))
        },
        DotGit::File(None) => None,
        DotGit::File(Some(contents)) => match strip_prefix(contents.as_str(), "gitdir:") {
            None => None,
            Some(rest) => {
                let target = trim(rest.as_str());
                let name = bytes_of(target.as_str());
                Some(join_path(root, name.as_slice()))
            },
        },
    }
}

/// The path of `info/exclude` for a git directory, where `commondir` is what
/// the `commondir` file of a linked git directory says.
pub open spec fn info_exclude_of(git_dir: Seq<u8>, commondir: Option<Seq<char>>) -> Seq<u8> {
    let dir = match commondir {
        Some(text) => joined(git_dir, encode_utf8(trimmed(text))),
        None => git_dir,
    };
    joined(joined(dir, encode_utf8("info"@)), encode_utf8("exclude"@))
}

/// Resolves `$GIT_DIR/info/exclude`. `commondir` is what the `commondir`
/// file in a git directory that a `.git` file names says, if there is one.
pub fn info_exclude_path(git_dir: &[u8], commondir: Option<&str>) -> (path: Vec<u8>)
    ensures
        path@ == info_exclude_of(git_dir@, opt_text(commondir)),
{
    let dir = match commondir {
        Some(text) => {
            let common = trim(text);
            let name = bytes_of(common.as_str());
            join_path(git_dir, name.as_slice())
        },
        None => copy_bytes(git_dir),
    };
    let info = bytes_of("info");
    let exclude = bytes_of("exclude");
    let dir = join_path(dir.as_slice(), info.as_slice());
    join_path(dir.as_slice(), exclude.as_slice())
}

// ---------------------------------------------------------------------------
// Running git
// ---------------------------------------------------------------------------
/// What a run of git says: its trimmed output, if it has any. A run that
/// fails without output (`config --get` on an unset key) says nothing;
/// another one that fails is an error.
pub open spec fn git_says(
    args: Seq<Seq<char>>,
    success: bool,
    stdout: Seq<u8>,
    stderr: Seq<u8>,
) -> Result<Option<Seq<char>>, Seq<char>> {
    let text = trimmed(lossy_text(stdout));
    if text.len() == 0 {
        Ok(None)
    } else if success {
        Ok(Some(text))
    } else {
        Err(
            "git "@ + join(args, " "@) + " failed: "@ + trimmed(lossy_text(stderr)),
        )
    }
}

/// Interprets a run of git with the given arguments.
pub fn git_output(args: &Vec<String>, success: bool, stdout: &[u8], stderr: &[u8]) -> (said: Result<
    Option<String>,
    String,
>)
    ensures
        git_says(views(args@), success, stdout@, stderr@) == (match said {
            Ok(text) => Ok::<Option<Seq<char>>, Seq<char>>(opt_view(text)),
            Err(e) => Err(e@),
        }),
{
    let text = trim(lossy(stdout).as_str());
    let len: usize = crate::text::chars_of(text.as_str()).len();
    if len == 0 {
        return Ok(None);
    }
    if success {
        return Ok(Some(text));
    }
    let mut message = "git ".to_string();
    message.append(join_strings(args, " ").as_str());
    message.append(" failed: ");
    message.append(trim(lossy(stderr).as_str()).as_str());
    Err(message)
}

// ---------------------------------------------------------------------------
// core.excludesFile
// ---------------------------------------------------------------------------
/// Git's documented default location of the user's excludes file, from the
/// values of `XDG_CONFIG_HOME` and `HOME`.
pub open spec fn default_excludes_of(xdg: Option<Seq<u8>>, home: Option<Seq<u8>>) -> Option<
    Seq<u8>,
> {
    if xdg matches Some(dir) && dir.len() > 0 {
        Some(joined(xdg->0, encode_utf8("git/ignore"@)))
    } else {
        match home {
            Some(dir) => Some(joined(dir, encode_utf8(".config/git/ignore"@))),
            None => None,
        }
    }
}

/// Git's documented default location of the user's excludes file:
/// `$XDG_CONFIG_HOME/git/ignore`, or `~/.config/git/ignore`.
pub fn default_excludes_file(xdg: Option<&[u8]>, home: Option<&[u8]>) -> (path: Option<Vec<u8>>)
    ensures
        opt_view(path) == default_excludes_of(opt_bytes(xdg), opt_bytes(home)),
{
    if let Some(dir) = xdg {
        if dir.len() > 0 {
            let name = bytes_of("git/ignore");
            return Some(join_path(dir, name.as_slice()));
        }
    }
    match home {
        Some(dir) => {
            let name = bytes_of(".config/git/ignore");
            Some(join_path(dir, name.as_slice()))
        },
        None => None,
    }
}

/// The user's excludes file: what `core.excludesFile` says, or git's default
/// where it is unset. There is none where it cannot be read.
pub open spec fn excludes_of(
    config: Result<Option<String>, String>,
    xdg: Option<Seq<u8>>,
    home: Option<Seq<u8>>,
) -> Option<Seq<u8>> {
    match config {
        Ok(Some(path)) => Some(encode_utf8(path@)),
        Ok(None) => default_excludes_of(xdg, home),
        Err(_) => None,
    }
}

/// The user's excludes file, where `config` is what git says of
/// `core.excludesFile`.
pub fn excludes_file(
    config: &Result<Option<String>, String>,
    xdg: Option<&[u8]>,
    home: Option<&[u8]>,
) -> (path: Option<Vec<u8>>)
    ensures
        opt_view(path) == excludes_of(*config, opt_bytes(xdg), opt_bytes(home)),
{
    match config {
        Ok(Some(path)) => Some(bytes_of(path.as_str())),
        // Unset: fall back to git's documented default location.
        Ok(None) => default_excludes_file(xdg, home),
        Err(_) => None,
    }
}

// ---------------------------------------------------------------------------
// Interim rsync filters
// ---------------------------------------------------------------------------
/// The repo-global gitignore files, in decreasing precedence order:
/// `info/exclude`, then the user's excludes file.
pub open spec fn exclude_files_of(
    repo_root: Seq<u8>,
    info: Result<Option<String>, String>,
    excludes: Option<Seq<u8>>,
) -> Seq<Seq<u8>> {
    (match info {
        Ok(Some(path)) => seq![joined(repo_root, encode_utf8(path@))],
        _ => Seq::empty(),
    }) + (match excludes {
        Some(path) => seq![path],
        None => Seq::empty(),
    })
}

/// Where the repo-global gitignore files may be, in decreasing precedence
/// order: `$GIT_DIR/info/exclude`, where `info` is what git says of its path
/// relative to the repo root, then `core.excludesFile`. Only those that
/// exist are of use.
pub fn global_exclude_files(
    repo_root: &[u8],
    info: &Result<Option<String>, String>,
    config: &Result<Option<String>, String>,
    xdg: Option<&[u8]>,
    home: Option<&[u8]>,
) -> (files: Vec<Vec<u8>>)
    ensures
        views(files@) == exclude_files_of(
            repo_root@,
            *info,
            excludes_of(*config, opt_bytes(xdg), opt_bytes(home)),
        ),
{
    broadcast use group_views;

    let mut files: Vec<Vec<u8>> = Vec::new();
    if let Ok(Some(path)) = info {
        let name = bytes_of(path.as_str());
        files.push(join_path(repo_root, name.as_slice()));
    }
    if let Some(path) = excludes_file(config, xdg, home) {
        files.push(path);
    }
    proof {
        assert(views(files@) =~= exclude_files_of(
            repo_root@,
            *info,
            excludes_of(*config, opt_bytes(xdg), opt_bytes(home)),
        ));
    }
    files
}

/// The arguments that apply git's ignore files approximately: `.git` and
/// `.dsync` are excluded, each directory's `.gitignore` is merged in, and so
/// are the given files, in decreasing precedence order.
pub open spec fn interim_args(files: Seq<Seq<u8>>) -> Seq<Seq<u8>> {
    seq![
        encode_utf8("--exclude=.git"@),
        encode_utf8("--exclude=.dsync"@),
        encode_utf8("--filter=:- .gitignore"@),
    ] + files.map_values(|file: Seq<u8>| encode_utf8("--filter=.- "@) + file)
}

/// Build the interim rsync filter arguments: approximate ignore handling,
/// used only as the fallback when the rules cannot be translated exactly (a
/// pathological `**` blow-up):
///
/// - `.git/` and `.dsync/` are always excluded (and, since we never pass
///   `--delete-excluded`, never deleted from the destination);
/// - per-directory `.gitignore` files apply via rsync's dir-merge filter;
/// - `files`, the repo-global gitignore files that exist, apply as
///   lower-precedence merge files (rsync filter rules are first-match-wins,
///   so later args have lower precedence, matching git's ordering).
pub fn interim_rsync_filter_args(files: &Vec<Vec<u8>>) -> (args: Vec<Vec<u8>>)
    ensures
        views(args@) == interim_args(views(files@)),
{
    broadcast use group_views;

    let mut args: Vec<Vec<u8>> = Vec::new();
    args.push(bytes_of("--exclude=.git"));
    args.push(bytes_of("--exclude=.dsync"));
    args.push(bytes_of("--filter=:- .gitignore"));
    let ghost all = interim_args(views(files@));
    proof {
        assert(views(args@) =~= all.take(3));
    }
    for i in 0..files.len()
        invariant
            all == interim_args(views(files@)),
            views(args@) == all.take(3 + i),
    {
        broadcast use group_views;

        let mut arg = bytes_of("--filter=.- ");
        append_bytes(&mut arg, files[i].as_slice());
        proof {
            assert(all[3 + i] == arg@);
            assert(all.take(3 + i + 1) =~= all.take(3 + i).push(all[3 + i]));
        }
        args.push(arg);
    }
    proof {
        assert(all.take(all.len() as int) =~= all);
    }
    args
}

// ---------------------------------------------------------------------------
// What holds of every repository
// ---------------------------------------------------------------------------
/// A `.git` file names the directory behind `gitdir:`, with or without white
/// space around it, and any other file names none.
pub proof fn git_files_name_the_directory_behind_gitdir(
    before: Seq<char>,
    dir: Seq<char>,
    after: Seq<char>,
    contents: Seq<char>,
)
    requires
        all_white(before),
        all_white(after),
        dir.len() > 0,
        !is_white(dir[0]),
        !is_white(dir.last()),
    ensures
        linked_dir("gitdir:"@ + (before + dir + after)) == Some(dir),
        linked_dir(contents) is Some <==> contents.len() >= 7 && contents.take(7) == "gitdir:"@,
{
    reveal_strlit("gitdir:");
    prefixes_are_stripped_once(contents, "gitdir:"@, before + dir + after);
    trimming_removes_white_space_around(before, dir, after);
}

/// The git directory is the root's `.git` directory, or the one that the
/// root's `.git` file names, taken from the root where it is relative.
pub proof fn git_directories_are_found_from_the_root(root: Seq<u8>, contents: String)
    ensures
        git_dir_of(root, DotGit::Missing) is None,
        git_dir_of(root, DotGit::Directory) == Some(joined(root, encode_utf8(".git"@))),
        git_dir_of(root, DotGit::File(None)) is None,
        match linked_dir(contents@) {
            Some(dir) => git_dir_of(root, DotGit::File(Some(contents))) == Some(
                joined(root, encode_utf8(dir)),
            ),
            None => git_dir_of(root, DotGit::File(Some(contents))) is None,
        },
{
}

/// `info/exclude` lies in the git directory, or, for a linked one, in the
/// common one that its `commondir` file names.
pub proof fn info_exclude_lies_in_the_common_directory(git_dir: Seq<u8>, commondir: Seq<char>)
    ensures
        info_exclude_of(git_dir, None) == joined(
            joined(git_dir, encode_utf8("info"@)),
            encode_utf8("exclude"@),
        ),
        info_exclude_of(git_dir, Some(commondir)) == info_exclude_of(
            joined(git_dir, encode_utf8(trimmed(commondir))),
            None,
        ),
{
}

/// A run of git without output says nothing, whether it failed or not; one
/// with output says it, trimmed, if it succeeded, and is an error otherwise.
pub proof fn failed_runs_with_output_are_errors(
    args: Seq<Seq<char>>,
    success: bool,
    stdout: Seq<u8>,
    stderr: Seq<u8>,
)
    ensures
        trimmed(lossy_text(stdout)).len() == 0 <==> git_says(args, success, stdout, stderr) == Ok::<
            Option<Seq<char>>,
            Seq<char>,
        >(None),
        trimmed(lossy_text(stdout)).len() > 0 ==> git_says(args, true, stdout, stderr) == Ok::<
            Option<Seq<char>>,
            Seq<char>,
        >(Some(trimmed(lossy_text(stdout)))),
        trimmed(lossy_text(stdout)).len() > 0 ==> git_says(args, false, stdout, stderr) == Err::<
            Option<Seq<char>>,
            Seq<char>,
        >("git "@ + join(args, " "@) + " failed: "@ + trimmed(lossy_text(stderr))),
{
}

/// The user's excludes file is the configured one, or else the one under
/// `$XDG_CONFIG_HOME` if that is set and not empty, or else the one under
/// `$HOME`; where the configuration cannot be read there is none.
pub proof fn the_excludes_file_is_the_configured_one_or_the_default(
    path: String,
    error: String,
    xdg: Option<Seq<u8>>,
    home: Option<Seq<u8>>,
)
    ensures
        excludes_of(Ok(Some(path)), xdg, home) == Some(encode_utf8(path@)),
        excludes_of(Err(error), xdg, home) is None,
        xdg matches Some(dir) ==> dir.len() > 0 ==> excludes_of(Ok(None), xdg, home) == Some(
            joined(dir, encode_utf8("git/ignore"@)),
        ),
        (xdg matches Some(dir) ==> dir.len() == 0) ==> excludes_of(Ok(None), xdg, home) == (
        match home {
            Some(dir) => Some(joined(dir, encode_utf8(".config/git/ignore"@))),
            None => None,
        }),
{
}

/// The files merged into an approximate sync are `info/exclude`, from the
/// root where its path is relative, and then the user's excludes file.
pub proof fn exclude_files_come_in_order(
    repo_root: Seq<u8>,
    path: String,
    error: String,
    excludes: Seq<u8>,
)
    ensures
        exclude_files_of(repo_root, Ok(Some(path)), Some(excludes)) == seq![
            joined(repo_root, encode_utf8(path@)),
            excludes,
        ],
        exclude_files_of(repo_root, Ok(Some(path)), None) == seq![
            joined(repo_root, encode_utf8(path@)),
        ],
        exclude_files_of(repo_root, Ok(None), Some(excludes)) == seq![excludes],
        exclude_files_of(repo_root, Err(error), Some(excludes)) == seq![excludes],
        exclude_files_of(repo_root, Ok(None), None).len() == 0,
        exclude_files_of(repo_root, Err(error), None).len() == 0,
{
    assert(exclude_files_of(repo_root, Ok(Some(path)), Some(excludes)) =~= seq![
        joined(repo_root, encode_utf8(path@)),
        excludes,
    ]);
    assert(exclude_files_of(repo_root, Ok(Some(path)), None) =~= seq![
        joined(repo_root, encode_utf8(path@)),
    ]);
    assert(exclude_files_of(repo_root, Ok(None), Some(excludes)) =~= seq![excludes]);
    assert(exclude_files_of(repo_root, Err(error), Some(excludes)) =~= seq![excludes]);
}

/// Where the rules do not translate, the internal entries are excluded, each
/// directory's `.gitignore` is merged in, and after it every given file, in
/// order.
pub proof fn interim_filters_merge_every_file(files: Seq<Seq<u8>>)
    ensures
        interim_args(files).len() == files.len() + 3,
        interim_args(files).take(3) == seq![
            encode_utf8("--exclude=.git"@),
            encode_utf8("--exclude=.dsync"@),
            encode_utf8("--filter=:- .gitignore"@),
        ],
        forall|k: int|
            0 <= k < files.len() ==> #[trigger] interim_args(files)[3 + k] == encode_utf8(
                "--filter=.- "@,
            ) + files[k],
{
    assert(interim_args(files).take(3) =~= seq![
        encode_utf8("--exclude=.git"@),
        encode_utf8("--exclude=.dsync"@),
        encode_utf8("--filter=:- .gitignore"@),
    ]);
}

} // verus!
