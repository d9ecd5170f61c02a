//! Loading a repository's layered rules.

use std::collections::BTreeMap;

use dsync::git::{git_dir, info_exclude_path, DotGit};
use dsync::ignore::{builtin_ignored_expr, Rules};
use dsync::{load_repo, IgnoreSet, DSYNC_EXCLUDE_FILE};

/// A worktree: the contents of its files by their paths.
struct Tree {
    files: BTreeMap<String, String>,
}

impl Tree {
    fn new(files: &[(&str, &str)]) -> Tree {
        Tree {
            files: files.iter().map(|(p, c)| (p.to_string(), c.to_string())).collect(),
        }
    }

    fn read(&self, path: &str) -> Option<&str> {
        self.files.get(path).map(|c| c.as_str())
    }

    /// The subdirectories of a directory, last name first.
    fn subdirs(&self, dir: &str) -> Vec<String> {
        let prefix = if dir.is_empty() { String::new() } else { format!("{dir}/") };
        let mut names: Vec<String> = self
            .files
            .keys()
            .filter_map(|p| p.strip_prefix(prefix.as_str()))
            .filter_map(|p| p.split_once('/'))
            .map(|(name, _)| name.to_string())
            .collect();
        names.dedup();
        names.reverse();
        names
    }

    fn info_exclude(&self) -> Option<&str> {
        let dot_git = match self.read(".git") {
            Some(contents) => DotGit::File(Some(contents.to_string())),
            None if self.files.keys().any(|p| p.starts_with(".git/")) => DotGit::Directory,
            None => DotGit::Missing,
        };
        let dir = git_dir(b"", &dot_git)?;
        let commondir = match dot_git {
            DotGit::File(_) => {
                self.read(&format!("{}/commondir", String::from_utf8(dir.clone()).unwrap()))
            }
            _ => None,
        };
        let path = info_exclude_path(&dir, commondir);
        self.read(&String::from_utf8(path).unwrap())
    }

    /// Loads the rules, and tells the directories that were looked at.
    fn load(&self, global: Option<&str>) -> (IgnoreSet, Vec<String>) {
        let mut load = load_repo(global, self.info_exclude());
        let mut seen = Vec::new();
        while let Some(dir) = load.next_dir() {
            let gitignore = if dir.is_empty() {
                ".gitignore".to_string()
            } else {
                format!("{dir}/.gitignore")
            };
            load.visit(self.read(&gitignore), &self.subdirs(&dir));
            seen.push(dir);
        }
        (load.finish(self.read(DSYNC_EXCLUDE_FILE)), seen)
    }
}

#[test]
fn loads_layers_in_precedence_order() {
    let tree = Tree::new(&[
        (".git/info/exclude", "from-info\n"),
        (".gitignore", "*.log\nfrom-root\n!from-info\n"),
        ("sub/.gitignore", "!debug.log\n"),
        (".dsyncexclude", "!from-root\nextra.txt\n"),
    ]);
    let (set, _) = tree.load(Some("from-global\n!never-mind\n"));

    // Global layer.
    assert!(set.is_ignored("from-global", false));
    // info/exclude applies, and .gitignore can override it.
    assert!(!set.is_ignored("from-info", false));
    // Root .gitignore.
    assert!(set.is_ignored("x.log", false));
    // Deeper .gitignore overrides the root one.
    assert!(!set.is_ignored("sub/debug.log", false));
    assert!(set.is_ignored("sub/other.log", false));
    // .dsyncexclude overrides everything.
    assert!(!set.is_ignored("from-root", false));
    assert!(set.is_ignored("extra.txt", false));
}

#[test]
fn gitignore_inside_ignored_dir_is_not_read() {
    let tree = Tree::new(&[
        (".gitignore", "build/\n"),
        ("build/.gitignore", "!rescued.txt\nweird.txt\n"),
        ("other/.gitignore", "*.o\n"),
    ]);
    let (set, seen) = tree.load(None);
    assert!(set.is_ignored("build/rescued.txt", false));
    assert!(!set.is_ignored("weird.txt", false));
    assert!(set.is_ignored("other/x.o", false));
    assert_eq!(seen, ["", "other"]);
}

#[test]
fn gitdir_file_indirection() {
    let tree = Tree::new(&[
        ("gitmeta/info/exclude", "from-exclude\n"),
        (".git", "gitdir: gitmeta\n"),
    ]);
    let (set, _) = tree.load(None);
    assert!(set.is_ignored("from-exclude", false));
}

#[test]
fn missing_everything_is_fine() {
    let (set, seen) = Tree::new(&[]).load(None);
    assert!(!set.is_ignored("anything", false));
    assert_eq!(seen, [""]);
}

#[test]
fn a_linked_git_directory_names_its_common_one() {
    let tree = Tree::new(&[
        (".git", "gitdir: gitmeta/worktrees/wt\n"),
        ("gitmeta/worktrees/wt/commondir", " ../..\n"),
        ("gitmeta/worktrees/wt/../../info/exclude", "from-common\n"),
    ]);
    let (set, _) = tree.load(None);
    assert!(set.is_ignored("from-common", false));
    // A `.git` file that names no directory, or cannot be read, says nothing.
    assert_eq!(git_dir(b"/r", &DotGit::File(Some("junk".to_string()))), None);
    assert_eq!(git_dir(b"/r", &DotGit::File(None)), None);
    assert_eq!(git_dir(b"/r", &DotGit::Missing), None);
    assert_eq!(git_dir(b"/r", &DotGit::Directory), Some(b"/r/.git".to_vec()));
    assert_eq!(
        git_dir(b"/r", &DotGit::File(Some("gitdir: /else where \n".to_string()))),
        Some(b"/else where".to_vec())
    );
}

#[test]
fn directories_are_looked_at_in_order_and_internal_ones_not_at_all() {
    let tree = Tree::new(&[
        (".git/x/y", ""),
        (".dsync/x/y", ""),
        ("b/z/file", ""),
        ("b/a/file", ""),
        ("a/.git/file", ""),
        ("B/file", ""),
        ("é/file", ""),
    ]);
    let (_, seen) = tree.load(None);
    assert_eq!(seen, ["", "B", "a", "a/.git", "b", "b/a", "b/z", "é"]);
}

#[test]
fn dsyncexclude_does_not_bring_back_unread_files() {
    let tree = Tree::new(&[
        (".gitignore", "out/\n"),
        ("out/.gitignore", "*.tmp\n"),
        (".dsyncexclude", "!out/\n"),
    ]);
    let (set, seen) = tree.load(None);
    assert_eq!(seen, [""]);
    assert!(!set.is_ignored("out", true));
    assert!(!set.is_ignored("out/x.tmp", false));
}

#[test]
fn translates_gitignore_to_rsync_filters_and_watchman_expr() {
    let tree = Tree::new(&[(".git/HEAD", ""), (".gitignore", "*.o\nbuild/\n")]);
    let rules = Rules::load(Ok(tree.load(None).0));
    let rendered = rules.rsync_filter_args().expect("translatable");
    // Built-in internal excludes always lead.
    assert_eq!(rendered[0], "--filter=- /.git");
    assert_eq!(rendered[1], "--filter=- /.dsync");
    assert!(
        rendered.iter().any(|r| r.contains("*.o")),
        "missing *.o filter in {rendered:?}"
    );
    // The watchman expression is an `anyof` of match terms.
    let expr = rules.ignored_expr().expect("translatable");
    assert_eq!(expr.as_array().unwrap()[0], "anyof");
}

#[test]
fn negated_pattern_disables_watchman_but_not_rsync() {
    let tree = Tree::new(&[(".git/HEAD", ""), (".gitignore", "*.log\n!keep.log\n")]);
    let rules = Rules::load(Ok(tree.load(None).0));
    // rsync handles negation (`+`/`-` rules)...
    assert!(rules.rsync_filter_args().is_some());
    // ...but watchman cannot, so the fast path is disabled.
    assert!(rules.ignored_expr().is_none());
    // The fallback still excludes the internal paths.
    assert_eq!(builtin_ignored_expr().as_array().unwrap()[0], "anyof");
    let pending = rules.pending_expr();
    assert_eq!(pending.as_array().unwrap()[0], "not");
    assert_eq!(pending.as_array().unwrap()[1], builtin_ignored_expr());
}

#[test]
fn unreadable_and_untranslatable_rules_degrade() {
    let rules = Rules::load(Err("permission denied".to_string()));
    assert_eq!(
        rules.rsync_filter_args().unwrap(),
        ["--filter=- /.git", "--filter=- /.dsync"]
    );
    assert_eq!(rules.ignored_expr(), Some(&builtin_ignored_expr()));

    let mut set = IgnoreSet::new();
    set.add_source("", "a/**/b/**/c/**/d/**/e/**/f\n");
    let rules = Rules::load(Ok(set));
    assert!(rules.rsync_filter_args().is_none());
    let expr = rules.ignored_expr().unwrap().clone();
    assert_eq!(rules.pending_expr().as_array().unwrap()[1], expr);
}

#[test]
fn what_an_ignored_directory_holds_changes_no_verdict() {
    let rules = [
        (".git/info/exclude", "cache/\n"),
        (".gitignore", "build/\n!keep/\n"),
        ("sub/.gitignore", "out/\n"),
        (".dsyncexclude", "!build/\n!out/\n!cache/\n"),
    ];
    let held = [
        ("build/.gitignore", "*.o\n"),
        ("build/deep/.gitignore", "!x\n*.txt\n"),
        ("cache/.gitignore", "*\n"),
        ("sub/out/.gitignore", "*.o\n"),
    ];
    let bare = Tree::new(&rules).load(None);
    let all: Vec<(&str, &str)> = rules.iter().chain(held.iter()).copied().collect();
    let full = Tree::new(&all).load(None);
    assert_eq!(bare.1, full.1);
    for path in ["build/a.o", "build/deep/x", "build/deep/a.txt", "cache/x", "sub/out/a.o", "a.o"] {
        assert!(!full.0.is_ignored(path, false), "{path}");
        assert_eq!(bare.0.is_ignored(path, false), full.0.is_ignored(path, false));
    }
}
