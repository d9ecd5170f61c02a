//! Syncing a git repository to a replica, driven by watchman.
//!
//! The crate holds the rules and decisions of `ds`: what is synced, how the
//! rules reach rsync and watchman, when the fast path is taken, and what the
//! server answers. Each function states what it does in its contract, and
//! the `*_laws` modules state what holds across functions. Files, sockets,
//! timers and child processes are the program's concern.
//!
//! # Ignore rules
//!
//! [`eval`] is the single source of truth for "is this path synced?". It
//! parses gitignore-syntax rules from a repository's layered sources (the
//! global excludes file, `.git/info/exclude`, per-directory `.gitignore`
//! files, and the [`DSYNC_EXCLUDE_FILE`] overlay) and serves three consumers:
//!
//! 1. **Direct evaluation**: [`IgnoreSet::is_ignored`].
//! 2. **rsync filter rules**: [`rsync_filter_rules`], used for full-tree
//!    syncs.
//! 3. **watchman query expressions**: [`watchman_ignored_files_expr`] and
//!    [`watchman_synced_files_expr`], used by the small-change fast path.
//!
//! Two rules are built in and not overridable: the repo-root `.git` and
//! `.dsync` entries are always ignored. rsync is run with `--delete-after`
//! but never `--delete-excluded`, so ignored paths are neither sent nor
//! deleted on the target.
//!
//! Known, accepted limits:
//!
//! - Negated patterns have no watchman translation: watchman's term language
//!   cannot couple "this exclude matched an ancestor" with "no
//!   higher-precedence re-include matched the *same* ancestor". Callers fall
//!   back to a full rsync, whose filter translation does support negation.
//! - rsync's `**` cannot match zero path components, so each non-trailing
//!   `**` doubles the emitted rsync rules; patterns expanding past a small
//!   cap are not translated.
//! - POSIX character classes (`[[:alpha:]]`) parse as plain bracket
//!   expressions over the literal characters.
//! - Bracket expressions whose ranges end in `]`, `-` or a backslash are
//!   rendered best-effort; the direct evaluator is exact.
//! - A nested `.git` (e.g. a submodule) is synced unless the rules say
//!   otherwise.
//! - Which `.gitignore` files get *read* is decided by git's rules alone: a
//!   `.dsyncexclude` re-include of an ignored directory does not make a
//!   `.gitignore` inside it count.

use vstd::prelude::*;

pub mod barrier;
pub mod client;
pub mod command;
pub mod eval;
pub mod eval_laws;
pub mod exec;
pub mod exec_laws;
pub mod fastpath;
pub mod fastpath_laws;
pub mod git;
pub mod ignore;
pub mod json;
pub mod load;
pub mod load_laws;
pub mod names;
pub mod paths;
pub mod pattern;
pub mod pattern_laws;
pub mod protocol;
pub mod render;
pub mod render_laws;
pub mod repo;
pub mod rsync;
pub mod rsync_laws;
pub mod server;
pub mod server_laws;
pub mod state;
pub mod status;
pub mod sync;
pub mod sync_laws;
pub mod target;
pub mod text;
pub mod translate;
pub mod watchman;
pub mod watchman_laws;
pub mod wquery;

pub use crate::eval::IgnoreSet;
pub use crate::load::{load_repo, DSYNC_EXCLUDE_FILE};
pub use crate::pattern::{parse_line, ClassItem, Pattern, Segment, Tok};
pub use crate::rsync::rsync_filter_rules;
pub use crate::translate::TranslateError;
pub use crate::watchman::{watchman_ignored_files_expr, watchman_synced_files_expr};

verus! {

} // verus!
