//! The core sync loop: watch the repository with watchman and propagate
//! changes to the target.
//!
//! The caller owns the watchman connection, the timers and the child
//! processes; here is decided what is run when.

use crate::command::{CommandLine, CommandView};
use crate::fastpath::{Outcome, MAX_FILES};
use crate::git::{interim_args, interim_rsync_filter_args};
use crate::ignore::{filter_arg, Rules, RulesView};
use crate::json::Json;
use crate::paths::{bytes_of, copy_bytes};
use crate::state::{ReplicaView, ServerState, ServerView, SyncedClock, SyncedView, SyncingClock};
use crate::sync_laws::full_syncs_carry_every_rule;
use crate::target::{remote_text, Target, TargetView};
use crate::text::{chars_of, decimal, decimal_text, group_views, views};
use crate::wquery::clock_json;
use vstd::prelude::*;
use vstd::utf8::encode_utf8;
use watchman_client::prelude::Clock;

verus! {

/// How long to let the filesystem settle after a change notification before
/// starting a sync, in milliseconds, coalescing bursts of events into one
/// rsync run.
pub const SETTLE_WINDOW_MS: u64 = 75;

/// How long to wait before retrying after a failed sync, in milliseconds.
pub const RETRY_DELAY_MS: u64 = 2000;

/// How often to force a full rsync as a self-healing measure, in
/// milliseconds, repairing any drift the fast path might have left, even
/// while changes keep flowing.
pub const HEAL_INTERVAL_MS: u64 = 300000;

// ---------------------------------------------------------------------------
// Settings
// ---------------------------------------------------------------------------
/// The value of a decimal digit.
pub open spec fn digit_value(c: char) -> Option<nat> {
    if '0' <= c && c <= '9' {
        Some((c as nat - '0' as nat) as nat)
    } else {
        None
    }
}

/// The number that decimal digits spell, if they are all digits.
pub open spec fn digits_value(s: Seq<char>) -> Option<nat>
    decreases s.len(),
{
    if s.len() == 0 {
        Some(0)
    } else {
        match (digits_value(s.drop_last()), digit_value(s.last())) {
            (Some(head), Some(d)) => Some(head * 10 + d),
            _ => None,
        }
    }
}

/// The number that a text spells: digits, with or without a `+` before them.
/// `None` if it spells no number, or one that is too large.
pub open spec fn number_of(s: Seq<char>) -> Option<nat> {
    let digits = if s.len() > 0 && s[0] == '+' {
        s.skip(1)
    } else {
        s
    };
    match digits_value(digits) {
        Some(n) if digits.len() > 0 && n <= u64::MAX => Some(n),
        _ => None,
    }
}

/// The value of a decimal digit.
fn read_digit(c: char) -> (d: Option<u64>)
    ensures
        match d {
            Some(v) => digit_value(c) == Some(v as nat) && v < 10,
            None => digit_value(c) is None,
        },
{
    match c {
        '0' => Some(0),
        '1' => Some(1),
        '2' => Some(2),
        '3' => Some(3),
        '4' => Some(4),
        '5' => Some(5),
        '6' => Some(6),
        '7' => Some(7),
        '8' => Some(8),
        '9' => Some(9),
        _ => None,
    }
}

proof fn lemma_digits_none(s: Seq<char>, n: int)
    requires
        0 <= n <= s.len(),
        digits_value(s.take(n)) is None,
    ensures
        digits_value(s) is None,
    decreases s.len(),
{
    if n < s.len() {
        assert(s.drop_last().take(n) =~= s.take(n));
        lemma_digits_none(s.drop_last(), n);
    } else {
        assert(s.take(n) =~= s);
    }
}

proof fn lemma_digits_grow(s: Seq<char>, n: int)
    requires
        0 <= n <= s.len(),
        digits_value(s.take(n)) matches Some(v) && v > u64::MAX,
    ensures
        digits_value(s) matches Some(v) ==> v > u64::MAX,
    decreases s.len(),
{
    if n < s.len() {
        assert(s.drop_last().take(n) =~= s.take(n));
        lemma_digits_grow(s.drop_last(), n);
    } else {
        assert(s.take(n) =~= s);
    }
}

/// The number that a text spells.
pub fn parse_number(s: &str) -> (n: Option<u64>)
    ensures
        match n {
            Some(v) => number_of(s@) == Some(v as nat),
            None => number_of(s@) is None,
        },
{
    let chars = chars_of(s);
    let start: usize = if chars.len() > 0 && chars[0] == '+' {
        1
    } else {
        0
    };
    let ghost digits = s@.skip(start as int);
    proof {
        if start == 0 {
            assert(digits =~= s@);
        }
    }
    if chars.len() == start {
        return None;
    }
    let mut value: u64 = 0;
    for i in start..chars.len()
        invariant
            chars@ == s@,
            start <= s@.len(),
            digits == s@.skip(start as int),
            digits.len() > 0,
            number_of(s@) == (match digits_value(digits) {
                Some(n) if digits.len() > 0 && n <= u64::MAX => Some(n),
                _ => None::<nat>,
            }),
            digits_value(digits.take(i - start)) == Some(value as nat),
    {
        let ghost before = value as nat;
        proof {
            assert(digits.take(i + 1 - start).drop_last() =~= digits.take(i - start));
            assert(digits.take(i + 1 - start).last() == chars@[i as int]);
        }
        match read_digit(chars[i]) {
            None => {
                proof {
                    lemma_digits_none(digits, i + 1 - start);
                }
                return None;
            },
            Some(d) => {
                if value > u64::MAX / 10 || value * 10 > u64::MAX - d {
                    proof {
                        lemma_digits_grow(digits, i + 1 - start);
                    }
                    return None;
                }
                value = value * 10 + d;
            },
        }
    }
    proof {
        assert(digits.take(digits.len() as int) =~= digits);
    }
    Some(value)
}

/// The self-heal interval in milliseconds, overridable by the value of
/// `DSYNC_HEAL_INTERVAL_MS` (an internal knob to avoid a 5-minute wait).
pub fn heal_interval(setting: Option<&str>) -> (ms: u64)
    ensures
        ms == (match setting {
            Some(text) => match number_of(text@) {
                Some(n) => n,
                None => HEAL_INTERVAL_MS as nat,
            },
            None => HEAL_INTERVAL_MS as nat,
        }),
        (setting matches Some(text) ==> number_of(text@) is None) ==> ms == 300000,
{
    match setting {
        Some(text) => match parse_number(text) {
            Some(ms) => ms,
            None => HEAL_INTERVAL_MS,
        },
        None => HEAL_INTERVAL_MS,
    }
}

// ---------------------------------------------------------------------------
// The subscription
// ---------------------------------------------------------------------------
/// `watchman_client::expr::Expr`.
#[verifier::external_type_specification]
#[verifier::external_body]
pub struct ExExpr(watchman_client::prelude::Expr);

/// The expression that a [`watchman_client::prelude::Expr`] is.
pub enum ExprView {
    Not(Box<ExprView>),
    Any(Seq<ExprView>),
    /// The file lies anywhere under the named entry of the root.
    DirName(Seq<char>),
    /// The file is the named entry of the root.
    WholeName(Seq<char>),
}

/// What a watchman expression is made of.
pub uninterp spec fn expr_of(e: watchman_client::prelude::Expr) -> ExprView;

/// `Expr::Not` inverts an expression.
#[verifier::external_body]
fn expr_not(e: watchman_client::prelude::Expr) -> (r: watchman_client::prelude::Expr)
    ensures
        expr_of(r) == ExprView::Not(Box::new(expr_of(e))),
{
    watchman_client::prelude::Expr::Not(Box::new(e))
}

/// What each of a sequence of expressions is made of.
pub open spec fn exprs(es: Seq<watchman_client::prelude::Expr>) -> Seq<ExprView> {
    es.map_values(|e: watchman_client::prelude::Expr| expr_of(e))
}

/// `Expr::Any` matches where any of the expressions does.
#[verifier::external_body]
fn expr_any(es: Vec<watchman_client::prelude::Expr>) -> (r: watchman_client::prelude::Expr)
    ensures
        expr_of(r) == ExprView::Any(exprs(es@)),
{
    watchman_client::prelude::Expr::Any(es)
}

/// `Expr::DirName`, without a depth, matches everything under a directory.
#[verifier::external_body]
fn expr_dirname(name: &str) -> (r: watchman_client::prelude::Expr)
    ensures
        expr_of(r) == ExprView::DirName(name@),
{
    let term = watchman_client::prelude::DirNameTerm { path: name.into(), depth: None };
    watchman_client::prelude::Expr::DirName(term)
}

/// `Expr::Name`, for whole names, matches exactly one path.
#[verifier::external_body]
fn expr_wholename(name: &str) -> (r: watchman_client::prelude::Expr)
    ensures
        expr_of(r) == ExprView::WholeName(name@),
{
    let term = watchman_client::prelude::NameTerm { paths: vec![name.into()], wholename: true };
    watchman_client::prelude::Expr::Name(term)
}

/// A directory and everything under it.
pub open spec fn dir_or_self_view(name: Seq<char>) -> ExprView {
    ExprView::Any(seq![ExprView::DirName(name), ExprView::WholeName(name)])
}

/// Everything but the internal paths.
pub open spec fn subscription_view() -> ExprView {
    ExprView::Not(
        Box::new(ExprView::Any(seq![dir_or_self_view(".git"@), dir_or_self_view(".dsync"@)])),
    )
}

fn dir_or_self(name: &str) -> (e: watchman_client::prelude::Expr)
    ensures
        expr_of(e) == dir_or_self_view(name@),
{
    let es: Vec<watchman_client::prelude::Expr> = vec![expr_dirname(name), expr_wholename(name)];
    proof {
        assert(exprs(es@) =~= seq![ExprView::DirName(name@), ExprView::WholeName(name@)]);
    }
    expr_any(es)
}

/// A coarse subscription filter that drops notifications for the
/// always-excluded internal paths (`.git`/`.dsync` and their contents).
///
/// `.git/` churns constantly (index locks, refs, logs) yet is *never*
/// synced, so without this filter every git operation wakes the sync loop
/// only for the fast path to find nothing to do. These two paths are
/// excluded unconditionally (the invariant), independent of the dynamic
/// ignore rules, so filtering them at the subscription is always safe.
///
/// This is only a pre-filter to cut spurious wakeups; the authoritative
/// filtering still happens in the fast path's since-query over the live
/// rules.
pub fn subscription_expr() -> (e: watchman_client::prelude::Expr)
    ensures
        expr_of(e) == subscription_view(),
{
    let es: Vec<watchman_client::prelude::Expr> = vec![dir_or_self(".git"), dir_or_self(".dsync")];
    proof {
        assert(exprs(es@) =~= seq![dir_or_self_view(".git"@), dir_or_self_view(".dsync"@)]);
    }
    expr_not(expr_any(es))
}

/// Whether an expression matches a file.
pub open spec fn expr_matches(e: ExprView, path: Seq<Seq<char>>) -> bool
    decreases e,
{
    match e {
        ExprView::Not(inner) => !expr_matches(*inner, path),
        ExprView::Any(es) => any_expr_matches(es, path),
        ExprView::DirName(name) => path.len() > 1 && path[0] == name,
        ExprView::WholeName(name) => path == seq![name],
    }
}

/// Whether any of the expressions matches a file.
pub open spec fn any_expr_matches(es: Seq<ExprView>, path: Seq<Seq<char>>) -> bool
    decreases es,
{
    es.len() > 0 && (expr_matches(es[0], path) || any_expr_matches(es.skip(1), path))
}

proof fn lemma_pair(a: ExprView, b: ExprView, path: Seq<Seq<char>>)
    ensures
        any_expr_matches(seq![a, b], path) <==> expr_matches(a, path) || expr_matches(b, path),
{
    let es = seq![a, b];
    assert(es.skip(1)[0] == b);
    assert(es.skip(1).skip(1).len() == 0);
    reveal_with_fuel(any_expr_matches, 3);
}

proof fn lemma_dir_or_self(name: Seq<char>, path: Seq<Seq<char>>)
    ensures
        expr_matches(dir_or_self_view(name), path) <==> path.len() > 0 && path[0] == name,
{
    lemma_pair(ExprView::DirName(name), ExprView::WholeName(name), path);
    if path.len() == 1 {
        assert(path =~= seq![path[0]]);
    }
}

/// The subscription reports exactly the changes outside the internal paths.
pub proof fn subscription_drops_only_the_internal_paths(path: Seq<Seq<char>>)
    ensures
        expr_matches(subscription_view(), path) <==> !(path.len() > 0 && (path[0] == ".git"@
            || path[0] == ".dsync"@)),
{
    lemma_dir_or_self(".git"@, path);
    lemma_dir_or_self(".dsync"@, path);
    lemma_pair(dir_or_self_view(".git"@), dir_or_self_view(".dsync"@), path);
    reveal_with_fuel(expr_matches, 2);
}

// ---------------------------------------------------------------------------
// Reading notifications
// ---------------------------------------------------------------------------
/// A change notification from watchman, tagged with its receipt-order
/// sequence number.
#[derive(Debug)]
pub struct ChangeEvent {
    pub seq: u64,
    pub clock: Clock,
    pub files: Option<usize>,
    /// watchman reported a fresh instance with this notification: the whole
    /// tree must be resynced, so the fast path is not eligible.
    pub fresh_instance: bool,
}

/// What came over the subscription.
#[derive(Debug)]
pub enum Notification {
    /// Files have changed, as of the given clock: this many, if they were
    /// listed.
    FilesChanged { clock: Clock, files: Option<usize>, fresh_instance: bool },
    /// The subscription is over.
    Canceled,
    /// Somebody entered or left a named state, which does not concern us.
    StateChanged,
}

/// What to do about a notification.
#[derive(Debug)]
pub enum ReaderStep {
    /// Hand the event to the sync runner.
    Publish(ChangeEvent),
    /// Fail with a message.
    Fail(String),
    /// Nothing.
    Skip,
}

/// Takes a notification. Receipt order is clock order: each clock is tagged
/// with the next sequence number as it arrives.
pub fn read_notification<T>(state: &mut ServerState<T>, notification: Notification) -> (step:
    ReaderStep)
    requires
        old(state).well_formed(),
    ensures
        final(state).well_formed(),
        match notification {
            Notification::FilesChanged { clock, files, fresh_instance } => step matches
                ReaderStep::Publish(event) && event.seq == old(state)@.next_seq && event.clock
                == clock && event.files == files && event.fresh_instance == fresh_instance
                && final(state)@ == (ServerView {
                next_seq: old(state)@.next_seq.wrapping_add(1),
                ..old(state)@
            }),
            Notification::Canceled => step matches ReaderStep::Fail(text) && text@
                == "watchman canceled our subscription (was the watch deleted?)"@ && final(state)@
                == old(state)@,
            Notification::StateChanged => step is Skip && final(state)@ == old(state)@,
        },
{
    match notification {
        Notification::FilesChanged { clock, files, fresh_instance } => {
            let seq: u64 = state.next_seq();
            ReaderStep::Publish(ChangeEvent { seq, clock, files, fresh_instance })
        },
        Notification::Canceled => ReaderStep::Fail(
            "watchman canceled our subscription (was the watch deleted?)".to_string(),
        ),
        Notification::StateChanged => ReaderStep::Skip,
    }
}

// ---------------------------------------------------------------------------
// One sync
// ---------------------------------------------------------------------------
/// How a sync went about it.
#[derive(Debug, Clone, Copy, PartialEq, Eq, Structural)]
pub enum SyncMode {
    Fast,
    Full,
}

impl SyncMode {
    /// The mode in a word.
    pub fn label(self) -> (text: String)
        ensures
            text@ == (match self {
                SyncMode::Fast => "fast"@,
                SyncMode::Full => "full"@,
            }),
    {
        match self {
            SyncMode::Fast => "fast".to_string(),
            SyncMode::Full => "full".to_string(),
        }
    }
}

/// The result of one sync attempt.
#[derive(Debug, Clone, Copy, PartialEq, Eq, Structural)]
pub enum SyncOutcome {
    /// Real work was propagated.
    Synced(SyncMode),
    /// The fast path found nothing syncable (only ignored files changed since
    /// the last sync). The synced clock still advances, but there is nothing
    /// to report.
    NoChanges,
}

/// How far a sync has come.
#[derive(Debug)]
pub enum SyncProgress {
    /// It has not begun.
    Started,
    /// The fast path was tried; this came of it.
    FastPath(Result<Outcome, String>),
    /// The full rsync exited with this code, or was killed by a signal.
    Rsync(Option<i32>),
}

/// What a sync does next.
#[derive(Debug, Clone, PartialEq, Eq)]
pub enum SyncStep {
    /// Try the fast path.
    TryFastPath,
    /// Run the full rsync.
    RunRsync,
    /// It is over.
    Finished(SyncOutcome),
    /// It has failed, with a message.
    Failed(String),
}

/// Whether the fast path is eligible: only when the work can be bounded
/// precisely. It is not a forced self-heal, there is a prior completed sync
/// to query since, watchman reports no fresh instance, the rules can be
/// expressed to watchman, and the notification is small enough to be worth
/// it.
pub open spec fn fast_path_eligible(
    translatable: bool,
    has_prev_clock: bool,
    fresh_instance: bool,
    files: Option<usize>,
    force_full: bool,
) -> bool {
    !force_full && has_prev_clock && !fresh_instance && translatable && (match files {
        Some(n) => n <= MAX_FILES,
        None => true,
    })
}

/// What is said of an rsync that exited with a failure.
pub open spec fn rsync_failure_text(code: int) -> Seq<char> {
    "rsync exited with status "@ + (if code < 0 {
        "-"@ + decimal((-code) as nat)
    } else {
        decimal(code as nat)
    })
}

/// Interprets the exit of rsync. 24, "partial transfer due to vanished
/// source files", is expected under churn; the change that removed them
/// triggers a new sync.
pub fn rsync_status(code: Option<i32>) -> (done: Result<(), String>)
    ensures
        match done {
            Ok(_) => code == Some(0i32) || code == Some(24i32),
            Err(text) => code != Some(0i32) && code != Some(24i32) && text@ == (match code {
                Some(c) => rsync_failure_text(c as int),
                None => "rsync was killed by a signal"@,
            }),
        },
{
    match code {
        Some(c) => {
            if c == 0 || c == 24 {
                return Ok(());
            }
            let mut text = "rsync exited with status ".to_string();
            let wide: i64 = c as i64;
            if wide < 0 {
                text.append("-");
                text.append(decimal_text((-wide) as u64).as_str());
            } else {
                text.append(decimal_text(wide as u64).as_str());
            }
            proof {
                assert(text@ =~= rsync_failure_text(c as int));
            }
            Err(text)
        },
        None => Err("rsync was killed by a signal".to_string()),
    }
}

/// What one sync of the latest event does next: take the small-change fast
/// path when it is eligible, and fall back to a full rsync otherwise (or when
/// the fast path declines or errors). Any uncertainty falls back to a full
/// rsync, which is always correct on its own.
pub fn sync_once(
    rules: &Rules,
    has_prev_clock: bool,
    event: &ChangeEvent,
    force_full: bool,
    progress: &SyncProgress,
) -> (step: SyncStep)
    ensures
        match *progress {
            SyncProgress::Started => if fast_path_eligible(
                rules@.ignored_expr is Some,
                has_prev_clock,
                event.fresh_instance,
                event.files,
                force_full,
            ) {
                step is TryFastPath
            } else {
                step is RunRsync
            },
            SyncProgress::FastPath(Ok(Outcome::Applied)) => step == SyncStep::Finished(
                SyncOutcome::Synced(SyncMode::Fast),
            ),
            SyncProgress::FastPath(Ok(Outcome::NoChanges)) => step == SyncStep::Finished(
                SyncOutcome::NoChanges,
            ),
            SyncProgress::FastPath(_) => step is RunRsync,
            SyncProgress::Rsync(code) => if code == Some(0i32) || code == Some(24i32) {
                step == SyncStep::Finished(SyncOutcome::Synced(SyncMode::Full))
            } else {
                step matches SyncStep::Failed(text) && text@ == (match code {
                    Some(c) => rsync_failure_text(c as int),
                    None => "rsync was killed by a signal"@,
                })
            },
        },
{
    match progress {
        SyncProgress::Started => {
            let small = match event.files {
                Some(n) => n <= MAX_FILES,
                None => true,
            };
            if !force_full && has_prev_clock && !event.fresh_instance
                && rules.ignored_expr().is_some() && small {
                SyncStep::TryFastPath
            } else {
                SyncStep::RunRsync
            }
        },
        SyncProgress::FastPath(Ok(Outcome::Applied)) => SyncStep::Finished(
            SyncOutcome::Synced(SyncMode::Fast),
        ),
        SyncProgress::FastPath(Ok(Outcome::NoChanges)) => SyncStep::Finished(
            SyncOutcome::NoChanges,
        ),
        SyncProgress::FastPath(Ok(Outcome::Fallback(_))) => SyncStep::RunRsync,
        SyncProgress::FastPath(Err(_)) => SyncStep::RunRsync,
        SyncProgress::Rsync(code) => match rsync_status(*code) {
            Ok(_) => SyncStep::Finished(SyncOutcome::Synced(SyncMode::Full)),
            Err(text) => SyncStep::Failed(text),
        },
    }
}

/// The filter arguments for a full-tree sync: the exact translation of the
/// rules, or the interim filters over the given files where there is none.
pub open spec fn filter_args(rules: RulesView, files: Seq<Seq<u8>>) -> Seq<Seq<u8>> {
    match rules.rsync_filters {
        Some(texts) => texts.map_values(|rule: Seq<char>| encode_utf8(filter_arg(rule))),
        None => interim_args(files),
    }
}

/// The destination argument for a target.
pub open spec fn dest_arg(target: TargetView) -> Seq<u8> {
    match target {
        TargetView::Local(path) => path,
        TargetView::Remote { host, path } => encode_utf8(remote_text(host, path)),
    }
}

/// The options of a full-tree sync.
pub open spec fn rsync_options(rules: RulesView, files: Seq<Seq<u8>>) -> Seq<Seq<u8>> {
    seq![
        encode_utf8("-a"@),
        encode_utf8("--delete-after"@),
        encode_utf8("--modify-window=-1"@),
    ] + filter_args(rules, files)
}

/// The command that syncs the whole tree.
pub open spec fn rsync_command(
    repo_root: Seq<u8>,
    target: TargetView,
    rules: RulesView,
    files: Seq<Seq<u8>>,
) -> CommandView {
    CommandView {
        program: "rsync"@,
        args: rsync_options(rules, files).push(repo_root.push(0x2f)).push(dest_arg(target)),
        cwd: None,
    }
}

/// The filter arguments for a full-tree sync.
fn build_filter_args(rules: &Rules, files: &Vec<Vec<u8>>) -> (args: Vec<Vec<u8>>)
    ensures
        views(args@) == filter_args(rules@, views(files@)),
{
    broadcast use group_views;

    match rules.rsync_filter_args() {
        None => interim_rsync_filter_args(files),
        Some(texts) => {
            let ghost all = filter_args(rules@, views(files@));
            let mut args: Vec<Vec<u8>> = Vec::new();
            for i in 0..texts.len()
                invariant
                    all == filter_args(rules@, views(files@)),
                    rules@.rsync_filters matches Some(list) && views(texts@) == list.map_values(
                        |rule: Seq<char>| filter_arg(rule),
                    ),
                    views(args@) == all.take(i as int),
            {
                broadcast use group_views;

                args.push(bytes_of(texts[i].as_str()));
                proof {
                    assert(all[i as int] == encode_utf8(views(texts@)[i as int]));
                    assert(all.take(i + 1) =~= all.take(i as int).push(all[i as int]));
                }
            }
            proof {
                assert(all.take(all.len() as int) =~= all);
            }
            args
        },
    }
}

/// The command for one full-tree rsync of `repo_root` to `target`, honoring
/// `rules`. `files` are the repo-global gitignore files that exist, for the
/// rare rule set that does not translate.
///
/// `--delete-after`, not plain `--delete`: per-directory merge rules
/// (.gitignore) only protect receiver files from deletion if the receiver
/// has the merge files when it deletes, which is only guaranteed after the
/// transfer. Never `--delete-excluded`.
///
/// `--modify-window=-1` compares mtimes at nanosecond granularity. Without
/// it, a file rewritten with same-size contents within one second of a
/// synced version is skipped by rsync's quick-check *forever*: its size and
/// integer mtime never change again.
pub fn run_rsync(repo_root: &[u8], target: &Target, rules: &Rules, files: &Vec<Vec<u8>>) -> (cmd:
    CommandLine)
    ensures
        cmd@ == rsync_command(repo_root@, target@, rules@, views(files@)),
        rules@.rsync_filters matches Some(texts) ==> cmd@.args.len() == texts.len() + 5 && forall|
            k: int,
        |
            0 <= k < texts.len() ==> #[trigger] cmd@.args[3 + k] == encode_utf8(
                "--filter="@ + texts[k],
            ),
{
    broadcast use group_views;

    proof {
        full_syncs_carry_every_rule(repo_root@, target@, rules@, views(files@));
    }

    let mut cmd = CommandLine::new("rsync");
    cmd.word("-a");
    cmd.word("--delete-after");
    cmd.word("--modify-window=-1");
    let filters = build_filter_args(rules, files);
    let ghost all = rsync_options(rules@, views(files@));
    proof {
        assert(cmd@.args =~= all.take(3));
    }
    for i in 0..filters.len()
        invariant
            views(filters@) == filter_args(rules@, views(files@)),
            all == rsync_options(rules@, views(files@)),
            cmd@.program == "rsync"@,
            cmd@.cwd is None,
            cmd@.args == all.take(3 + i),
    {
        broadcast use group_views;

        cmd.arg(filters[i].as_slice());
        proof {
            assert(all[3 + i] == filters@[i as int]@);
            assert(all.take(3 + i + 1) =~= all.take(3 + i).push(all[3 + i]));
        }
    }
    proof {
        assert(all.take(all.len() as int) =~= all);
    }
    let mut source = copy_bytes(repo_root);
    source.push(0x2f);
    cmd.arg(source.as_slice());
    let dest = target.rsync_dest();
    cmd.arg(dest.as_slice());
    cmd
}

/// What is said when a full sync starts.
pub fn full_sync_message(files: Option<usize>) -> (text: String)
    ensures
        text@ == (match files {
            Some(n) => "full sync started ("@ + decimal(n as nat) + " files changed)"@,
            None => "full sync started"@,
        }),
{
    match files {
        Some(n) => {
            let mut text = "full sync started (".to_string();
            text.append(decimal_text(n as u64).as_str());
            text.append(" files changed)");
            text
        },
        None => "full sync started".to_string(),
    }
}

// ---------------------------------------------------------------------------
// The runner
// ---------------------------------------------------------------------------
/// What the sync runner has been woken by.
#[derive(Debug, Clone, Copy, PartialEq, Eq, Structural)]
pub enum Wake {
    /// The retry delay is over.
    Retry,
    /// There is a new event.
    Changed,
    /// There will be no more events.
    Ended,
    /// It is time for the periodic self-heal.
    HealTick,
}

/// What the sync runner does next.
#[derive(Debug, Clone, PartialEq, Eq)]
pub enum RunnerStep {
    /// Wait again.
    Wait,
    /// Let the filesystem settle, then sync the latest event.
    Settle,
    /// Sync the latest event.
    Take,
    /// Fail with a message.
    Fail(String),
}

/// The state of the sync runner between syncs.
#[derive(Debug, Clone, Copy, PartialEq, Eq, Structural)]
pub struct Runner {
    /// The last sync failed.
    pub retrying: bool,
    /// The next sync is to be a full one.
    pub force_full: bool,
}

impl Runner {
    /// The state after being woken. `seen_event` says whether any event has
    /// come yet: a self-heal then asks for a full sync.
    pub open spec fn after_wake(self, wake: Wake, seen_event: bool) -> Runner {
        Runner { force_full: self.force_full || (wake is HealTick && seen_event), ..self }
    }

    /// The state after a sync.
    pub open spec fn after_sync(self, success: bool) -> Runner {
        Runner { retrying: !success, force_full: self.force_full && !success }
    }

    /// The runner before the first sync.
    pub fn new() -> (runner: Runner)
        ensures
            !runner.retrying,
            !runner.force_full,
    {
        Runner { retrying: false, force_full: false }
    }

    /// Whether to wait out the retry delay, rather than for a change or the
    /// next self-heal.
    pub fn waits_to_retry(&self) -> (yes: bool)
        ensures
            yes == self.retrying,
    {
        self.retrying
    }

    /// What to do when woken. `seen_event` says whether any event has come
    /// yet: without one there is no state to repair.
    pub fn woken(&mut self, wake: Wake, seen_event: bool) -> (step: RunnerStep)
        ensures
            *final(self) == old(self).after_wake(wake, seen_event),
            match wake {
                Wake::Retry => step is Take,
                Wake::Changed => step is Settle,
                Wake::Ended => step matches RunnerStep::Fail(text) && text@
                    == "watchman event stream ended"@,
                Wake::HealTick => if seen_event {
                    step is Take
                } else {
                    step is Wait
                },
            },
    {
        match wake {
            Wake::Retry => RunnerStep::Take,
            Wake::Changed => RunnerStep::Settle,
            Wake::Ended => RunnerStep::Fail("watchman event stream ended".to_string()),
            Wake::HealTick => {
                if seen_event {
                    // Re-sync the latest known state with a full rsync.
                    self.force_full = true;
                    RunnerStep::Take
                } else {
                    RunnerStep::Wait
                }
            },
        }
    }

    /// Takes how a sync went. One that failed is retried, in full if it was
    /// to be a full one.
    pub fn finished(&mut self, success: bool)
        ensures
            *final(self) == old(self).after_sync(success),
    {
        self.retrying = !success;
        if success {
            self.force_full = false;
        }
    }
}

/// The clock of the last completed sync of a replica.
pub open spec fn last_clock<T>(replica: ReplicaView<T>) -> Option<Option<Json>> {
    match replica.synced {
        Some(synced) => Some(synced.clock),
        None => None,
    }
}

/// Marks the sync of an event as in flight, and gives the clock of the last
/// completed sync: the lower bound for a fast-path since-query. With none
/// yet (the startup sync), the fast path is ineligible.
pub fn begin_sync<T: Copy>(state: &mut ServerState<T>, name: &str, seq: u64, now: T) -> (prev:
    Option<Clock>)
    requires
        old(state).well_formed(),
    ensures
        final(state).well_formed(),
        if old(state)@.replicas.dom().contains(name@) {
            &&& final(state)@ == (ServerView {
                replicas: old(state)@.replicas.insert(
                    name@,
                    ReplicaView {
                        syncing: Some(SyncingClock { seq, started_at: now }),
                        ..old(state)@.replicas[name@]
                    },
                ),
                ..old(state)@
            })
            &&& last_clock(old(state)@.replicas[name@]) == (match prev {
                Some(clock) => Some(clock_json(clock)),
                None => None,
            })
        } else {
            prev is None && final(state)@ == old(state)@
        },
{
    state.set_syncing(name, Some(SyncingClock { seq, started_at: now }));
    match state.replica(name) {
        Some(replica) => match replica.synced {
            Some(synced) => Some(synced.clock),
            None => None,
        },
        None => None,
    }
}

/// Records how the sync of an event went: a completed one advances the synced
/// clock to the event's, even where there was nothing to propagate, so that
/// barriers waiting on the event are released; a failed one only clears the
/// in-flight marker.
pub fn end_sync<T: Copy>(
    state: &mut ServerState<T>,
    name: &str,
    event: ChangeEvent,
    success: bool,
    now: T,
)
    requires
        old(state).well_formed(),
    ensures
        final(state).well_formed(),
        if success {
            final(state)@ == (ServerView {
                replicas: if old(state)@.replicas.dom().contains(name@) {
                    old(state)@.replicas.insert(
                        name@,
                        ReplicaView {
                            synced: Some(
                                SyncedView {
                                    seq: event.seq,
                                    clock: clock_json(event.clock),
                                    completed_at: now,
                                },
                            ),
                            syncing: None,
                            ..old(state)@.replicas[name@]
                        },
                    )
                } else {
                    old(state)@.replicas
                },
                synced_generation: old(state)@.synced_generation.wrapping_add(1),
                ..old(state)@
            })
        } else {
            final(state)@ == (ServerView {
                replicas: if old(state)@.replicas.dom().contains(name@) {
                    old(state)@.replicas.insert(
                        name@,
                        ReplicaView { syncing: None, ..old(state)@.replicas[name@] },
                    )
                } else {
                    old(state)@.replicas
                },
                ..old(state)@
            })
        },
{
    if success {
        state.record_synced(
            name,
            SyncedClock { seq: event.seq, clock: event.clock, completed_at: now },
        );
    } else {
        state.set_syncing(name, None);
    }
}

} // verus!
