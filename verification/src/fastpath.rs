//! The small-change fast path.
//!
//! For a handful of changed files, rsync's cost is dominated by scanning and
//! comparing the whole filesystem tree, not by sending data. When watchman
//! is healthy it tells us exactly which paths changed, so we can skip that
//! scan: query watchman for the changed *syncable* paths since the last
//! completed sync, then stream just those files (as a tar, zstd-compressed
//! when both ends have zstd) plus a deletion list to a thin shell unpacker
//! on the target.
//!
//! This path is a pure optimization guarded by a correctness valve: any
//! uncertainty (a watchman fresh instance, an untranslatable rule set, a
//! file that vanished mid-flight, an unpacker that fails) makes the caller
//! run a full rsync, which is always correct on its own.

use crate::command::{command, CommandLine, CommandView};
use crate::exec::{append_words, sh_quote, sh_quoted, spaced};
use crate::fastpath_laws::every_change_is_accounted_for;
use crate::paths::{append_bytes, copy_bytes, lossy, lossy_text};
use crate::target::{Target, TargetView};
use crate::text::{decimal, decimal_text, group_views, trim, trimmed, views};
use crate::wquery::{ChangedFile, ChangedFileView, SinceResult};
use vstd::prelude::*;
use vstd::utf8::encode_utf8;

verus! {

/// The fast path is appropriate for "O(1) files modified". Past these limits
/// a whole-tree rsync is competitive and the inline tar stream stops being a
/// win, so we fall back to rsync.
pub const MAX_FILES: usize = 64;

/// See [`MAX_FILES`].
pub const MAX_BYTES: u64 = 8 * 1024 * 1024;

/// Whether to zstd-compress the tar stream, decided once at startup by
/// [`detect_compression`].
#[derive(Debug, Clone, Copy, PartialEq, Eq, Structural)]
pub enum Compression {
    Uncompressed,
    Zstd,
}

/// The result of a fast-path attempt.
#[derive(Debug, Clone, PartialEq, Eq)]
pub enum Outcome {
    /// The changes were applied to the target; the sync is complete.
    Applied,
    /// Only ignored files (or nothing) changed since the last sync.
    NoChanges,
    /// The fast path declined (with a human-readable reason); the caller
    /// must run a full rsync instead. This is the correctness valve, not an
    /// error: the reason is expected (a fresh instance, an oversized change,
    /// a mid-flight race), not a failure.
    Fallback(String),
}

// ---------------------------------------------------------------------------
// Which files to send
// ---------------------------------------------------------------------------
/// Whether a changed path is to be sent: it exists and is no directory. (A
/// directory's files arrive as their own entries, and tar recreates parents
/// on extract.)
pub open spec fn is_sent(file: ChangedFileView) -> bool {
    file.exists && file.file_type != Some("d"@)
}

/// The changed paths to send.
pub open spec fn sends_of(files: Seq<ChangedFileView>) -> Seq<Seq<u8>>
    decreases files.len(),
{
    if files.len() == 0 {
        Seq::empty()
    } else if is_sent(files.last()) {
        sends_of(files.drop_last()).push(files.last().name)
    } else {
        sends_of(files.drop_last())
    }
}

/// The changed paths to delete.
pub open spec fn deletes_of(files: Seq<ChangedFileView>) -> Seq<Seq<u8>>
    decreases files.len(),
{
    if files.len() == 0 {
        Seq::empty()
    } else if !files.last().exists {
        deletes_of(files.drop_last()).push(files.last().name)
    } else {
        deletes_of(files.drop_last())
    }
}

/// What the changes since the last sync call for.
#[derive(Debug, Clone, PartialEq, Eq)]
pub enum Plan {
    /// The attempt is over.
    Done(Outcome),
    /// Send and delete these paths, if the files to send fit the byte budget
    /// (see [`check_budget`]).
    Apply { sends: Vec<Vec<u8>>, deletes: Vec<Vec<u8>> },
}

/// Sorts the changed paths into those to send and those to delete.
fn sort_changes(files: &Vec<ChangedFile>) -> (sorted: (Vec<Vec<u8>>, Vec<Vec<u8>>))
    ensures
        views(sorted.0@) == sends_of(views(files@)),
        views(sorted.1@) == deletes_of(views(files@)),
{
    broadcast use group_views;

    let ghost all = views(files@);
    let mut sends: Vec<Vec<u8>> = Vec::new();
    let mut deletes: Vec<Vec<u8>> = Vec::new();
    for i in 0..files.len()
        invariant
            all == views(files@),
            views(sends@) == sends_of(all.take(i as int)),
            views(deletes@) == deletes_of(all.take(i as int)),
    {
        broadcast use group_views;

        proof {
            assert(all.take(i + 1).drop_last() =~= all.take(i as int));
            assert(all.take(i + 1).last() == files@[i as int]@);
        }
        let file = &files[i];
        if !file.exists {
            // Deletions cover files and directories alike; `rm -rf` on the
            // remote handles either. (A deleted path that was ignored never
            // appears here, since the expression excludes it, so remote-only
            // build artifacts are never deleted.)
            deletes.push(copy_bytes(file.name.as_slice()));
        } else if !file.is_dir() {
            // A regular file, symlink, etc.: send it verbatim.
            sends.push(copy_bytes(file.name.as_slice()));
        }
    }
    proof {
        assert(all.take(all.len() as int) =~= all);
    }
    (sends, deletes)
}

/// What is said of a change with too many files.
pub open spec fn too_many_files_text(count: nat) -> Seq<char> {
    decimal(count) + " changed files exceed the fast-path limit of "@ + decimal(MAX_FILES as nat)
}

/// What the paths changed since the last completed sync that are not ignored
/// call for.
pub fn plan_changes(result: &SinceResult) -> (plan: Plan)
    ensures
        if result.is_fresh_instance {
            plan matches Plan::Done(Outcome::Fallback(why)) && why@
                == "watchman reported a fresh instance"@
        } else if sends_of(views(result.files@)).len() == 0 && deletes_of(
            views(result.files@),
        ).len() == 0 {
            plan == Plan::Done(Outcome::NoChanges)
        } else if sends_of(views(result.files@)).len() > MAX_FILES {
            plan matches Plan::Done(Outcome::Fallback(why)) && why@ == too_many_files_text(
                sends_of(views(result.files@)).len(),
            )
        } else {
            plan matches Plan::Apply { sends, deletes } && views(sends@) == sends_of(
                views(result.files@),
            ) && views(deletes@) == deletes_of(views(result.files@))
        },
        plan == Plan::Done(Outcome::NoChanges) ==> forall|k: int|
            0 <= k < result.files@.len() ==> (#[trigger] result.files@[k]).exists
                && result.files@[k]@.file_type == Some("d"@),
        plan matches Plan::Apply { sends, deletes } ==> forall|k: int|
            0 <= k < result.files@.len() ==> {
                let file = #[trigger] result.files@[k];
                &&& file.exists && file@.file_type != Some("d"@) ==> views(sends@).contains(
                    file.name@,
                )
                &&& !file.exists ==> views(deletes@).contains(file.name@)
            },
{
    broadcast use group_views;

    proof {
        let all = views(result.files@);
        assert forall|k: int| 0 <= k < result.files@.len() implies {
            let file = #[trigger] result.files@[k];
            &&& file.exists && file@.file_type != Some("d"@) ==> sends_of(all).contains(file.name@)
            &&& !file.exists ==> deletes_of(all).contains(file.name@)
        } by {
            assert(all[k] == result.files@[k]@);
            every_change_is_accounted_for(all, k);
        }
    }
    if result.is_fresh_instance {
        // The clock belongs to a dead watchman instance: the result covers
        // the whole tree and we must resync everything.
        return Plan::Done(Outcome::Fallback("watchman reported a fresh instance".to_string()));
    }
    let (sends, deletes) = sort_changes(&result.files);
    if sends.len() == 0 && deletes.len() == 0 {
        return Plan::Done(Outcome::NoChanges);
    }
    if sends.len() > MAX_FILES {
        let mut why = decimal_text(sends.len() as u64);
        why.append(" changed files exceed the fast-path limit of ");
        why.append(decimal_text(MAX_FILES as u64).as_str());
        return Plan::Done(Outcome::Fallback(why));
    }
    Plan::Apply { sends, deletes }
}

// ---------------------------------------------------------------------------
// The byte budget
// ---------------------------------------------------------------------------
/// What looking at a file to send told (without following a symlink).
#[derive(Debug, Clone, PartialEq, Eq)]
pub enum FileSize {
    /// It is this large.
    Bytes(u64),
    /// It is gone.
    Vanished,
    /// It could not be looked at, for the given reason.
    Failed(String),
}

/// The sum of the sizes of the first `n` files.
pub open spec fn total_bytes(sizes: Seq<FileSize>, n: int) -> nat
    decreases n,
{
    if n <= 0 {
        0
    } else {
        total_bytes(sizes, n - 1) + (match sizes[n - 1] {
            FileSize::Bytes(len) => len as nat,
            _ => 0,
        })
    }
}

/// Whether the first `n` files are there and fit the budget.
pub open spec fn fits(sizes: Seq<FileSize>, n: int) -> bool {
    total_bytes(sizes, n) <= MAX_BYTES && forall|k: int|
        0 <= k < n ==> (#[trigger] sizes[k]) is Bytes
}

/// Why the files to send cannot be sent.
#[derive(Debug, Clone, PartialEq, Eq)]
pub enum OverBudget {
    /// The fast path declines, for the given reason.
    Decline(String),
    /// The fast path fails: the file could not be looked at, for the given
    /// reason.
    Fail { path: Vec<u8>, cause: String },
}

/// What is said of files that are too large together.
pub open spec fn too_many_bytes_text() -> Seq<char> {
    "changed files exceed the fast-path byte budget of "@ + decimal(MAX_BYTES as nat)
}

/// Why file `n` keeps the files from being sent.
pub open spec fn stops(
    sends: Seq<Seq<u8>>,
    sizes: Seq<FileSize>,
    n: int,
    why: OverBudget,
) -> bool {
    match sizes[n] {
        FileSize::Bytes(_) => total_bytes(sizes, n + 1) > MAX_BYTES && (
        why matches OverBudget::Decline(text) && text@ == too_many_bytes_text()),
        // The file lost a race with a delete: the full rsync settles the
        // true state.
        FileSize::Vanished => why matches OverBudget::Decline(text) && text@ == lossy_text(sends[n])
            + " vanished mid-fast-path"@,
        FileSize::Failed(reason) => why matches OverBudget::Fail { path, cause } && path@
            == sends[n] && cause@ == reason@,
    }
}

/// Checks the files to send, in order, against the byte budget, where
/// `sizes` says how large each of them is. The first file that is gone,
/// cannot be looked at or exceeds the budget decides.
pub fn check_budget(sends: &Vec<Vec<u8>>, sizes: &Vec<FileSize>) -> (checked: Result<
    (),
    OverBudget,
>)
    requires
        sends@.len() == sizes@.len(),
    ensures
        match checked {
            Ok(_) => fits(sizes@, sizes@.len() as int),
            Err(why) => exists|n: int|
                0 <= n < sizes@.len() && fits(sizes@, n) && #[trigger] stops(
                    views(sends@),
                    sizes@,
                    n,
                    why,
                ),
        },
{
    broadcast use group_views;

    let mut total: u64 = 0;
    for i in 0..sizes.len()
        invariant
            sends@.len() == sizes@.len(),
            total == total_bytes(sizes@, i as int),
            fits(sizes@, i as int),
    {
        broadcast use group_views;

        match &sizes[i] {
            FileSize::Bytes(len) => {
                if *len > MAX_BYTES - total {
                    let mut text = "changed files exceed the fast-path byte budget of ".to_string();
                    text.append(decimal_text(MAX_BYTES).as_str());
                    let why = OverBudget::Decline(text);
                    proof {
                        assert(stops(views(sends@), sizes@, i as int, why));
                    }
                    return Err(why);
                }
                total = total + *len;
            },
            FileSize::Vanished => {
                let mut text = lossy(sends[i].as_slice());
                text.append(" vanished mid-fast-path");
                let why = OverBudget::Decline(text);
                proof {
                    assert(stops(views(sends@), sizes@, i as int, why));
                }
                return Err(why);
            },
            FileSize::Failed(reason) => {
                let why = OverBudget::Fail {
                    path: copy_bytes(sends[i].as_slice()),
                    cause: reason.clone(),
                };
                proof {
                    assert(stops(views(sends@), sizes@, i as int, why));
                }
                return Err(why);
            },
        }
    }
    Ok(())
}

// ---------------------------------------------------------------------------
// Streaming them
// ---------------------------------------------------------------------------
/// The command that tells whether zstd is there: on this machine, or on the
/// given host.
pub open spec fn zstd_probe(host: Option<Seq<char>>) -> CommandView {
    match host {
        None => command("zstd"@, seq!["-V"@]),
        Some(name) => command("ssh"@, seq![name, "command -v zstd"@]),
    }
}

/// The command that tells whether zstd is there: on this machine, or on the
/// given host.
pub fn has_zstd(host: Option<&str>) -> (cmd: CommandLine)
    ensures
        cmd@ == zstd_probe(crate::text::opt_text(host)),
{
    match host {
        None => {
            let mut cmd = CommandLine::new("zstd");
            cmd.word("-V");
            proof {
                assert(cmd@.args =~= command("zstd"@, seq!["-V"@]).args);
            }
            cmd
        },
        Some(name) => {
            let mut cmd = CommandLine::new("ssh");
            cmd.word(name);
            cmd.word("command -v zstd");
            proof {
                assert(cmd@.args =~= command("ssh"@, seq![name@, "command -v zstd"@]).args);
            }
            cmd
        },
    }
}

/// Whether streams to `target` are compressed, given whether zstd was found
/// on this machine and on the target's host. Local-path syncs copy on one
/// machine with no network, so compression is pointless and skipped.
pub fn detect_compression(target: &Target, local_zstd: bool, remote_zstd: bool) -> (c: Compression)
    ensures
        c is Zstd <==> target@ is Remote && local_zstd && remote_zstd,
{
    match target {
        Target::Remote { .. } => {
            if local_zstd && remote_zstd {
                Compression::Zstd
            } else {
                Compression::Uncompressed
            }
        },
        Target::Local(_) => Compression::Uncompressed,
    }
}

/// The words that make tar archive the files named on its standard input.
pub open spec fn tar_words(compression: Compression) -> Seq<Seq<char>> {
    seq!["--null"@, "-T"@, "-"@, "-f"@, "-"@] + (if compression is Zstd {
        seq!["--zstd"@]
    } else {
        Seq::empty()
    })
}

/// The command that archives files of the repository, whose names it reads
/// from its standard input.
pub open spec fn tar_command(repo_root: Seq<u8>, compression: Compression) -> CommandView {
    CommandView {
        program: "tar"@,
        args: seq![encode_utf8("-c"@), encode_utf8("-C"@), repo_root] + tar_words(
            compression,
        ).map_values(|word: Seq<char>| encode_utf8(word)),
        cwd: None,
    }
}

/// Names, each ended by a zero byte.
pub open spec fn zero_ended(names: Seq<Seq<u8>>) -> Seq<u8>
    decreases names.len(),
{
    if names.len() == 0 {
        Seq::empty()
    } else {
        (zero_ended(names.drop_last()) + names.last()).push(0)
    }
}

/// The command that builds a tar archive of `sends` (paths relative to
/// `repo_root`), and what it reads from its standard input: the names, each
/// ended by a zero byte, so any other byte is safe in a filename.
pub fn build_tar(repo_root: &[u8], sends: &Vec<Vec<u8>>, compression: Compression) -> (tar: (
    CommandLine,
    Vec<u8>,
))
    ensures
        tar.0@ == tar_command(repo_root@, compression),
        tar.1@ == zero_ended(views(sends@)),
{
    broadcast use group_views;

    let mut cmd = CommandLine::new("tar");
    cmd.word("-c");
    cmd.word("-C");
    cmd.arg(repo_root);
    cmd.word("--null");
    cmd.word("-T");
    cmd.word("-");
    cmd.word("-f");
    cmd.word("-");
    if let Compression::Zstd = compression {
        cmd.word("--zstd");
    }
    proof {
        assert(cmd@.args =~= tar_command(repo_root@, compression).args);
    }
    let ghost all = views(sends@);
    let mut names: Vec<u8> = Vec::new();
    for i in 0..sends.len()
        invariant
            all == views(sends@),
            names@ == zero_ended(all.take(i as int)),
    {
        broadcast use group_views;

        proof {
            assert(all.take(i + 1).drop_last() =~= all.take(i as int));
            assert(all.take(i + 1).last() == sends@[i as int]@);
        }
        append_bytes(&mut names, sends[i].as_slice());
        names.push(0);
    }
    proof {
        assert(all.take(all.len() as int) =~= all);
    }
    (cmd, names)
}

/// The texts of paths.
pub open spec fn lossy_texts(paths: Seq<Seq<u8>>) -> Seq<Seq<char>> {
    paths.map_values(|path: Seq<u8>| lossy_text(path))
}

/// The shell command that applies deletions and extracts an archive.
pub open spec fn unpacker_text(
    deletes: Seq<Seq<u8>>,
    has_sends: bool,
    compression: Compression,
) -> Seq<char> {
    let removal = "rm -rf --"@ + spaced(lossy_texts(deletes));
    let extraction = if compression is Zstd {
        "tar -x --zstd -f -"@
    } else {
        "tar -x -f -"@
    };
    if deletes.len() == 0 {
        if has_sends {
            extraction
        } else {
            Seq::empty()
        }
    } else if has_sends {
        removal + " && "@ + extraction
    } else {
        removal
    }
}

/// The strings that stand for paths.
fn lossy_strings(paths: &Vec<Vec<u8>>) -> (texts: Vec<String>)
    ensures
        views(texts@) == lossy_texts(views(paths@)),
{
    broadcast use group_views;

    let ghost all = lossy_texts(views(paths@));
    let mut texts: Vec<String> = Vec::new();
    for i in 0..paths.len()
        invariant
            all == lossy_texts(views(paths@)),
            views(texts@) == all.take(i as int),
    {
        broadcast use group_views;

        texts.push(lossy(paths[i].as_slice()));
        proof {
            assert(all.take(i + 1) =~= all.take(i as int).push(all[i as int]));
        }
    }
    proof {
        assert(all.take(all.len() as int) =~= all);
    }
    texts
}

/// The shell command the target runs: apply deletions (relative to the CWD,
/// which the caller has set to the replica), then extract the tar from
/// stdin. Returns a single line suitable for `sh -c` or as the argument to
/// `ssh host`.
pub fn unpacker_script(deletes: &Vec<Vec<u8>>, has_sends: bool, compression: Compression) -> (script:
    String)
    ensures
        script@ == unpacker_text(views(deletes@), has_sends, compression),
{
    broadcast use group_views;

    let mut script = String::new();
    let ghost removal = "rm -rf --"@ + spaced(lossy_texts(views(deletes@)));
    if deletes.len() > 0 {
        // `rm -rf` covers deleted files and directories; `--` guards paths
        // that begin with `-`. Missing paths are not an error for `rm -f`.
        script.append("rm -rf --");
        let texts = lossy_strings(deletes);
        append_words(&mut script, &texts);
        proof {
            assert(script@ =~= removal);
        }
        if has_sends {
            script.append(" && ");
        }
    }
    let ghost before = script@;
    if has_sends {
        match compression {
            Compression::Zstd => {
                script.append("tar -x --zstd -f -");
            },
            Compression::Uncompressed => {
                script.append("tar -x -f -");
            },
        }
    }
    proof {
        if deletes@.len() == 0 {
            assert(Seq::<char>::empty() + "tar -x --zstd -f -"@ =~= "tar -x --zstd -f -"@);
            assert(Seq::<char>::empty() + "tar -x -f -"@ =~= "tar -x -f -"@);
        }
    }
    script
}

/// The command that runs a script in the replica.
pub open spec fn unpack_command(target: TargetView, script: Seq<char>) -> CommandView {
    match target {
        TargetView::Local(path) => CommandView {
            cwd: Some(path),
            ..command("sh"@, seq!["-c"@, script])
        },
        TargetView::Remote { host, path } => command(
            "ssh"@,
            seq![host, "cd "@ + sh_quoted(path) + " && "@ + script],
        ),
    }
}

/// The command that applies `deletes` and, if there are files to send,
/// extracts the archive on its standard input in the replica: with the
/// replica as its working directory for a local-path target, or by entering
/// it on the far side for a remote one.
pub fn apply(
    target: &Target,
    deletes: &Vec<Vec<u8>>,
    has_sends: bool,
    compression: Compression,
) -> (cmd: CommandLine)
    ensures
        cmd@ == unpack_command(
            target@,
            unpacker_text(views(deletes@), has_sends, compression),
        ),
{
    let script = unpacker_script(deletes, has_sends, compression);
    match target {
        Target::Local(path) => {
            let mut cmd = CommandLine::new("sh");
            cmd.word("-c");
            cmd.word(script.as_str());
            cmd.current_dir(path.as_slice());
            proof {
                assert(cmd@.args =~= unpack_command(target@, script@).args);
            }
            cmd
        },
        Target::Remote { host, path } => {
            let mut remote = "cd ".to_string();
            remote.append(sh_quote(path.as_str()).as_str());
            remote.append(" && ");
            remote.append(script.as_str());
            let mut cmd = CommandLine::new("ssh");
            cmd.word(host.as_str());
            cmd.word(remote.as_str());
            proof {
                assert(cmd@.args =~= unpack_command(target@, script@).args);
            }
            cmd
        },
    }
}

/// What is said of a program that failed: how it exited and what it wrote to
/// its standard error.
pub fn exit_failure(program: &str, status: &str, stderr: &[u8]) -> (text: String)
    ensures
        text@ == program@ + " exited with "@ + status@ + ": "@ + trimmed(lossy_text(stderr@)),
{
    let mut text = program.to_string();
    text.append(" exited with ");
    text.append(status);
    text.append(": ");
    text.append(trim(lossy(stderr).as_str()).as_str());
    text
}

// ---------------------------------------------------------------------------
// One attempt
// ---------------------------------------------------------------------------
/// An attempt to sync changes via the fast path.
#[derive(Debug)]
pub struct FastAttempt {
    pub repo_root: Vec<u8>,
    pub target: Target,
    pub compression: Compression,
    /// The paths changed since the last completed sync that are not ignored,
    /// deletions included.
    pub changes: SinceResult,
}

/// How far an attempt has come.
#[derive(Debug)]
pub enum FastProgress {
    /// The changes are known.
    Queried,
    /// The files to send have been looked at.
    Measured(Vec<FileSize>),
    /// The files to send are in an archive.
    Archived,
    /// The target has applied the changes.
    Unpacked,
}

/// What an attempt does next.
#[derive(Debug)]
pub enum FastStep {
    /// It is over.
    Done(Outcome),
    /// It has failed: the file could not be looked at, for the given reason.
    Fail { path: Vec<u8>, cause: String },
    /// Look at these files, without following symlinks.
    Measure(Vec<Vec<u8>>),
    /// Run the command with these bytes on its standard input; its output is
    /// the archive.
    Archive { cmd: CommandLine, names: Vec<u8> },
    /// Run the command with the archive, if there is one, on its standard
    /// input.
    Unpack(CommandLine),
}

impl FastAttempt {
    /// The files to send.
    pub open spec fn sends(self) -> Seq<Seq<u8>> {
        sends_of(views(self.changes.files@))
    }

    /// The paths to delete.
    pub open spec fn deletes(self) -> Seq<Seq<u8>> {
        deletes_of(views(self.changes.files@))
    }

    /// The command that applies the changes on the target.
    pub open spec fn unpacking(self) -> CommandView {
        unpack_command(
            self.target@,
            unpacker_text(self.deletes(), self.sends().len() > 0, self.compression),
        )
    }

    /// What is done once the changes are known.
    pub open spec fn after_query(self, step: FastStep) -> bool {
        if self.changes.is_fresh_instance {
            step matches FastStep::Done(Outcome::Fallback(why)) && why@
                == "watchman reported a fresh instance"@
        } else if self.sends().len() == 0 && self.deletes().len() == 0 {
            step == FastStep::Done(Outcome::NoChanges)
        } else if self.sends().len() > MAX_FILES {
            step matches FastStep::Done(Outcome::Fallback(why)) && why@ == too_many_files_text(
                self.sends().len(),
            )
        } else {
            step matches FastStep::Measure(paths) && views(paths@) == self.sends()
        }
    }

    /// What is done once the files to send have been looked at.
    pub open spec fn after_measuring(self, sizes: Seq<FileSize>, step: FastStep) -> bool {
        if fits(sizes, sizes.len() as int) {
            if self.sends().len() > 0 {
                step matches FastStep::Archive { cmd, names } && cmd@ == tar_command(
                    self.repo_root@,
                    self.compression,
                ) && names@ == zero_ended(self.sends())
            } else {
                step matches FastStep::Unpack(cmd) && cmd@ == self.unpacking()
            }
        } else {
            exists|n: int|
                0 <= n < sizes.len() && fits(sizes, n) && #[trigger] gives_up(
                    self.sends(),
                    sizes,
                    n,
                    step,
                )
        }
    }
}

/// Whether `step` gives an attempt up because of file `n`.
pub open spec fn gives_up(
    sends: Seq<Seq<u8>>,
    sizes: Seq<FileSize>,
    n: int,
    step: FastStep,
) -> bool {
    match step {
        FastStep::Done(Outcome::Fallback(why)) => stops(sends, sizes, n, OverBudget::Decline(why)),
        FastStep::Fail { path, cause } => stops(sends, sizes, n, OverBudget::Fail { path, cause }),
        _ => false,
    }
}

proof fn lemma_stop_is_no_fit(sends: Seq<Seq<u8>>, sizes: Seq<FileSize>, n: int, why: OverBudget)
    requires
        0 <= n < sizes.len(),
        stops(sends, sizes, n, why),
    ensures
        !fits(sizes, sizes.len() as int),
{
    if sizes[n] is Bytes {
        lemma_total_grows(sizes, n + 1, sizes.len() as int);
    }
}

proof fn lemma_total_grows(sizes: Seq<FileSize>, m: int, n: int)
    requires
        0 <= m <= n,
    ensures
        total_bytes(sizes, m) <= total_bytes(sizes, n),
    decreases n - m,
{
    if m < n {
        lemma_total_grows(sizes, m, n - 1);
    }
}

/// What a fast-path attempt does next: decline where a full rsync is called
/// for, make sure that the files to send are there and few and small enough,
/// archive them, and have the target delete and extract.
pub fn try_fast_path(attempt: &FastAttempt, progress: &FastProgress) -> (step: FastStep)
    requires
        progress matches FastProgress::Measured(sizes) ==> sizes@.len() == attempt.sends().len(),
    ensures
        match *progress {
            FastProgress::Queried => attempt.after_query(step),
            FastProgress::Measured(sizes) => attempt.after_measuring(sizes@, step),
            FastProgress::Archived => step matches FastStep::Unpack(cmd) && cmd@
                == attempt.unpacking(),
            FastProgress::Unpacked => step == FastStep::Done(Outcome::Applied),
        },
{
    broadcast use group_views;

    match progress {
        FastProgress::Queried => match plan_changes(&attempt.changes) {
            Plan::Done(outcome) => FastStep::Done(outcome),
            Plan::Apply { sends, .. } => FastStep::Measure(sends),
        },
        FastProgress::Measured(sizes) => {
            let (sends, deletes) = sort_changes(&attempt.changes.files);
            match check_budget(&sends, sizes) {
                Ok(_) => {
                    if sends.len() > 0 {
                        let (cmd, names) = build_tar(
                            attempt.repo_root.as_slice(),
                            &sends,
                            attempt.compression,
                        );
                        FastStep::Archive { cmd, names }
                    } else {
                        FastStep::Unpack(
                            apply(&attempt.target, &deletes, false, attempt.compression),
                        )
                    }
                },
                Err(why) => {
                    let ghost given = why;
                    let ghost n = choose|n: int|
                        0 <= n < sizes@.len() && fits(sizes@, n) && #[trigger] stops(
                            views(sends@),
                            sizes@,
                            n,
                            given,
                        );
                    proof {
                        lemma_stop_is_no_fit(views(sends@), sizes@, n, given);
                    }
                    let step = match why {
                        OverBudget::Decline(text) => FastStep::Done(Outcome::Fallback(text)),
                        OverBudget::Fail { path, cause } => FastStep::Fail { path, cause },
                    };
                    proof {
                        assert(gives_up(views(sends@), sizes@, n, step));
                    }
                    step
                },
            }
        },
        FastProgress::Archived => {
            let (sends, deletes) = sort_changes(&attempt.changes.files);
            FastStep::Unpack(
                apply(&attempt.target, &deletes, sends.len() > 0, attempt.compression),
            )
        },
        FastProgress::Unpacked => FastStep::Done(Outcome::Applied),
    }
}

} // verus!
