//! `ds exec`: run a command on the sync target with the replica directory
//! as its CWD, after a barrier ensures the replica is up-to-date.
//!
//! For a remote target we run `ssh HOST 'cd PATH && exec CMD ARGS...'` with
//! each word shell-quoted (and `-t` when our stdin is a TTY); for a
//! local-path target we run the command directly with the replica as its
//! working directory. Either way the command is executed in place, so its
//! exit status, and signal disposition, is inherently our own.

use crate::barrier::{Outcome, TIMEOUT_EXIT_CODE};
use crate::command::{CommandLine, CommandView};
use crate::paths::{copy_bytes, lossy, lossy_text};
use crate::target::{Target, TargetView};
use crate::text::{chars_of, debug_text, group_views, quoted, views};
use vstd::prelude::*;
use vstd::utf8::encode_utf8;

verus! {

// ---------------------------------------------------------------------------
// Quoting
// ---------------------------------------------------------------------------
/// Whether a character stands for itself in a POSIX shell, wherever it
/// stands in a word.
pub open spec fn is_safe(c: char) -> bool {
    ('a' <= c && c <= 'z') || ('A' <= c && c <= 'Z') || ('0' <= c && c <= '9') || c == '@' || c
        == '%' || c == '+' || c == '=' || c == ':' || c == ',' || c == '.' || c == '/' || c == '_'
        || c == '-'
}

/// Whether a word needs no quotes.
pub open spec fn is_safe_word(s: Seq<char>) -> bool {
    s.len() > 0 && forall|i: int| 0 <= i < s.len() ==> is_safe(#[trigger] s[i])
}

/// One character inside single quotes: a single quote ends the quotes,
/// stands there escaped, and starts them again.
pub open spec fn inside_quotes(c: char) -> Seq<char> {
    if c == '\'' {
        seq!['\'', '\\', '\'', '\'']
    } else {
        seq![c]
    }
}

/// `s` as it stands inside single quotes.
pub open spec fn quoted_body(s: Seq<char>) -> Seq<char>
    decreases s.len(),
{
    if s.len() == 0 {
        s
    } else {
        quoted_body(s.drop_last()) + inside_quotes(s.last())
    }
}

/// One word for a POSIX shell.
pub open spec fn sh_quoted(s: Seq<char>) -> Seq<char> {
    if is_safe_word(s) {
        s
    } else {
        seq!['\''] + quoted_body(s) + seq!['\'']
    }
}

fn is_safe_char(c: char) -> (yes: bool)
    ensures
        yes == is_safe(c),
{
    ('a' <= c && c <= 'z') || ('A' <= c && c <= 'Z') || ('0' <= c && c <= '9') || c == '@' || c
        == '%' || c == '+' || c == '=' || c == ':' || c == ',' || c == '.' || c == '/' || c == '_'
        || c == '-'
}

/// Whether a word needs no quotes.
fn needs_no_quotes(chars: &[char]) -> (yes: bool)
    ensures
        yes == is_safe_word(chars@),
{
    if chars.len() == 0 {
        return false;
    }
    for i in 0..chars.len()
        invariant
            forall|k: int| 0 <= k < i ==> is_safe(#[trigger] chars@[k]),
    {
        if !is_safe_char(chars[i]) {
            return false;
        }
    }
    true
}

/// Quote one word for POSIX sh: pass obviously-safe words through, wrap
/// everything else in single quotes (with embedded `'` as `'\''`).
pub fn sh_quote(s: &str) -> (word: String)
    ensures
        word@ == sh_quoted(s@),
{
    let chars = chars_of(s);
    if needs_no_quotes(chars.as_slice()) {
        return s.to_string();
    }
    let mut word = String::new();
    word.push('\'');
    proof {
        assert(word@ =~= seq!['\''] + quoted_body(s@.take(0)));
    }
    for i in 0..chars.len()
        invariant
            chars@ == s@,
            word@ == seq!['\''] + quoted_body(s@.take(i as int)),
    {
        let c = chars[i];
        let ghost before = word@;
        if c == '\'' {
            word.push('\'');
            word.push('\\');
            word.push('\'');
            word.push('\'');
        } else {
            word.push(c);
        }
        proof {
            assert(s@.take(i + 1).drop_last() =~= s@.take(i as int));
            assert(word@ =~= before + inside_quotes(c));
            assert(word@ =~= seq!['\''] + quoted_body(s@.take(i + 1)));
        }
    }
    proof {
        assert(s@.take(s@.len() as int) =~= s@);
    }
    word.push('\'');
    proof {
        assert(word@ =~= seq!['\''] + quoted_body(s@) + seq!['\'']);
    }
    word
}

// ---------------------------------------------------------------------------
// The command
// ---------------------------------------------------------------------------
/// Words, each quoted and with a space before it.
pub open spec fn spaced(words: Seq<Seq<char>>) -> Seq<char>
    decreases words.len(),
{
    if words.len() == 0 {
        Seq::empty()
    } else {
        spaced(words.drop_last()).push(' ') + sh_quoted(words.last())
    }
}

/// The shell command that enters the replica and runs `words` in it.
pub open spec fn remote_script(path: Seq<char>, words: Seq<Seq<char>>) -> Seq<char> {
    "cd "@ + sh_quoted(path) + " && exec"@ + spaced(words)
}

/// Appends words, each quoted and with a space before it.
pub(crate) fn append_words(text: &mut String, words: &Vec<String>)
    ensures
        final(text)@ == old(text)@ + spaced(views(words@)),
{
    broadcast use group_views;

    let ghost all = views(words@);
    let ghost before = text@;
    proof {
        assert(before + spaced(all.take(0)) =~= before);
    }
    for i in 0..words.len()
        invariant
            all == views(words@),
            text@ == before + spaced(all.take(i as int)),
    {
        broadcast use group_views;

        proof {
            assert(all.take(i + 1).drop_last() =~= all.take(i as int));
            assert(all.take(i + 1).last() == words@[i as int]@);
        }
        let word = sh_quote(words[i].as_str());
        text.push(' ');
        text.append(word.as_str());
        proof {
            assert(text@ =~= before + spaced(all.take(i + 1)));
        }
    }
    proof {
        assert(all.take(all.len() as int) =~= all);
    }
}

/// The single shell command ssh runs on the remote: cd into the replica
/// and exec the argv, every word quoted for POSIX sh.
pub fn remote_command(path: &str, argv: &Vec<String>) -> (script: String)
    ensures
        script@ == remote_script(path@, views(argv@)),
{
    let mut script = "cd ".to_string();
    script.append(sh_quote(path).as_str());
    script.append(" && exec");
    append_words(&mut script, argv);
    script
}

/// The command to execute on a target.
pub open spec fn exec_command(target: TargetView, argv: Seq<Seq<char>>, tty: bool) -> CommandView {
    match target {
        TargetView::Local(path) => CommandView {
            program: argv[0],
            args: argv.skip(1).map_values(|word: Seq<char>| encode_utf8(word)),
            cwd: Some(path),
        },
        TargetView::Remote { host, path } => CommandView {
            program: "ssh"@,
            args: (if tty {
                seq![encode_utf8("-t"@)]
            } else {
                Seq::empty()
            }) + seq![encode_utf8(host), encode_utf8(remote_script(path, argv))],
            cwd: None,
        },
    }
}

/// Build the command to exec: the argv itself (CWD = replica) for a local
/// target, or an `ssh` invocation for a remote one. `tty` requests remote
/// TTY allocation (`ssh -t`); pass whether our own stdin is a TTY.
pub fn build_command(target: &Target, argv: &Vec<String>, tty: bool) -> (cmd: CommandLine)
    requires
        target@ is Local ==> argv@.len() > 0,
    ensures
        cmd@ == exec_command(target@, views(argv@), tty),
{
    broadcast use group_views;

    match target {
        Target::Local(path) => {
            let mut cmd = CommandLine::new(argv[0].as_str());
            let ghost words = views(argv@);
            let ghost all = words.skip(1).map_values(|word: Seq<char>| encode_utf8(word));
            proof {
                assert(cmd@.args =~= all.take(0));
            }
            for i in 1..argv.len()
                invariant
                    argv@.len() > 0,
                    words == views(argv@),
                    all == words.skip(1).map_values(|word: Seq<char>| encode_utf8(word)),
                    cmd@.program == words[0],
                    cmd@.cwd is None,
                    cmd@.args == all.take(i - 1),
            {
                broadcast use group_views;

                cmd.word(argv[i].as_str());
                proof {
                    assert(all.take(i as int) =~= all.take(i - 1).push(all[i - 1]));
                }
            }
            proof {
                assert(all.take(all.len() as int) =~= all);
            }
            cmd.current_dir(path.as_slice());
            cmd
        },
        Target::Remote { host, path } => {
            let mut cmd = CommandLine::new("ssh");
            if tty {
                cmd.word("-t");
            }
            cmd.word(host.as_str());
            let script = remote_command(path.as_str(), argv);
            cmd.word(script.as_str());
            proof {
                assert(cmd@.args =~= exec_command(target@, views(argv@), tty).args);
            }
            cmd
        },
    }
}

// ---------------------------------------------------------------------------
// Failures
// ---------------------------------------------------------------------------
/// Why executing a command failed.
#[derive(Debug, Clone, Copy, PartialEq, Eq)]
pub enum ExecFailure {
    /// There is no such program.
    NotFound,
    /// The program may not be executed.
    PermissionDenied,
    /// Anything else.
    Other,
}

/// The exit code for a command that could not be executed, as a shell has
/// it.
pub fn exec_exit_code(failure: ExecFailure) -> (code: i32)
    ensures
        code == (match failure {
            ExecFailure::NotFound => 127int,
            ExecFailure::PermissionDenied => 126,
            ExecFailure::Other => 1,
        }),
{
    match failure {
        ExecFailure::NotFound => 127,
        ExecFailure::PermissionDenied => 126,
        ExecFailure::Other => 1,
    }
}

/// What is said when the command for a target could not be executed.
pub fn exec_failure_message(target: &Target, argv: &Vec<String>, error: &str) -> (text: String)
    requires
        target@ is Local ==> argv@.len() > 0,
    ensures
        text@ == "ds exec: cannot execute "@ + (match target@ {
            TargetView::Local(_) => views(argv@)[0],
            TargetView::Remote { .. } => "ssh"@,
        }) + ": "@ + error@,
{
    broadcast use group_views;

    let mut text = "ds exec: cannot execute ".to_string();
    match target {
        Target::Local(_) => {
            text.append(argv[0].as_str());
        },
        Target::Remote { .. } => {
            text.append("ssh");
        },
    }
    text.append(": ");
    text.append(error);
    text
}

/// What is said when the directory to run in does not exist.
pub fn missing_replica_message(path: &[u8]) -> (text: String)
    ensures
        text@ == "replica directory "@ + lossy_text(path@)
            + " does not exist (has a sync completed?)"@,
{
    let mut text = "replica directory ".to_string();
    text.append(lossy(path).as_str());
    text.append(" does not exist (has a sync completed?)");
    text
}

/// What is said when the target that the server reports does not parse.
pub fn bad_target_message(target: &str) -> (text: String)
    ensures
        text@ == "cannot parse sync target "@ + debug_text(target@) + " reported by ds sync"@,
{
    let mut text = "cannot parse sync target ".to_string();
    text.append(quoted(target).as_str());
    text.append(" reported by ds sync");
    text
}

// ---------------------------------------------------------------------------
// The session
// ---------------------------------------------------------------------------
/// What `ds exec` is asked to do: run `argv` on `target`.
#[derive(Debug, Clone)]
pub struct ExecRequest {
    pub target: Target,
    pub argv: Vec<String>,
    /// Our own stdin is a TTY.
    pub tty: bool,
}

/// What has happened.
#[derive(Debug, Clone, Copy, PartialEq, Eq)]
pub enum ExecEvent {
    /// The server's target is known; `no_wait` declines the barrier.
    Started { no_wait: bool },
    /// The barrier is over.
    Waited(Outcome),
    /// Whether the local replica is a directory is known.
    Checked { is_dir: bool },
}

/// What to do next.
#[derive(Debug, Clone, PartialEq, Eq)]
pub enum ExecAction {
    /// Wait until the replica is up-to-date.
    Wait,
    /// Find out whether the local replica is a directory.
    Check(Vec<u8>),
    /// Execute the command in place.
    Run(CommandLine),
    /// Give up with an exit code; the command is not run.
    Exit(i32),
    /// Fail with a message; the command is not run.
    Fail(String),
}

/// What is done when nothing stands in the way of the command any more,
/// except that a local replica may be missing.
pub open spec fn proceeds(request: ExecRequest, action: ExecAction) -> bool {
    match request.target@ {
        TargetView::Local(path) => action matches ExecAction::Check(dir) && dir@ == path,
        TargetView::Remote { .. } => runs(request, action),
    }
}

/// The command is run.
pub open spec fn runs(request: ExecRequest, action: ExecAction) -> bool {
    action matches ExecAction::Run(cmd) && cmd@ == exec_command(
        request.target@,
        views(request.argv@),
        request.tty,
    )
}

/// What to do after an event: wait for the replica unless that was declined,
/// give up if the wait timed out, make sure that a local replica is there (a
/// clearer error than the one for a missing program, which would read as
/// "command not found"), and run the command.
pub fn cmd_exec(request: &ExecRequest, event: ExecEvent) -> (action: ExecAction)
    requires
        request.target@ is Local ==> request.argv@.len() > 0,
    ensures
        match event {
            ExecEvent::Started { no_wait } => if no_wait {
                proceeds(*request, action)
            } else {
                action is Wait
            },
            ExecEvent::Waited(Outcome::Synced) => proceeds(*request, action),
            ExecEvent::Waited(Outcome::TimedOut) => action == ExecAction::Exit(TIMEOUT_EXIT_CODE),
            ExecEvent::Checked { is_dir } => match request.target@ {
                TargetView::Local(path) if !is_dir => action matches ExecAction::Fail(text)
                    && text@ == "replica directory "@ + lossy_text(path)
                    + " does not exist (has a sync completed?)"@,
                _ => runs(*request, action),
            },
        },
{
    match event {
        ExecEvent::Started { no_wait } => {
            if !no_wait {
                return ExecAction::Wait;
            }
        },
        ExecEvent::Waited(Outcome::Synced) => {},
        ExecEvent::Waited(Outcome::TimedOut) => {
            return ExecAction::Exit(TIMEOUT_EXIT_CODE);
        },
        ExecEvent::Checked { is_dir } => {
            if let Target::Local(path) = &request.target {
                if !is_dir {
                    return ExecAction::Fail(missing_replica_message(path.as_slice()));
                }
            }
            return ExecAction::Run(build_command(&request.target, &request.argv, request.tty));
        },
    }
    match &request.target {
        Target::Local(path) => ExecAction::Check(copy_bytes(path.as_slice())),
        Target::Remote { .. } => ExecAction::Run(
            build_command(&request.target, &request.argv, request.tty),
        ),
    }
}

} // verus!
