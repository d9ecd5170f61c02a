//! Command lines to run.

use crate::paths::{bytes_of, copy_bytes};
use crate::text::{group_views, opt_view, views};
use vstd::prelude::*;
use vstd::utf8::encode_utf8;

verus! {

/// A program to run, its arguments, and the directory to run it in where it
/// is not the current one.
#[derive(Debug, Clone, PartialEq, Eq)]
pub struct CommandLine {
    pub program: String,
    pub args: Vec<Vec<u8>>,
    pub cwd: Option<Vec<u8>>,
}

/// What a [`CommandLine`] stands for.
pub struct CommandView {
    pub program: Seq<char>,
    pub args: Seq<Seq<u8>>,
    pub cwd: Option<Seq<u8>>,
}

impl View for CommandLine {
    type V = CommandView;

    open spec fn view(&self) -> CommandView {
        CommandView { program: self.program@, args: views(self.args@), cwd: opt_view(self.cwd) }
    }
}

/// The command line that runs `program` with the given words.
pub open spec fn command(program: Seq<char>, words: Seq<Seq<char>>) -> CommandView {
    CommandView {
        program,
        args: words.map_values(|word: Seq<char>| encode_utf8(word)),
        cwd: None,
    }
}

impl CommandLine {
    /// A program without arguments.
    pub fn new(program: &str) -> (cmd: CommandLine)
        ensures
            cmd@ == command(program@, Seq::empty()),
    {
        broadcast use group_views;

        let cmd = CommandLine { program: program.to_string(), args: Vec::new(), cwd: None };
        proof {
            assert(cmd@.args =~= command(program@, Seq::empty()).args);
        }
        cmd
    }

    /// Adds one argument.
    pub fn word(&mut self, word: &str)
        ensures
            final(self)@ == (CommandView {
                args: old(self)@.args.push(encode_utf8(word@)),
                ..old(self)@
            }),
    {
        broadcast use group_views;

        self.args.push(bytes_of(word));
    }

    /// Adds one argument that need not be text.
    pub fn arg(&mut self, arg: &[u8])
        ensures
            final(self)@ == (CommandView { args: old(self)@.args.push(arg@), ..old(self)@ }),
    {
        broadcast use group_views;

        self.args.push(copy_bytes(arg));
    }

    /// Sets the directory to run in.
    pub fn current_dir(&mut self, dir: &[u8])
        ensures
            final(self)@ == (CommandView { cwd: Some(dir@), ..old(self)@ }),
    {
        self.cwd = Some(copy_bytes(dir));
    }
}

/// Each word becomes one argument, in order.
pub proof fn words_become_arguments(program: Seq<char>, words: Seq<Seq<char>>)
    ensures
        command(program, words).program == program,
        command(program, words).cwd is None,
        command(program, words).args.len() == words.len(),
        forall|k: int|
            0 <= k < words.len() ==> #[trigger] command(program, words).args[k] == encode_utf8(
                words[k],
            ),
{
}

} // verus!
