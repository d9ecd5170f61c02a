//! The scripts run over ssh mean what they are made of.
//!
//! A POSIX shell reads a command as words: spaces separate them, single
//! quotes take everything up to the next one as it is, a backslash takes the
//! next character as it is, and some characters stand for themselves. This
//! module states how the scripts read so.

use crate::exec::{
    exec_command, inside_quotes, is_safe, is_safe_word, proceeds, quoted_body, remote_script, runs,
    sh_quoted, spaced, ExecAction, ExecRequest,
};
use crate::target::TargetView;
use crate::text::views;
use vstd::prelude::*;
use vstd::utf8::encode_utf8;

verus! {

/// `word`, or nothing, followed by `c`.
pub open spec fn extended(word: Option<Seq<char>>, c: char) -> Option<Seq<char>> {
    match word {
        Some(w) => Some(w.push(c)),
        None => Some(seq![c]),
    }
}

/// The words that a shell reads in `text`, of which `word` has been read so
/// far; `quoting` says whether we are inside single quotes. `None` if the
/// text is no plain list of words: a quote is not closed, or a character has
/// a meaning of its own.
pub open spec fn read_words(text: Seq<char>, word: Option<Seq<char>>, quoting: bool) -> Option<
    Seq<Seq<char>>,
>
    decreases text.len(),
{
    if text.len() == 0 {
        if quoting {
            None
        } else {
            match word {
                Some(w) => Some(seq![w]),
                None => Some(Seq::empty()),
            }
        }
    } else {
        let c = text[0];
        let rest = text.skip(1);
        if quoting {
            if c == '\'' {
                read_words(rest, word, false)
            } else {
                read_words(rest, extended(word, c), true)
            }
        } else if c == ' ' {
            match word {
                Some(w) => match read_words(rest, None, false) {
                    Some(words) => Some(seq![w] + words),
                    None => None,
                },
                None => read_words(rest, None, false),
            }
        } else if c == '\'' {
            read_words(
                rest,
                match word {
                    Some(w) => Some(w),
                    None => Some(Seq::empty()),
                },
                true,
            )
        } else if c == '\\' {
            if rest.len() > 0 && rest[0] != '\n' {
                read_words(rest.skip(1), extended(word, rest[0]), false)
            } else {
                None
            }
        } else if is_safe(c) {
            read_words(rest, extended(word, c), false)
        } else {
            None
        }
    }
}

/// The words that a shell reads in `text`.
pub open spec fn sh_words(text: Seq<char>) -> Option<Seq<Seq<char>>> {
    read_words(text, None, false)
}

proof fn lemma_quoted_body_front(s: Seq<char>)
    requires
        s.len() > 0,
    ensures
        quoted_body(s) == inside_quotes(s[0]) + quoted_body(s.skip(1)),
    decreases s.len(),
{
    if s.len() == 1 {
        assert(s.drop_last() =~= Seq::empty());
        assert(s.skip(1) =~= Seq::empty());
        assert(quoted_body(s) =~= inside_quotes(s[0]) + quoted_body(s.skip(1)));
    } else {
        lemma_quoted_body_front(s.drop_last());
        assert(s.drop_last().skip(1) =~= s.skip(1).drop_last());
        assert(quoted_body(s) =~= inside_quotes(s[0]) + quoted_body(s.skip(1)));
    }
}

proof fn lemma_read_quoted(s: Seq<char>, rest: Seq<char>, word: Seq<char>)
    ensures
        read_words(quoted_body(s) + seq!['\''] + rest, Some(word), true) == read_words(
            rest,
            Some(word + s),
            false,
        ),
    decreases s.len(),
{
    let text = quoted_body(s) + seq!['\''] + rest;
    if s.len() == 0 {
        assert(text[0] == '\'');
        assert(text.skip(1) =~= rest);
        assert(word + s =~= word);
    } else {
        let c = s[0];
        let tail = quoted_body(s.skip(1)) + seq!['\''] + rest;
        lemma_quoted_body_front(s);
        lemma_read_quoted(s.skip(1), rest, word.push(c));
        assert(word.push(c) + s.skip(1) =~= word + s);
        assert(text =~= inside_quotes(c) + tail);
        if c == '\'' {
            reveal_with_fuel(read_words, 5);
            let t1 = text.skip(1);
            assert(text[0] == '\'');
            assert(t1[0] == '\\');
            let t2 = t1.skip(1);
            assert(t2[0] == '\'');
            let t3 = t2.skip(1);
            assert(t3[0] == '\'');
            assert(t3.skip(1) =~= tail);
            assert(read_words(text, Some(word), true) == read_words(t1, Some(word), false));
            assert(read_words(t1, Some(word), false) == read_words(t3, Some(word.push(c)), false));
            assert(read_words(t3, Some(word.push(c)), false) == read_words(
                tail,
                Some(word.push(c)),
                true,
            ));
        } else {
            assert(text[0] == c);
            assert(text.skip(1) =~= tail);
        }
    }
}

proof fn lemma_read_safe(s: Seq<char>, rest: Seq<char>, word: Option<Seq<char>>)
    requires
        forall|i: int| 0 <= i < s.len() ==> is_safe(#[trigger] s[i]),
        s.len() > 0 || word is Some,
    ensures
        read_words(s + rest, word, false) == read_words(
            rest,
            Some(
                match word {
                    Some(w) => w + s,
                    None => s,
                },
            ),
            false,
        ),
    decreases s.len(),
{
    if s.len() == 0 {
        assert(s + rest =~= rest);
        assert(word->0 + s =~= word->0);
    } else {
        let text = s + rest;
        let c = s[0];
        assert(text[0] == c && is_safe(c));
        assert(text.skip(1) =~= s.skip(1) + rest);
        assert forall|i: int| 0 <= i < s.skip(1).len() implies is_safe(#[trigger] s.skip(1)[i]) by {
            assert(s.skip(1)[i] == s[i + 1]);
        }
        lemma_read_safe(s.skip(1), rest, extended(word, c));
        match word {
            Some(w) => {
                assert(w.push(c) + s.skip(1) =~= w + s);
            },
            None => {
                assert(seq![c] + s.skip(1) =~= s);
            },
        }
    }
}

proof fn lemma_read_word(s: Seq<char>, rest: Seq<char>)
    ensures
        read_words(sh_quoted(s) + rest, None, false) == read_words(rest, Some(s), false),
{
    if is_safe_word(s) {
        lemma_read_safe(s, rest, None);
    } else {
        let text = sh_quoted(s) + rest;
        let inner = quoted_body(s) + seq!['\''] + rest;
        assert(text[0] == '\'');
        assert(text.skip(1) =~= inner);
        lemma_read_quoted(s, rest, Seq::empty());
        assert(Seq::<char>::empty() + s =~= s);
    }
}

/// A quoted word reads as the word, whatever characters it holds.
pub proof fn quoting_round_trips(s: Seq<char>)
    ensures
        sh_words(sh_quoted(s)) == Some(seq![s]),
{
    lemma_read_word(s, Seq::empty());
    assert(sh_quoted(s) + Seq::<char>::empty() =~= sh_quoted(s));
}

proof fn lemma_spaced_front(words: Seq<Seq<char>>)
    requires
        words.len() > 0,
    ensures
        spaced(words) == seq![' '] + sh_quoted(words[0]) + spaced(words.skip(1)),
    decreases words.len(),
{
    if words.len() == 1 {
        assert(words.drop_last() =~= Seq::empty());
        assert(words.skip(1) =~= Seq::empty());
        assert(spaced(words) =~= seq![' '] + sh_quoted(words[0]) + spaced(words.skip(1)));
    } else {
        lemma_spaced_front(words.drop_last());
        assert(words.drop_last().skip(1) =~= words.skip(1).drop_last());
        assert(spaced(words) =~= seq![' '] + sh_quoted(words[0]) + spaced(words.skip(1)));
    }
}

proof fn lemma_read_spaced(words: Seq<Seq<char>>, word: Option<Seq<char>>)
    ensures
        read_words(spaced(words), word, false) == Some(
            (match word {
                Some(w) => seq![w],
                None => Seq::empty(),
            }) + words,
        ),
    decreases words.len(),
{
    if words.len() == 0 {
        match word {
            Some(w) => {
                assert(seq![w] + words =~= seq![w]);
            },
            None => {
                assert(Seq::empty() + words =~= words);
                assert(words =~= Seq::empty());
            },
        }
    } else {
        let text = spaced(words);
        let tail = spaced(words.skip(1));
        lemma_spaced_front(words);
        assert(text[0] == ' ');
        assert(text.skip(1) =~= sh_quoted(words[0]) + tail);
        lemma_read_word(words[0], tail);
        lemma_read_spaced(words.skip(1), Some(words[0]));
        assert(seq![words[0]] + words.skip(1) =~= words);
        match word {
            Some(w) => {},
            None => {
                assert(Seq::empty() + words =~= words);
            },
        }
    }
}

/// Quoted words behind a plain one read as that one and the words.
pub proof fn spaced_words_round_trip(name: Seq<char>, words: Seq<Seq<char>>)
    requires
        is_safe_word(name),
    ensures
        sh_words(name + spaced(words)) == Some(seq![name] + words),
{
    lemma_read_safe(name, spaced(words), None);
    lemma_read_spaced(words, Some(name));
}

/// The script that runs a command on a remote target enters exactly the
/// replica's path and runs exactly the given words there.
pub proof fn remote_script_round_trips(path: Seq<char>, argv: Seq<Seq<char>>)
    ensures
        remote_script(path, argv) == "cd"@ + spaced(seq![path]) + " && "@ + ("exec"@ + spaced(argv)),
        sh_words("cd"@ + spaced(seq![path])) == Some(seq!["cd"@, path]),
        sh_words("exec"@ + spaced(argv)) == Some(seq!["exec"@] + argv),
{
    reveal_strlit("cd");
    reveal_strlit("cd ");
    reveal_strlit(" && ");
    reveal_strlit(" && exec");
    reveal_strlit("exec");
    assert(is_safe_word("cd"@));
    assert(is_safe_word("exec"@));
    spaced_words_round_trip("cd"@, seq![path]);
    assert(seq!["cd"@] + seq![path] =~= seq!["cd"@, path]);
    spaced_words_round_trip("exec"@, argv);
    lemma_spaced_front(seq![path]);
    assert(seq![path].skip(1) =~= Seq::empty());
    assert(remote_script(path, argv) =~= "cd"@ + spaced(seq![path]) + " && "@ + ("exec"@ + spaced(
        argv,
    )));
}

/// Only letters, digits and the characters `@%+=:,./_-` stand unquoted, none
/// of which has a meaning of its own to a shell.
pub proof fn only_plain_characters_stand_unquoted(c: char)
    ensures
        is_safe(c) <==> {
            ||| 'a' <= c <= 'z'
            ||| 'A' <= c <= 'Z'
            ||| '0' <= c <= '9'
            ||| c == '@' || c == '%' || c == '+' || c == '=' || c == ':'
            ||| c == ',' || c == '.' || c == '/' || c == '_' || c == '-'
        },
        c == ' ' || c == '\t' || c == '\n' || c == '\'' || c == '"' || c == '\\' || c == '$' || c
            == '`' || c == ';' || c == '&' || c == '|' || c == '<' || c == '>' || c == '(' || c
            == ')' || c == '*' || c == '?' || c == '[' || c == ']' || c == '{' || c == '}' || c
            == '~' || c == '#' || c == '!' || c == '^' ==> !is_safe(c),
{
}

/// A word with any other character, and an empty one, is put in single
/// quotes; a plain one stays as it is.
pub proof fn other_words_are_put_in_quotes(s: Seq<char>)
    ensures
        sh_quoted(s) == s <==> s.len() > 0 && forall|k: int|
            0 <= k < s.len() ==> is_safe(#[trigger] s[k]),
        sh_quoted(s) != s ==> sh_quoted(s).len() >= s.len() + 2 && sh_quoted(s)[0] == '\''
            && sh_quoted(s).last() == '\'',
{
    lemma_quoted_len(s);
    let word = seq!['\''] + quoted_body(s) + seq!['\''];
    assert(word.len() > s.len());
}

proof fn lemma_quoted_len(s: Seq<char>)
    ensures
        quoted_body(s).len() >= s.len(),
    decreases s.len(),
{
    if s.len() > 0 {
        lemma_quoted_len(s.drop_last());
    }
}

/// A command runs on a local target as it is, in the replica, and on a remote
/// one through ssh, with a terminal if there is one here.
pub proof fn commands_run_on_the_target(target: TargetView, argv: Seq<Seq<char>>, tty: bool)
    requires
        argv.len() > 0,
    ensures
        match target {
            TargetView::Local(path) => {
                let cmd = exec_command(target, argv, tty);
                &&& cmd.program == argv[0]
                &&& cmd.cwd == Some(path)
                &&& cmd.args.len() == argv.len() - 1
                &&& forall|k: int|
                    0 < k < argv.len() ==> cmd.args[k - 1] == encode_utf8(#[trigger] argv[k])
            },
            TargetView::Remote { host, path } => {
                let cmd = exec_command(target, argv, tty);
                let script = encode_utf8(
                    "cd"@ + spaced(seq![path]) + " && "@ + ("exec"@ + spaced(argv)),
                );
                &&& cmd.program == "ssh"@
                &&& cmd.cwd is None
                &&& tty ==> cmd.args == seq![encode_utf8("-t"@), encode_utf8(host), script]
                &&& !tty ==> cmd.args == seq![encode_utf8(host), script]
            },
        },
{
    let cmd = exec_command(target, argv, tty);
    match target {
        TargetView::Local(path) => {
            assert forall|k: int| 0 < k < argv.len() implies cmd.args[k - 1] == encode_utf8(
                #[trigger] argv[k],
            ) by {
                assert(argv.skip(1)[k - 1] == argv[k]);
            }
        },
        TargetView::Remote { host, path } => {
            remote_script_round_trips(path, argv);
            let script = encode_utf8(remote_script(path, argv));
            if tty {
                assert(cmd.args =~= seq![encode_utf8("-t"@), encode_utf8(host), script]);
            } else {
                assert(cmd.args =~= seq![encode_utf8(host), script]);
            }
        },
    }
}

/// What goes on is a check of the directory for a local target, and the
/// command itself for a remote one; nothing else is ever run.
pub proof fn only_the_command_is_run(request: ExecRequest, action: ExecAction)
    ensures
        runs(request, action) <==> (action matches ExecAction::Run(cmd) && cmd@ == exec_command(
            request.target@,
            views(request.argv@),
            request.tty,
        )),
        proceeds(request, action) ==> (match request.target@ {
            TargetView::Local(path) => action matches ExecAction::Check(dir) && dir@ == path,
            TargetView::Remote { .. } => action matches ExecAction::Run(cmd) && cmd@
                == exec_command(request.target@, views(request.argv@), request.tty),
        }),
{
}

} // verus!
