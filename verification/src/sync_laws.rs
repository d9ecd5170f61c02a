//! What holds of every sync.

use crate::eval::{ignored, SourceView};
use crate::git::interim_args;
use crate::ignore::{filter_arg, translated, RulesView};
use crate::rsync_laws::{
    filter_rules_spell_the_rules, left_out, rsync_leaves_out_what_is_ignored, rsync_rules,
    rsync_text, RsyncRule,
};
use crate::state::ReplicaView;
use crate::sync::{
    digits_value, expr_matches, fast_path_eligible, filter_args, last_clock,
    number_of, rsync_command, rsync_failure_text, rsync_options,
    subscription_drops_only_the_internal_paths, subscription_view, Runner, Wake,
};
use crate::target::TargetView;
use crate::text::{decimal, digit};
use crate::watchman::builtin_terms;
use crate::watchman_laws::{any_matches, builtin_terms_match_the_internal_paths};
use vstd::prelude::*;
use vstd::utf8::{encode_utf8, encode_utf8_decode_utf8, is_ascii_chars, is_ascii_chars_encode_utf8};

verus! {

/// The argument that would make rsync delete excluded paths on the target.
pub open spec fn delete_excluded() -> Seq<u8> {
    encode_utf8("--delete-excluded"@)
}

proof fn lemma_other_word(word: Seq<char>)
    requires
        word != "--delete-excluded"@,
    ensures
        encode_utf8(word) != delete_excluded(),
{
    encode_utf8_decode_utf8(word);
    encode_utf8_decode_utf8("--delete-excluded"@);
}

proof fn lemma_merge_arg(file: Seq<u8>)
    ensures
        encode_utf8("--filter=.- "@) + file != delete_excluded(),
{
    reveal_strlit("--filter=.- ");
    reveal_strlit("--delete-excluded");
    let head = "--filter=.- "@;
    let whole = "--delete-excluded"@;
    assert(is_ascii_chars(head));
    assert(is_ascii_chars(whole));
    is_ascii_chars_encode_utf8(head);
    is_ascii_chars_encode_utf8(whole);
    assert(encode_utf8(head)[2] == head[2] as u8);
    assert(encode_utf8(whole)[2] == whole[2] as u8);
    assert((encode_utf8(head) + file)[2] == encode_utf8(head)[2]);
}

/// No full sync ever deletes what is excluded: ignored paths are neither
/// sent nor deleted on the target.
pub proof fn rsync_never_deletes_excluded_paths(rules: RulesView, files: Seq<Seq<u8>>)
    ensures
        !rsync_options(rules, files).contains(delete_excluded()),
{
    let args = rsync_options(rules, files);
    reveal_strlit("--delete-excluded");
    reveal_strlit("-a");
    reveal_strlit("--delete-after");
    reveal_strlit("--modify-window=-1");
    reveal_strlit("--exclude=.git");
    reveal_strlit("--exclude=.dsync");
    reveal_strlit("--filter=:- .gitignore");
    reveal_strlit("--filter=");
    let whole = "--delete-excluded"@;
    assert("-a"@.len() != whole.len());
    assert("--delete-after"@.len() != whole.len());
    assert("--modify-window=-1"@.len() != whole.len());
    assert("--exclude=.git"@.len() != whole.len());
    assert("--exclude=.dsync"@.len() != whole.len());
    assert("--filter=:- .gitignore"@.len() != whole.len());
    assert forall|k: int| 0 <= k < args.len() implies args[k] != delete_excluded() by {
        if k == 0 {
            lemma_other_word("-a"@);
        } else if k == 1 {
            lemma_other_word("--delete-after"@);
        } else if k == 2 {
            lemma_other_word("--modify-window=-1"@);
        } else {
            let i = k - 3;
            assert(args[k] == filter_args(rules, files)[i]);
            match rules.rsync_filters {
                Some(texts) => {
                    let word = filter_arg(texts[i]);
                    assert(word[2] == 'f');
                    assert(whole[2] == 'd');
                    lemma_other_word(word);
                },
                None => {
                    let interim = interim_args(files);
                    if i == 0 {
                        lemma_other_word("--exclude=.git"@);
                    } else if i == 1 {
                        lemma_other_word("--exclude=.dsync"@);
                    } else if i == 2 {
                        lemma_other_word("--filter=:- .gitignore"@);
                    } else {
                        assert(interim[i] == encode_utf8("--filter=.- "@) + files[i - 3]);
                        lemma_merge_arg(files[i - 3]);
                    }
                },
            }
        }
    }
}

/// Without a completed sync, after a fresh instance of watchman, with rules
/// that watchman cannot express and for a forced self-heal, only a full
/// rsync will do.
pub proof fn uncertainty_calls_for_a_full_sync(
    translatable: bool,
    has_prev_clock: bool,
    fresh_instance: bool,
    files: Option<usize>,
    force_full: bool,
)
    requires
        !translatable || !has_prev_clock || fresh_instance || force_full,
    ensures
        !fast_path_eligible(translatable, has_prev_clock, fresh_instance, files, force_full),
{
}

/// A self-heal is not lost when its sync fails: the retry is a full sync
/// again, and so is every further one until one succeeds.
pub proof fn failed_heals_are_retried_in_full(runner: Runner)
    ensures
        runner.after_wake(Wake::HealTick, true).force_full,
        runner.force_full ==> runner.after_sync(false).after_wake(Wake::Retry, true).force_full,
        runner.after_sync(false).retrying,
        !runner.after_sync(true).retrying,
        !runner.after_sync(true).force_full,
{
}

/// The subscription drops exactly what the built-in expression, the
/// translation of an empty rule set, matches.
pub proof fn subscription_mirrors_the_builtin_expression(path: Seq<Seq<char>>)
    ensures
        expr_matches(subscription_view(), path) <==> !any_matches(builtin_terms(), path),
{
    subscription_drops_only_the_internal_paths(path);
    builtin_terms_match_the_internal_paths(path);
}

proof fn lemma_digits_of_decimal(n: nat)
    ensures
        digits_value(decimal(n)) == Some(n),
        decimal(n).len() > 0,
        decimal(n)[0] != '+',
    decreases n,
{
    if n < 10 {
        let s = decimal(n);
        assert(s.drop_last() =~= Seq::empty());
        reveal_with_fuel(digits_value, 2);
        assert(s.last() == digit(n));
    } else {
        lemma_digits_of_decimal(n / 10);
        let s = decimal(n);
        assert(s.drop_last() =~= decimal(n / 10));
        assert(s.last() == digit(n % 10));
        assert(s[0] == decimal(n / 10)[0]);
    }
}

/// A number in decimal notation reads back as the number.
pub proof fn decimal_numbers_read_back(n: u64)
    ensures
        number_of(decimal(n as nat)) == Some(n as nat),
{
    lemma_digits_of_decimal(n as nat);
}

/// A full sync is one rsync: it keeps all attributes, deletes after the
/// transfer, compares times exactly, carries every filter rule, in order, and
/// copies what is in the repository's root to the target. Where the rules do
/// not translate, it carries git's own ignore files instead.
pub proof fn full_syncs_carry_every_rule(
    repo_root: Seq<u8>,
    target: TargetView,
    rules: RulesView,
    files: Seq<Seq<u8>>,
)
    ensures
        ({
            let cmd = rsync_command(repo_root, target, rules, files);
            let count: int = match rules.rsync_filters {
                Some(texts) => texts.len() as int,
                None => files.len() as int + 3,
            };
            &&& cmd.program == "rsync"@
            &&& cmd.cwd is None
            &&& cmd.args.len() == count + 5
            &&& cmd.args[0] == encode_utf8("-a"@)
            &&& cmd.args[1] == encode_utf8("--delete-after"@)
            &&& cmd.args[2] == encode_utf8("--modify-window=-1"@)
            &&& cmd.args[count + 3] == repo_root + seq![0x2fu8]
            &&& cmd.args[count + 4] == (match target {
                TargetView::Local(path) => path,
                TargetView::Remote { host, path } => encode_utf8(host + seq![':'] + path),
            })
            &&& match rules.rsync_filters {
                Some(texts) => forall|k: int|
                    0 <= k < texts.len() ==> #[trigger] cmd.args[3 + k] == encode_utf8(
                        "--filter="@ + texts[k],
                    ),
                None => cmd.args[3] == encode_utf8("--exclude=.git"@) && cmd.args[4] == encode_utf8(
                    "--exclude=.dsync"@,
                ) && cmd.args[5] == encode_utf8("--filter=:- .gitignore"@) && forall|k: int|
                    0 <= k < files.len() ==> #[trigger] cmd.args[6 + k] == encode_utf8(
                        "--filter=.- "@,
                    ) + files[k],
            }
        }),
{
    let cmd = rsync_command(repo_root, target, rules, files);
    let filters = filter_args(rules, files);
    let options = rsync_options(rules, files);
    assert(options.len() == filters.len() + 3);
    assert forall|k: int| 0 <= k < filters.len() implies #[trigger] cmd.args[3 + k]
        == filters[k] by {
        assert(cmd.args[3 + k] == options[3 + k]);
    }
    assert(repo_root.push(0x2f) =~= repo_root + seq![0x2fu8]);
    if let TargetView::Remote { host, path } = target {
        assert(host.push(':') + path =~= host + seq![':'] + path);
    }
    if rules.rsync_filters is None {
        assert(filters == interim_args(files));
        assert(cmd.args[3 + 0int] == filters[0]);
        assert(cmd.args[3 + 1int] == filters[1]);
        assert(cmd.args[3 + 2int] == filters[2]);
        assert forall|k: int| 0 <= k < files.len() implies #[trigger] cmd.args[6 + k]
            == encode_utf8("--filter=.- "@) + files[k] by {
            assert(cmd.args[3 + (3 + k)] == filters[3 + k]);
        }
    }
}

/// The rules that a full sync hands to rsync are those of the rule set, and
/// with them rsync leaves out exactly the paths that the rule set ignores.
pub proof fn full_syncs_leave_out_what_is_ignored(
    repo_root: Seq<u8>,
    target: TargetView,
    sources: Seq<SourceView>,
    files: Seq<Seq<u8>>,
    path: Seq<Seq<char>>,
    is_dir: bool,
)
    requires
        translated(sources).rsync_filters is Some,
    ensures
        rsync_command(repo_root, target, translated(sources), files).args.len() == rsync_rules(
            sources,
        ).len() + 5,
        forall|k: int|
            0 <= k < rsync_rules(sources).len() ==> #[trigger] rsync_command(
                repo_root,
                target,
                translated(sources),
                files,
            ).args[3 + k] == encode_utf8("--filter="@ + rsync_text(rsync_rules(sources)[k])),
        left_out(rsync_rules(sources), path, is_dir) <==> ignored(sources, path, is_dir),
{
    full_syncs_carry_every_rule(repo_root, target, translated(sources), files);
    filter_rules_spell_the_rules(sources);
    rsync_leaves_out_what_is_ignored(sources, path, is_dir);
    let cmd = rsync_command(repo_root, target, translated(sources), files);
    let texts = translated(sources).rsync_filters->0;
    assert(texts == rsync_rules(sources).map_values(|rule: RsyncRule| rsync_text(rule)));
    assert forall|k: int| 0 <= k < rsync_rules(sources).len() implies #[trigger] cmd.args[3 + k]
        == encode_utf8("--filter="@ + rsync_text(rsync_rules(sources)[k])) by {
        assert(texts[k] == rsync_text(rsync_rules(sources)[k]));
    }
}

/// A change of up to 64 files, or of an unknown number, is tried on the fast
/// path whenever nothing speaks against it, and a larger one never is.
pub proof fn small_certain_changes_take_the_fast_path(files: Option<usize>)
    ensures
        fast_path_eligible(true, true, false, files, false) <==> (files matches Some(n) ==> n
            <= 64),
{
}

/// Being woken changes only whether the next sync is a full one, and that
/// only by a self-heal with something to repair; the end of a sync settles
/// whether to retry.
pub proof fn only_heals_ask_for_a_full_sync(
    runner: Runner,
    wake: Wake,
    seen_event: bool,
    success: bool,
)
    ensures
        runner.after_wake(wake, seen_event).retrying == runner.retrying,
        runner.after_wake(wake, seen_event).force_full == (runner.force_full || (wake
            == Wake::HealTick && seen_event)),
        runner.after_sync(success).retrying == !success,
        runner.after_sync(success).force_full == (runner.force_full && !success),
{
}

/// The lower bound of a since-query is the clock of the last completed sync,
/// and there is one exactly if a sync has completed.
pub proof fn queries_start_at_the_last_completed_sync<T>(replica: ReplicaView<T>)
    ensures
        last_clock(replica) is Some <==> replica.synced is Some,
        replica.synced matches Some(synced) ==> last_clock(replica) == Some(synced.clock),
{
}

/// A failed rsync is reported with its status, also a negative one.
pub proof fn failures_tell_the_status(code: nat)
    ensures
        rsync_failure_text(code as int) == "rsync exited with status "@ + decimal(code),
        code > 0 ==> rsync_failure_text(-(code as int)) == "rsync exited with status "@ + (seq!['-']
            + decimal(code)),
{
    reveal_strlit("-");
    assert("-"@ =~= seq!['-']);
}

/// Each further digit makes a number ten times as large and adds its own
/// value; any other character makes it no number.
pub proof fn numbers_are_read_digit_by_digit(s: Seq<char>, c: char)
    ensures
        digits_value(Seq::empty()) == Some(0nat),
        match digits_value(s) {
            Some(n) if '0' <= c <= '9' => digits_value(s.push(c)) == Some(
                (n * 10 + (c as u32 - '0' as u32)) as nat,
            ),
            _ => digits_value(s.push(c)) is None,
        },
{
    assert(s.push(c).drop_last() =~= s);
}

/// A number may have a `+` before it, must have a digit and must not be too
/// large.
pub proof fn numbers_may_have_a_plus(s: Seq<char>)
    requires
        s.len() > 0 ==> s[0] != '+',
    ensures
        number_of(seq!['+'] + s) == number_of(s),
        number_of(Seq::empty()) is None,
        number_of(s) == (match digits_value(s) {
            Some(n) if s.len() > 0 && n <= 0xffff_ffff_ffff_ffff => Some(n),
            _ => None,
        }),
{
    assert((seq!['+'] + s).skip(1) =~= s);
}

} // verus!
