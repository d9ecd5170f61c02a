//! A repository's ignore rules, translated for the sync loop.
//!
//! Each translation has a fallback for when a rule set cannot be translated
//! exactly.

use crate::eval::{IgnoreSet, SourceView};
use crate::json::{json_of, Json};
use crate::rsync::{filter_rules, oversized, rsync_filter_rules, too_many_variants};
use crate::rsync_laws::rule_sets_translate_if_every_pattern_does;
use crate::text::{group_views, views};
use crate::watchman::{ignored_json, negated, not_json, watchman_ignored_files_expr};
use crate::watchman_laws::rule_sets_without_reincludes_have_an_expression;
use crate::wquery::not_ignored;
use vstd::prelude::*;

verus! {

/// A snapshot of a repository's ignore rules, with the rsync and watchman
/// translations precomputed.
///
/// The two translations are computed up front because both can fail for rule
/// sets that cannot be expressed exactly, and the failure mode differs per
/// consumer (see the field docs). The sync path never evaluates rules
/// directly, since both rsync and watchman apply them, so the underlying
/// [`IgnoreSet`] is not retained.
pub struct Rules {
    /// rsync `--filter=` rule bodies, highest-precedence first. `None` if
    /// the rules could not be translated (a pathological `**` blow-up); the
    /// caller falls back to the interim per-directory dir-merge filters,
    /// which always apply.
    rsync_filters: Option<Vec<String>>,
    /// Watchman expression matching the *ignored* files. `None` if the rules
    /// use a construct watchman cannot express (a negated `!pattern`); the
    /// caller must then treat the fast path and the filtered since-query as
    /// unavailable and fall back to a full rsync.
    ignored_expr: Option<serde_json::Value>,
}

/// What [`Rules`] stand for.
pub struct RulesView {
    pub rsync_filters: Option<Seq<Seq<char>>>,
    pub ignored_expr: Option<Json>,
}

impl View for Rules {
    type V = RulesView;

    closed spec fn view(&self) -> RulesView {
        RulesView {
            rsync_filters: match self.rsync_filters {
                Some(rules) => Some(views(rules@)),
                None => None,
            },
            ignored_expr: match self.ignored_expr {
                Some(expr) => Some(json_of(expr)),
                None => None,
            },
        }
    }
}

/// The translations of a rule set.
pub open spec fn translated(sources: Seq<SourceView>) -> RulesView {
    RulesView {
        rsync_filters: if oversized(sources) is None {
            Some(filter_rules(sources))
        } else {
            None
        },
        ignored_expr: if negated(sources) is None {
            Some(ignored_json(sources))
        } else {
            None
        },
    }
}

/// A rule as an argument to rsync.
pub open spec fn filter_arg(rule: Seq<char>) -> Seq<char> {
    "--filter="@ + rule
}

impl Rules {
    /// Translate the repository's ignore rules, as far as they could be
    /// loaded. Never fails: unreadable rules degrade to "nothing ignored" (a
    /// full sync), and untranslatable rules degrade per-consumer (see the
    /// field docs).
    pub fn load(loaded: Result<IgnoreSet, String>) -> (rules: Rules)
        ensures
            rules@ == (match loaded {
                Ok(set) => translated(set@),
                Err(_) => translated(Seq::empty()),
            }),
    {
        let set = match loaded {
            Ok(set) => set,
            Err(_) => IgnoreSet::new(),
        };
        let rsync_filters = match rsync_filter_rules(&set) {
            Ok(rules) => Some(rules),
            Err(_) => None,
        };
        let ignored_expr = match watchman_ignored_files_expr(&set) {
            Ok(expr) => Some(expr),
            Err(_) => None,
        };
        Rules { rsync_filters, ignored_expr }
    }

    /// rsync `--filter=` arguments for a full-tree sync, highest-precedence
    /// first, or `None` if the rules could not be translated.
    pub fn rsync_filter_args(&self) -> (args: Option<Vec<String>>)
        ensures
            match args {
                Some(texts) => self@.rsync_filters matches Some(rules) && views(texts@)
                    == rules.map_values(|rule: Seq<char>| filter_arg(rule)),
                None => self@.rsync_filters is None,
            },
    {
        broadcast use group_views;

        match &self.rsync_filters {
            None => None,
            Some(rules) => {
                let ghost all = views(rules@).map_values(|rule: Seq<char>| filter_arg(rule));
                let mut args: Vec<String> = Vec::new();
                for i in 0..rules.len()
                    invariant
                        all == views(rules@).map_values(|rule: Seq<char>| filter_arg(rule)),
                        views(args@) == all.take(i as int),
                {
                    broadcast use group_views;

                    let mut arg = "--filter=".to_string();
                    arg.append(rules[i].as_str());
                    proof {
                        assert(all.take(i + 1) =~= all.take(i as int).push(arg@));
                    }
                    args.push(arg);
                }
                proof {
                    assert(all.take(all.len() as int) =~= all);
                }
                Some(args)
            },
        }
    }

    /// The watchman expression matching ignored files, if the rules are
    /// translatable. Callers wrap this in `["not", ...]` to select synced
    /// files; when `None`, the fast path is unavailable and the caller must
    /// fall back to a full rsync.
    pub fn ignored_expr(&self) -> (expr: Option<&serde_json::Value>)
        ensures
            match expr {
                Some(v) => self@.ignored_expr == Some(json_of(*v)),
                None => self@.ignored_expr is None,
            },
    {
        match &self.ignored_expr {
            Some(expr) => Some(expr),
            None => None,
        }
    }

    /// The expression for the files that count as pending: everything that
    /// is not ignored, or, where the rules do not translate, everything but
    /// the internal paths.
    pub fn pending_expr(&self) -> (expr: serde_json::Value)
        ensures
            json_of(expr) == not_json(
                match self@.ignored_expr {
                    Some(ignored) => ignored,
                    None => ignored_json(Seq::empty()),
                },
            ),
    {
        match &self.ignored_expr {
            Some(expr) => not_ignored(expr),
            None => {
                let builtin = builtin_ignored_expr();
                not_ignored(&builtin)
            },
        }
    }
}

/// The watchman expression matching the always-ignored internal paths
/// (`.git`/`.dsync` and their contents) and nothing else: the translation
/// of an empty rule set. Used as the fallback for since-queries when the
/// real rules don't translate (a negated pattern), so "pending" still never
/// counts `.git`/`.dsync`.
pub fn builtin_ignored_expr() -> (expr: serde_json::Value)
    ensures
        json_of(expr) == ignored_json(Seq::empty()),
{
    let set = IgnoreSet::new();
    match watchman_ignored_files_expr(&set) {
        Ok(expr) => expr,
        // The empty rule set always translates.
        Err(_) => vstd::pervasive::unreached(),
    }
}

/// The rules for rsync are those of the rule set exactly if every pattern has
/// few enough variants, and there is an expression for watchman exactly if no
/// pattern re-includes; neither depends on the other.
pub proof fn rule_sets_are_translated_for_each_consumer(sources: Seq<SourceView>)
    ensures
        match translated(sources).rsync_filters {
            Some(rules) => rules == filter_rules(sources) && forall|k: int, j: int|
                0 <= k < sources.len() && 0 <= j < sources[k].patterns.len() ==> !too_many_variants(
                    (#[trigger] sources[k].patterns[j]).segments,
                ),
            None => exists|k: int, j: int|
                0 <= k < sources.len() && 0 <= j < sources[k].patterns.len() && too_many_variants(
                    (#[trigger] sources[k].patterns[j]).segments,
                ),
        },
        match translated(sources).ignored_expr {
            Some(expr) => expr == ignored_json(sources) && forall|k: int, j: int|
                0 <= k < sources.len() && 0 <= j < sources[k].patterns.len() ==> !(
                #[trigger] sources[k].patterns[j]).negated,
            None => exists|k: int, j: int|
                0 <= k < sources.len() && 0 <= j < sources[k].patterns.len() && (
                #[trigger] sources[k].patterns[j]).negated,
        },
{
    rule_sets_translate_if_every_pattern_does(sources);
    rule_sets_without_reincludes_have_an_expression(sources);
}

/// A rule is handed to rsync behind `--filter=`.
pub proof fn rules_are_handed_over_as_filters(rule: Seq<char>)
    ensures
        filter_arg(rule) == "--filter="@ + rule,
{
}

} // verus!
