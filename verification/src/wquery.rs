//! Raw watchman `since` queries carrying a JSON expression.
//!
//! The watchman translations of the ignore rules are JSON expressions. The
//! query is built by hand, so the exact expression reaches watchman
//! unchanged.

use crate::json::{
    json_array, json_copy, json_int, json_object, json_of, json_string, jsons, object_of, Json,
};
use crate::text::{chars_of, opt_text, opt_view, spells};
use crate::watchman::{not_expr, not_json};
use vstd::prelude::*;

verus! {

/// `watchman_client::pdu::Clock`: a watchman clock, opaque to us.
#[verifier::external_type_specification]
#[verifier::external_body]
pub struct ExClock(watchman_client::prelude::Clock);

/// watchman's default cookie-synchronization timeout, in milliseconds.
/// Passing it explicitly makes every since-query cookie-synchronized
/// ("as-of now") regardless of the server's configured default.
pub const SYNC_TIMEOUT_MS: i64 = 60000;

/// One changed path returned by a since-query.
#[derive(Debug, Clone)]
pub struct ChangedFile {
    /// Path relative to the watched root.
    pub name: Vec<u8>,
    /// Whether the path exists as of the query (`false`: it was deleted).
    pub exists: bool,
    /// watchman's file type: `"f"` regular file, `"d"` directory, `"l"`
    /// symlink, etc. Absent if `"type"` was not among the requested fields.
    pub file_type: Option<String>,
}

/// What a [`ChangedFile`] stands for.
pub struct ChangedFileView {
    pub name: Seq<u8>,
    pub exists: bool,
    pub file_type: Option<Seq<char>>,
}

impl View for ChangedFile {
    type V = ChangedFileView;

    open spec fn view(&self) -> ChangedFileView {
        ChangedFileView {
            name: self.name@,
            exists: self.exists,
            file_type: opt_view(self.file_type),
        }
    }
}

impl ChangedFile {
    /// Whether the path is a directory.
    pub fn is_dir(&self) -> (yes: bool)
        ensures
            yes == (self@.file_type == Some("d"@)),
    {
        match &self.file_type {
            Some(kind) => {
                let chars = chars_of(kind.as_str());
                spells(chars.as_slice(), "d")
            },
            None => false,
        }
    }
}

/// The outcome of a since-query.
#[derive(Debug)]
pub struct SinceResult {
    /// watchman reported a fresh instance: the clock we queried against
    /// belongs to a dead instance, so the result covers the whole tree.
    /// Callers must treat this as "resync everything" (a full rsync).
    pub is_fresh_instance: bool,
    pub files: Vec<ChangedFile>,
}

impl SinceResult {
    /// The outcome that watchman's reply tells; no list of files is an empty
    /// one.
    pub fn new(is_fresh_instance: bool, files: Option<Vec<ChangedFile>>) -> (result: SinceResult)
        ensures
            result.is_fresh_instance == is_fresh_instance,
            result.files@ == (match files {
                Some(list) => list@,
                None => Seq::empty(),
            }),
    {
        match files {
            Some(list) => SinceResult { is_fresh_instance, files: list },
            None => SinceResult { is_fresh_instance, files: Vec::new() },
        }
    }
}

/// The JSON that stands for a clock in a query, if there is one.
pub uninterp spec fn clock_json(clock: watchman_client::prelude::Clock) -> Option<Json>;

/// `serde_json::to_value` of a clock gives the JSON that stands for it in a
/// query, or says why there is none. What it is, is watchman's concern and
/// left to the name [`clock_json`].
#[verifier::external_body]
fn clock_value(clock: &watchman_client::prelude::Clock) -> (v: Result<serde_json::Value, String>)
    ensures
        clock_json(*clock) == (match v {
            Ok(value) => Some(json_of(value)),
            Err(_) => None,
        }),
{
    match serde_json::to_value(clock) {
        Ok(value) => Ok(value),
        Err(err) => Err(err.to_string()),
    }
}

/// `Clock::clone` makes a clock that stands for the same in a query.
#[verifier::external_body]
pub(crate) fn copy_clock(clock: &watchman_client::prelude::Clock) -> (copy:
    watchman_client::prelude::Clock)
    ensures
        clock_json(copy) == clock_json(*clock),
{
    clock.clone()
}

/// The parameters of a query.
pub open spec fn query_params(since: Json, expr: Json, relative: Option<Seq<char>>) -> Map<
    Seq<char>,
    Json,
> {
    let params = Map::<Seq<char>, Json>::empty().insert("since"@, since).insert(
        "expression"@,
        expr,
    ).insert(
        "fields"@,
        Json::Array(seq![Json::Str("name"@), Json::Str("exists"@), Json::Str("type"@)]),
    ).insert("sync_timeout"@, Json::Int(SYNC_TIMEOUT_MS as int));
    match relative {
        Some(path) => params.insert("relative_root"@, Json::Str(path)),
        None => params,
    }
}

/// A query about the given root.
pub open spec fn query_json(
    root: Seq<char>,
    relative: Option<Seq<char>>,
    since: Json,
    expr: Json,
) -> Json {
    Json::Array(
        seq![
            Json::Str("query"@),
            Json::Str(root),
            Json::Object(query_params(since, expr, relative)),
        ],
    )
}

/// The request for the paths changed since `since` that match `expr`, under
/// the watched `root` or the directory `relative` in it.
///
/// The query always requests the `name`/`exists`/`type` fields: watchman
/// renders the file list as bare strings when only `name` is requested but
/// as objects for any larger field set, so requesting all three keeps the
/// response shape uniform (and supplies everything the fast path needs).
pub fn since_query(
    root: &str,
    relative: Option<&str>,
    since: &watchman_client::prelude::Clock,
    expr: &serde_json::Value,
) -> (request: Result<serde_json::Value, String>)
    ensures
        match request {
            Ok(v) => clock_json(*since) matches Some(clock) && json_of(v) == query_json(
                root@,
                opt_text(relative),
                clock,
                json_of(*expr),
            ),
            Err(_) => clock_json(*since) is None,
        },
{
    match clock_value(since) {
        Ok(clock) => Ok(since_request(root, relative, clock, expr)),
        Err(e) => Err(e),
    }
}

/// [`since_query`], given the JSON that stands for the clock.
pub fn since_request(
    root: &str,
    relative: Option<&str>,
    clock: serde_json::Value,
    expr: &serde_json::Value,
) -> (request: serde_json::Value)
    ensures
        json_of(request) == query_json(root@, opt_text(relative), json_of(clock), json_of(*expr)),
{
    let names: Vec<serde_json::Value> = vec![
        json_string("name"),
        json_string("exists"),
        json_string("type"),
    ];
    proof {
        assert(jsons(names@) =~= seq![
            Json::Str("name"@),
            Json::Str("exists"@),
            Json::Str("type"@),
        ]);
    }
    let ghost given = json_of(clock);
    let ghost fields = Json::Array(jsons(names@));
    let mut params: Vec<(String, serde_json::Value)> = Vec::new();
    params.push(("since".to_string(), clock));
    let ghost p1 = params@;
    params.push(("expression".to_string(), json_copy(expr)));
    let ghost p2 = params@;
    params.push(("fields".to_string(), json_array(names)));
    let ghost p3 = params@;
    params.push(("sync_timeout".to_string(), json_int(SYNC_TIMEOUT_MS)));
    let ghost p4 = params@;
    proof {
        assert(p1.drop_last() =~= Seq::empty());
        assert(p2.drop_last() =~= p1);
        assert(p3.drop_last() =~= p2);
        assert(p4.drop_last() =~= p3);
        assert(object_of(p1.drop_last()) == Map::<Seq<char>, Json>::empty());
        let m1 = Map::<Seq<char>, Json>::empty().insert("since"@, given);
        assert(object_of(p1) == m1);
        let m2 = m1.insert("expression"@, json_of(*expr));
        assert(object_of(p2) == m2);
        let m3 = m2.insert("fields"@, fields);
        assert(object_of(p3) == m3);
        assert(object_of(p4) == query_params(given, json_of(*expr), None));
    }
    if let Some(path) = relative {
        params.push(("relative_root".to_string(), json_string(path)));
        proof {
            assert(params@.drop_last() =~= p4);
        }
    }
    let items: Vec<serde_json::Value> = vec![
        json_string("query"),
        json_string(root),
        json_object(params),
    ];
    proof {
        assert(jsons(items@) =~= seq![
            Json::Str("query"@),
            Json::Str(root@),
            Json::Object(query_params(given, json_of(*expr), opt_text(relative))),
        ]);
    }
    json_array(items)
}

/// The expression selecting files that *should be synced*: everything not
/// matched by the ignore rules' `ignored` expression. Wrapping in `["not",
/// ...]` here (rather than using `watchman_synced_files_expr`, which also
/// requires `["type", "f"]`) keeps deletions in the result: a deleted synced
/// file still needs to be propagated.
pub fn not_ignored(ignored_expr: &serde_json::Value) -> (expr: serde_json::Value)
    ensures
        json_of(expr) == not_json(json_of(*ignored_expr)),
{
    not_expr(json_copy(ignored_expr))
}

/// A query asks for the changes since the given clock that match the given
/// expression, as of now, with name, existence and type of each, and only
/// under a directory of the root where one is given.
pub proof fn queries_ask_for_what_they_are_given(
    root: Seq<char>,
    relative: Option<Seq<char>>,
    since: Json,
    expr: Json,
)
    ensures
        ({
            let query = query_json(root, relative, since, expr);
            &&& query matches Json::Array(items) && items.len() == 3 && items[0] == Json::Str(
                "query"@,
            ) && items[1] == Json::Str(root) && (items[2] matches Json::Object(params) && {
                &&& params.dom().contains("since"@) && params["since"@] == since
                &&& params.dom().contains("expression"@) && params["expression"@] == expr
                &&& params.dom().contains("fields"@) && params["fields"@] == Json::Array(
                    seq![Json::Str("name"@), Json::Str("exists"@), Json::Str("type"@)],
                )
                &&& params.dom().contains("sync_timeout"@) && params["sync_timeout"@]
                    == Json::Int(60000)
                &&& match relative {
                    Some(path) => params.dom().contains("relative_root"@)
                        && params["relative_root"@] == Json::Str(path),
                    None => !params.dom().contains("relative_root"@),
                }
            })
        }),
{
    reveal_strlit("since");
    reveal_strlit("expression");
    reveal_strlit("fields");
    reveal_strlit("sync_timeout");
    reveal_strlit("relative_root");
    assert("since"@.len() == 5);
    assert("expression"@.len() == 10);
    assert("fields"@.len() == 6);
    assert("sync_timeout"@.len() == 12);
    assert("relative_root"@.len() == 13);
}

/// A changed path is taken as watchman reports it.
pub proof fn changes_are_taken_as_they_are_reported(file: ChangedFile)
    ensures
        file@.name == file.name@,
        file@.exists == file.exists,
        match file.file_type {
            Some(kind) => file@.file_type == Some(kind@),
            None => file@.file_type is None,
        },
{
}

} // verus!
