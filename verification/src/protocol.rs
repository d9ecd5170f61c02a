//! The messages exchanged over `.dsync/dsync.sock`: newline-delimited JSON
//! requests and responses, versioned via a `{"version": 1}` handshake field
//! carried on every message.
//!
//! Replica multiplexing is in-band: requests carry a replica name (default
//! `"default"`), and a `list` request enumerates the live replicas.
//!
//! Invariant: watchman clocks never appear on the wire. Responses report
//! *state* (receipt-order sequence numbers and wall-clock times), never
//! clock strings and never transient boolean flags. How a time is written is
//! up to the type parameter `T` of the messages that carry one.

use crate::text::{decimal, decimal_text};
use vstd::prelude::*;

verus! {

/// The protocol version both sides must speak.
pub const VERSION: u32 = 1;

/// The replica name used when none is given.
pub const DEFAULT_REPLICA: &'static str = "default";

/// A request, one JSON object per line.
#[derive(Debug, Clone, PartialEq, Eq)]
pub struct Request {
    pub version: u32,
    pub op: RequestOp,
}

/// A timeout as a client gives it: a number of seconds.
#[derive(Debug, Clone, PartialEq, Eq)]
pub struct Timeout {
    /// The number, as it is written in messages.
    pub text: String,
    /// How long it is, in nanoseconds; `None` if the number is not finite or
    /// is negative, and so is no timeout.
    pub nanos: Option<u128>,
}

/// The operation a request asks for.
#[derive(Debug, Clone, PartialEq, Eq)]
pub enum RequestOp {
    /// Enumerate the live replicas.
    List,
    /// Report the sync state of one replica.
    Status { replica: String },
    /// Wait until one replica is up-to-date as of the request's arrival, or
    /// until the timeout, if one is given.
    Barrier { replica: String, timeout: Option<Timeout> },
}

impl Request {
    pub fn new(op: RequestOp) -> (request: Request)
        ensures
            request.version == VERSION,
            request.op == op,
    {
        Request { version: VERSION, op }
    }
}

/// The replica that a request names, or the default one.
pub fn default_replica(replica: Option<String>) -> (name: String)
    ensures
        name@ == (match replica {
            Some(given) => given@,
            None => DEFAULT_REPLICA@,
        }),
{
    match replica {
        Some(given) => given,
        None => DEFAULT_REPLICA.to_string(),
    }
}

/// A response, one JSON object per line: `{"version":1,"ok":{...}}` on
/// success or `{"version":1,"error":"..."}` on failure.
#[derive(Debug, Clone)]
pub struct Response<T> {
    pub version: u32,
    pub result: RpcResult<T>,
}

/// How a request went.
#[derive(Debug, Clone)]
pub enum RpcResult<T> {
    Okay(T),
    Error(String),
}

impl<T> Response<T> {
    pub fn new(result: RpcResult<T>) -> (response: Response<T>)
        ensures
            response.version == VERSION,
            response.result == result,
    {
        Response { version: VERSION, result }
    }
}

/// Payload of a successful `list` response.
#[derive(Debug, Clone)]
pub struct ListResponse {
    pub replicas: Vec<String>,
}

/// Payload of a successful `status` response.
#[derive(Debug, Clone)]
pub struct StatusResponse<T> {
    pub replica: String,
    /// PID of the `ds sync` server process.
    pub pid: u32,
    /// When the server started.
    pub server_started_at: T,
    /// The sync destination, as `[HOST:]PATH`.
    pub target: String,
    /// The last completed sync, if any.
    pub synced: Option<SyncedStatus<T>>,
    /// The in-flight sync, if any.
    pub syncing: Option<SyncingStatus<T>>,
    /// Files changed since the last completed sync, computed server-side
    /// at request time via a cookie-synchronized watchman since-query
    /// against the synced clock. `None` iff no sync has completed yet
    /// (`synced` is also `None`): there is no clock to query against.
    pub pending: Option<PendingStatus>,
}

/// State of the last completed sync: "synced as-of (internal) clock with
/// sequence number `seq`, at wall-clock time `completed_at`".
#[derive(Debug, Clone)]
pub struct SyncedStatus<T> {
    /// Receipt-order sequence number of the clock this sync covers.
    pub seq: u64,
    /// When the sync completed.
    pub completed_at: T,
}

/// State of an in-flight sync.
#[derive(Debug, Clone)]
pub struct SyncingStatus<T> {
    /// Receipt-order sequence number of the clock this sync will cover.
    pub seq: u64,
    /// When the sync started.
    pub started_at: T,
}

/// Result of the server's since-query against the synced clock.
#[derive(Debug, Clone, Copy, PartialEq, Eq, Structural)]
pub struct PendingStatus {
    /// Number of files changed since the last completed sync (0 means the
    /// replica is up-to-date as of the query).
    pub files: u64,
    /// True if watchman reported `is_fresh_instance` for the query: the
    /// synced clock belongs to a dead watchman instance, `files` counts
    /// the whole tree, and a full resync is due.
    pub fresh_instance: bool,
}

/// Payload of a successful `barrier` response: the state that the barrier
/// was released in, or the current one if its timeout expired.
#[derive(Debug, Clone)]
pub struct BarrierResponse<T> {
    pub replica: String,
    /// The sequence number that the barrier waits for.
    pub target_seq: u64,
    /// The last completed sync, if any.
    pub synced: Option<SyncedStatus<T>>,
    /// Files changed since the last completed sync, if that was asked.
    pub pending: Option<PendingStatus>,
}

/// Whether a completed sync covers a barrier: its clock is sequenced at or
/// after the barrier's, or nothing has changed since it.
pub open spec fn covers(
    synced_seq: Option<u64>,
    target_seq: u64,
    pending: Option<PendingStatus>,
) -> bool {
    match synced_seq {
        Some(seq) => seq >= target_seq || (pending matches Some(p) && p.files == 0),
        None => false,
    }
}

/// The sequence number of a completed sync.
pub open spec fn synced_seq<T>(synced: Option<SyncedStatus<T>>) -> Option<u64> {
    match synced {
        Some(s) => Some(s.seq),
        None => None,
    }
}

impl<T> BarrierResponse<T> {
    /// Whether the state covers the barrier.
    pub fn is_covered(&self) -> (yes: bool)
        ensures
            yes == covers(synced_seq(self.synced), self.target_seq, self.pending),
    {
        match &self.synced {
            Some(synced) => {
                if synced.seq >= self.target_seq {
                    return true;
                }
                match &self.pending {
                    Some(pending) => pending.files == 0,
                    None => false,
                }
            },
            None => false,
        }
    }
}

/// What a client is told that speaks another version.
pub open spec fn version_error(version: u32) -> Seq<char> {
    "unsupported protocol version "@ + decimal(version as nat) + " (this server speaks "@ + decimal(
        VERSION as nat,
    ) + ")"@
}

/// Checks the version of a request.
pub fn check_request_version(version: u32) -> (checked: Result<(), String>)
    ensures
        match checked {
            Ok(_) => version == VERSION,
            Err(text) => version != VERSION && text@ == version_error(version),
        },
{
    if version == VERSION {
        return Ok(());
    }
    let mut text = "unsupported protocol version ".to_string();
    text.append(decimal_text(version as u64).as_str());
    text.append(" (this server speaks ");
    text.append(decimal_text(VERSION as u64).as_str());
    text.append(")");
    Err(text)
}

} // verus!
