//! The IPC server side: the `.dsync/` control directory, and what each
//! request on the single UNIX socket (`.dsync/dsync.sock`) is answered.
//!
//! One server process per repo. Liveness is determined by a lock on
//! `.dsync/lock`, held for the process lifetime: if the lock is held,
//! another `ds sync` is running; if it is free, any leftover socket is
//! stale and may be unlinked.
//!
//! The caller owns the sockets, the clock reads and the watchman queries;
//! here is decided when one is made and what is answered.

use crate::paths::{bytes_of, join_path, joined, lossy, lossy_text};
use crate::protocol::{
    check_request_version, covers, synced_seq, version_error, BarrierResponse, ListResponse,
    PendingStatus, Request, RequestOp, RpcResult, StatusResponse, SyncedStatus, SyncingStatus,
    Timeout, VERSION,
};
use crate::state::{
    lists, ReplicaState, ReplicaView, ServerState, ServerView, SyncedClock, SyncedView,
    SyncingClock,
};
use crate::target::target_text;
use crate::text::{chars_of, debug_text, quoted, trim, trimmed, views};
use crate::wquery::SinceResult;
use vstd::prelude::*;
use vstd::utf8::encode_utf8;

verus! {

// ---------------------------------------------------------------------------
// The control directory
// ---------------------------------------------------------------------------
/// The control directory of a repo.
pub open spec fn control_dir_of(repo_root: Seq<u8>) -> Seq<u8> {
    joined(repo_root, encode_utf8(".dsync"@))
}

/// The path of the control directory of a repo.
pub fn control_dir(repo_root: &[u8]) -> (path: Vec<u8>)
    ensures
        path@ == control_dir_of(repo_root@),
{
    let name = bytes_of(".dsync");
    join_path(repo_root, name.as_slice())
}

/// The path of the IPC socket for a repo.
pub fn socket_path(repo_root: &[u8]) -> (path: Vec<u8>)
    ensures
        path@ == joined(control_dir_of(repo_root@), encode_utf8("dsync.sock"@)),
{
    let dir = control_dir(repo_root);
    let name = bytes_of("dsync.sock");
    join_path(dir.as_slice(), name.as_slice())
}

/// The path of the instance lock for a repo.
pub fn lock_path(repo_root: &[u8]) -> (path: Vec<u8>)
    ensures
        path@ == joined(control_dir_of(repo_root@), encode_utf8("lock"@)),
{
    let dir = control_dir(repo_root);
    let name = bytes_of("lock");
    join_path(dir.as_slice(), name.as_slice())
}

/// What is said when another `ds sync` holds the instance lock.
pub fn lock_held_message(lock_path: &[u8]) -> (text: String)
    ensures
        text@ == "ds sync is already running in this repository (lock "@ + lossy_text(lock_path@)
            + " is held)"@,
{
    let mut text = "ds sync is already running in this repository (lock ".to_string();
    text.append(lossy(lock_path).as_str());
    text.append(" is held)");
    text
}

// ---------------------------------------------------------------------------
// Statuses
// ---------------------------------------------------------------------------
/// A completed sync as it is reported: its sequence number and when it
/// completed.
pub open spec fn synced_report<T>(synced: Option<SyncedView<T>>) -> Option<SyncedStatus<T>> {
    match synced {
        Some(s) => Some(SyncedStatus { seq: s.seq, completed_at: s.completed_at }),
        None => None,
    }
}

/// An in-flight sync as it is reported.
pub open spec fn syncing_report<T>(syncing: Option<SyncingClock<T>>) -> Option<SyncingStatus<T>> {
    match syncing {
        Some(s) => Some(SyncingStatus { seq: s.seq, started_at: s.started_at }),
        None => None,
    }
}

fn report_synced<T: Copy>(synced: &Option<SyncedClock<T>>) -> (status: Option<SyncedStatus<T>>)
    ensures
        status == synced_report(
            match *synced {
                Some(s) => Some(s@),
                None => None,
            },
        ),
{
    match synced {
        Some(s) => Some(SyncedStatus { seq: s.seq, completed_at: s.completed_at }),
        None => None,
    }
}

fn report_syncing<T: Copy>(syncing: &Option<SyncingClock<T>>) -> (status: Option<
    SyncingStatus<T>,
>)
    ensures
        status == syncing_report(*syncing),
{
    match syncing {
        Some(s) => Some(SyncingStatus { seq: s.seq, started_at: s.started_at }),
        None => None,
    }
}

/// Whether a response reports the state of a replica, as it was at one time,
/// on a server.
pub open spec fn reports<T>(
    response: StatusResponse<T>,
    name: Seq<char>,
    pid: u32,
    started_at: T,
    replica: ReplicaView<T>,
    pending: Option<PendingStatus>,
) -> bool {
    &&& response.replica@ == name
    &&& response.pid == pid
    &&& response.server_started_at == started_at
    &&& response.target@ == target_text(replica.target)
    &&& response.synced == synced_report(replica.synced)
    &&& response.syncing == syncing_report(replica.syncing)
    &&& response.pending == pending
}

/// What a request for an unknown replica is answered.
pub open spec fn unknown_replica_text(name: Seq<char>) -> Seq<char> {
    "unknown replica "@ + debug_text(name)
}

fn unknown_replica(name: &str) -> (text: String)
    ensures
        text@ == unknown_replica_text(name@),
{
    let mut text = "unknown replica ".to_string();
    text.append(quoted(name).as_str());
    text
}

/// A status request that waits for the answer to a since-query against the
/// synced clock.
#[derive(Debug)]
pub struct StatusQuery<T> {
    pub replica: String,
    pub pid: u32,
    pub started_at: T,
    /// The replica's state when the request arrived; a sync has completed.
    pub snapshot: ReplicaState<T>,
}

/// What to do about a status request.
#[derive(Debug)]
pub enum StatusStep<T> {
    /// Answer it.
    Reply(RpcResult<StatusResponse<T>>),
    /// Ask which files have changed since the snapshot's synced clock, and
    /// answer with [`StatusQuery::reply`].
    AskPending(StatusQuery<T>),
}

/// Reports the state of a replica.
fn report<T: Copy>(
    name: &str,
    pid: u32,
    started_at: T,
    replica: &ReplicaState<T>,
    pending: Option<PendingStatus>,
) -> (response: StatusResponse<T>)
    ensures
        reports(response, name@, pid, started_at, replica@, pending),
{
    StatusResponse {
        replica: name.to_string(),
        pid,
        server_started_at: started_at,
        target: replica.target.display(),
        synced: report_synced(&replica.synced),
        syncing: report_syncing(&replica.syncing),
        pending,
    }
}

/// Starts to answer a status request. Up-to-dateness is *state computed
/// now*, server-side: a cookie-synchronized since-query against the synced
/// clock yields the set of files not yet covered by a completed sync. The
/// clock itself never leaves this process. With no completed sync there is
/// no clock to query against.
pub fn handle_status<T: Copy>(replica: &str, state: &ServerState<T>) -> (step: StatusStep<T>)
    requires
        state.well_formed(),
    ensures
        if !state@.replicas.dom().contains(replica@) {
            step matches StatusStep::Reply(RpcResult::Error(text)) && text@ == unknown_replica_text(
                replica@,
            )
        } else if state@.replicas[replica@].synced is None {
            step matches StatusStep::Reply(RpcResult::Okay(response)) && reports(
                response,
                replica@,
                state@.pid,
                state@.started_at,
                state@.replicas[replica@],
                None,
            )
        } else {
            step matches StatusStep::AskPending(query) && query.replica@ == replica@ && query.pid
                == state@.pid && query.started_at == state@.started_at && query.snapshot@
                == state@.replicas[replica@]
        },
{
    match state.replica(replica) {
        None => StatusStep::Reply(RpcResult::Error(unknown_replica(replica))),
        Some(snapshot) => {
            if snapshot.synced.is_none() {
                return StatusStep::Reply(
                    RpcResult::Okay(
                        report(replica, state.pid(), state.started_at(), &snapshot, None),
                    ),
                );
            }
            StatusStep::AskPending(
                StatusQuery {
                    replica: replica.to_string(),
                    pid: state.pid(),
                    started_at: state.started_at(),
                    snapshot,
                },
            )
        },
    }
}

impl<T: Copy> StatusQuery<T> {
    /// Answers the request, given what has changed since the snapshot's
    /// synced clock, or why that could not be found out.
    pub fn reply(&self, pending: Result<PendingStatus, String>) -> (result: RpcResult<
        StatusResponse<T>,
    >)
        ensures
            match pending {
                Ok(files) => result matches RpcResult::Okay(response) && reports(
                    response,
                    self.replica@,
                    self.pid,
                    self.started_at,
                    self.snapshot@,
                    Some(files),
                ),
                Err(e) => result matches RpcResult::Error(text) && text@
                    == "watchman since-query for replica "@ + debug_text(self.replica@)
                    + " failed: "@ + e@,
            },
    {
        match pending {
            Ok(files) => RpcResult::Okay(
                report(
                    self.replica.as_str(),
                    self.pid,
                    self.started_at,
                    &self.snapshot,
                    Some(files),
                ),
            ),
            Err(e) => {
                let mut text = "watchman since-query for replica ".to_string();
                text.append(quoted(self.replica.as_str()).as_str());
                text.append(" failed: ");
                text.append(e.as_str());
                RpcResult::Error(text)
            },
        }
    }
}

/// What a since-query says about the files not yet covered by a completed
/// sync. A fresh instance means that the clock belongs to a dead watchman
/// instance: the count covers the whole tree, and the subscription is
/// independently delivering the full-resync signal.
pub fn pending_files(result: &SinceResult) -> (pending: PendingStatus)
    ensures
        pending.files == result.files@.len(),
        pending.fresh_instance == result.is_fresh_instance,
{
    PendingStatus {
        files: result.files.len() as u64,
        fresh_instance: result.is_fresh_instance,
    }
}

// ---------------------------------------------------------------------------
// Barriers
// ---------------------------------------------------------------------------
/// A barrier request that was accepted.
#[derive(Debug, Clone, PartialEq, Eq)]
pub struct Barrier {
    pub replica: String,
    /// How long to wait at most, in nanoseconds, once a sequence number is
    /// assigned.
    pub timeout: Option<u128>,
    /// The sequence number to wait for, once it is assigned.
    pub target_seq: Option<u64>,
}

/// What a barrier with a bad timeout is answered.
pub open spec fn bad_timeout_text(timeout: Seq<char>) -> Seq<char> {
    "invalid barrier timeout "@ + timeout + ": must be a non-negative number of seconds"@
}

/// Starts a barrier request: pin down "now" and park until a completed sync
/// covers it.
///
/// The pin is a cookie-synchronized watchman clock read performed *after*
/// the request arrives ("as-of invocation" semantics): every filesystem
/// change that happened before the request is covered by that clock. The
/// clock value itself is discarded; only the receipt-order sequence number
/// assigned to it matters.
pub fn handle_barrier<T: Copy>(
    replica: &str,
    timeout: &Option<Timeout>,
    state: &ServerState<T>,
) -> (started: Result<Barrier, String>)
    requires
        state.well_formed(),
    ensures
        if !state@.replicas.dom().contains(replica@) {
            started matches Err(text) && text@ == unknown_replica_text(replica@)
        } else {
            match *timeout {
                Some(t) if t.nanos is None => started matches Err(text) && text@
                    == bad_timeout_text(t.text@),
                _ => started matches Ok(barrier) && barrier.replica@ == replica@ && barrier.timeout
                    == (match *timeout {
                    Some(t) => t.nanos,
                    None => None,
                }) && barrier.target_seq is None,
            }
        },
{
    if state.replica(replica).is_none() {
        return Err(unknown_replica(replica));
    }
    match timeout {
        None => Ok(Barrier { replica: replica.to_string(), timeout: None, target_seq: None }),
        Some(t) => match t.nanos {
            None => {
                let mut text = "invalid barrier timeout ".to_string();
                text.append(t.text.as_str());
                text.append(": must be a non-negative number of seconds");
                Err(text)
            },
            Some(nanos) => Ok(
                Barrier {
                    replica: replica.to_string(),
                    timeout: Some(nanos),
                    target_seq: None,
                },
            ),
        },
    }
}

/// What a barrier is answered whose clock could not be read.
pub fn clock_failure(replica: &str, error: &str) -> (text: String)
    ensures
        text@ == "watchman clock read for replica "@ + debug_text(replica@) + " failed: "@ + error@,
{
    let mut text = "watchman clock read for replica ".to_string();
    text.append(quoted(replica).as_str());
    text.append(" failed: ");
    text.append(error);
    text
}

/// What a barrier is answered that cannot be waited for any more.
pub open spec fn barrier_failure_text(replica: Seq<char>, error: Seq<char>) -> Seq<char> {
    "barrier for replica "@ + debug_text(replica) + " failed: "@ + error
}

/// What a barrier is answered that cannot be waited for any more, such as
/// when the sync runner is gone.
pub fn barrier_failure(replica: &str, error: &str) -> (text: String)
    ensures
        text@ == barrier_failure_text(replica@, error@),
{
    let mut text = "barrier for replica ".to_string();
    text.append(quoted(replica).as_str());
    text.append(" failed: ");
    text.append(error);
    text
}

/// Whether a response is the answer to a barrier in the given state.
pub open spec fn answers<T>(
    response: BarrierResponse<T>,
    replica: Seq<char>,
    target_seq: u64,
    synced: Option<SyncedView<T>>,
    pending: Option<PendingStatus>,
) -> bool {
    &&& response.replica@ == replica
    &&& response.target_seq == target_seq
    &&& response.synced == synced_report(synced)
    &&& response.pending == pending
}

fn answer<T: Copy>(
    replica: &str,
    target_seq: u64,
    snapshot: &ReplicaState<T>,
    pending: Option<PendingStatus>,
) -> (response: BarrierResponse<T>)
    ensures
        answers(response, replica@, target_seq, snapshot@.synced, pending),
{
    BarrierResponse {
        replica: replica.to_string(),
        target_seq,
        synced: report_synced(&snapshot.synced),
        pending,
    }
}

/// How a parked barrier stands.
#[derive(Debug)]
pub enum Coverage<T> {
    /// Covered: answer it.
    Covered(BarrierResponse<T>),
    /// Not covered yet: wait for the next completed sync.
    Park,
    /// Ask which files have changed since this state's synced clock, and go
    /// on with [`coverage_after_query`].
    AskPending(ReplicaState<T>),
    /// The barrier cannot be waited for: answer with the error.
    Failed(String),
}

/// How a barrier stands, before any query.
pub enum Standing {
    Gone,
    Covered,
    Parked,
    Unclear,
}

/// How a barrier stands: covered if a completed sync's clock is sequenced at
/// or after the barrier's, and otherwise to be looked into if any sync has
/// completed.
pub open spec fn standing<T>(
    replicas: Map<Seq<char>, ReplicaView<T>>,
    replica: Seq<char>,
    target_seq: u64,
) -> Standing {
    if !replicas.dom().contains(replica) {
        Standing::Gone
    } else {
        match replicas[replica].synced {
            None => Standing::Parked,
            Some(synced) => if synced.seq >= target_seq {
                Standing::Covered
            } else {
                Standing::Unclear
            },
        }
    }
}

/// Looks whether the replica's sync state covers `target_seq`, when the
/// barrier is parked and again on every completed sync. Two ways to be
/// covered:
///
/// - a completed sync's clock is sequenced at/after the barrier's
///   (`synced.seq >= target_seq`): under continuous churn this is the
///   path that terminates, since the target is fixed while sync seqs only
///   grow; or
/// - a cookie-synchronized since-query against the synced clock comes back
///   empty: nothing has changed since the last completed sync, so the
///   replica is up-to-date as of *now* (>= the barrier's point in time).
///   This is the path that terminates when the barrier's clock was bumped
///   by non-file activity (e.g. its own sync cookie) and no further
///   notification, hence no further sync, is ever coming.
pub fn wait_for_coverage<T: Copy>(
    replica: &str,
    target_seq: u64,
    state: &ServerState<T>,
) -> (coverage: Coverage<T>)
    requires
        state.well_formed(),
    ensures
        match standing(state@.replicas, replica@, target_seq) {
            Standing::Gone => coverage matches Coverage::Failed(text) && text@
                == barrier_failure_text(replica@, "replica disappeared"@),
            Standing::Parked => coverage is Park,
            Standing::Covered => coverage matches Coverage::Covered(response) && answers(
                response,
                replica@,
                target_seq,
                state@.replicas[replica@].synced,
                None,
            ),
            Standing::Unclear => coverage matches Coverage::AskPending(snapshot) && snapshot@
                == state@.replicas[replica@],
        },
        coverage is Park <==> state@.replicas.dom().contains(replica@)
            && state@.replicas[replica@].synced is None,
        coverage is AskPending <==> state@.replicas.dom().contains(replica@) && (
        state@.replicas[replica@].synced matches Some(synced) && synced.seq < target_seq),
{
    match state.replica(replica) {
        None => Coverage::Failed(barrier_failure(replica, "replica disappeared")),
        Some(snapshot) => {
            let seq: u64 = match &snapshot.synced {
                None => {
                    return Coverage::Park;
                },
                Some(synced) => synced.seq,
            };
            if seq >= target_seq {
                Coverage::Covered(answer(replica, target_seq, &snapshot, None))
            } else {
                Coverage::AskPending(snapshot)
            }
        },
    }
}

/// How the barrier stands once it is known what has changed since the
/// snapshot's synced clock: covered if nothing has.
pub fn coverage_after_query<T: Copy>(
    replica: &str,
    target_seq: u64,
    snapshot: &ReplicaState<T>,
    pending: Result<PendingStatus, String>,
) -> (coverage: Coverage<T>)
    ensures
        match pending {
            Ok(files) => if files.files == 0 {
                coverage matches Coverage::Covered(response) && answers(
                    response,
                    replica@,
                    target_seq,
                    snapshot@.synced,
                    Some(files),
                )
            } else {
                coverage is Park
            },
            Err(e) => coverage matches Coverage::Failed(text) && text@ == barrier_failure_text(
                replica@,
                "watchman since-query failed: "@ + e@,
            ),
        },
{
    match pending {
        Ok(files) => {
            if files.files == 0 {
                Coverage::Covered(answer(replica, target_seq, snapshot, Some(files)))
            } else {
                Coverage::Park
            }
        },
        Err(e) => {
            let mut why = "watchman since-query failed: ".to_string();
            why.append(e.as_str());
            Coverage::Failed(barrier_failure(replica, why.as_str()))
        },
    }
}

/// The answer to a barrier whose timeout expired: the current (not covered)
/// state, for the client to judge.
pub fn barrier_timed_out<T: Copy>(
    replica: &str,
    target_seq: u64,
    state: &ServerState<T>,
) -> (result: RpcResult<BarrierResponse<T>>)
    requires
        state.well_formed(),
    ensures
        if state@.replicas.dom().contains(replica@) {
            result matches RpcResult::Okay(response) && answers(
                response,
                replica@,
                target_seq,
                state@.replicas[replica@].synced,
                None,
            )
        } else {
            result matches RpcResult::Error(text) && text@ == barrier_failure_text(
                replica@,
                "replica disappeared"@,
            )
        },
{
    match state.replica(replica) {
        Some(snapshot) => RpcResult::Okay(answer(replica, target_seq, &snapshot, None)),
        None => RpcResult::Error(barrier_failure(replica, "replica disappeared")),
    }
}

/// What has happened to a barrier.
#[derive(Debug)]
pub enum BarrierEvent<T> {
    /// The cookie-synchronized clock read is over; its value is discarded.
    ClockRead(Result<(), String>),
    /// The number of that clock in receipt order is known, or why it is not.
    SeqAssigned(Result<u64, String>),
    /// A sync has completed since the last look.
    SyncCompleted,
    /// It is known what has changed since the snapshot's synced clock, or
    /// why it is not.
    QueryAnswered { snapshot: ReplicaState<T>, pending: Result<PendingStatus, String> },
    /// The timeout has expired.
    TimedOut,
    /// There will be no more syncs, and why.
    RunnerGone(String),
}

/// What to do about a barrier.
#[derive(Debug)]
pub enum BarrierStep<T> {
    /// Have a sequence number assigned, ordered after every clock already
    /// received over the watchman connection.
    AssignSeq,
    /// Wait for the next completed sync, or for the timeout.
    Park,
    /// Ask which files have changed since this state's synced clock.
    AskPending(ReplicaState<T>),
    /// Answer it.
    Reply(RpcResult<BarrierResponse<T>>),
}

/// Whether `step` is what a look at the replica's state calls for.
pub open spec fn looks<T>(
    replicas: Map<Seq<char>, ReplicaView<T>>,
    replica: Seq<char>,
    target_seq: u64,
    step: BarrierStep<T>,
) -> bool {
    match standing(replicas, replica, target_seq) {
        Standing::Gone => step matches BarrierStep::Reply(RpcResult::Error(text)) && text@
            == barrier_failure_text(replica, "replica disappeared"@),
        Standing::Parked => step is Park,
        Standing::Covered => step matches BarrierStep::Reply(RpcResult::Okay(response))
            && answers(response, replica, target_seq, replicas[replica].synced, None),
        Standing::Unclear => step matches BarrierStep::AskPending(snapshot) && snapshot@
            == replicas[replica],
    }
}

fn step_of<T>(coverage: Coverage<T>) -> (step: BarrierStep<T>)
    ensures
        step == (match coverage {
            Coverage::Covered(response) => BarrierStep::Reply(RpcResult::Okay(response)),
            Coverage::Park => BarrierStep::Park,
            Coverage::AskPending(snapshot) => BarrierStep::AskPending(snapshot),
            Coverage::Failed(text) => BarrierStep::Reply(RpcResult::Error(text)),
        }),
{
    match coverage {
        Coverage::Covered(response) => BarrierStep::Reply(RpcResult::Okay(response)),
        Coverage::Park => BarrierStep::Park,
        Coverage::AskPending(snapshot) => BarrierStep::AskPending(snapshot),
        Coverage::Failed(text) => BarrierStep::Reply(RpcResult::Error(text)),
    }
}

impl Barrier {
    /// What to do about a barrier after an event: first its clock is read,
    /// then a sequence number is assigned to that clock, and from then on it
    /// is released by the first state that covers the number. The number is
    /// fixed while those of syncs only grow, so a barrier cannot starve under
    /// continuous churn. It is released only in a state that covers it, as
    /// the client can tell from the answer, or when its timeout expires.
    pub fn step<T: Copy>(&mut self, event: BarrierEvent<T>, state: &ServerState<T>) -> (step:
        BarrierStep<T>)
        requires
            state.well_formed(),
            old(self).target_seq is None ==> event is ClockRead || event is SeqAssigned,
        ensures
            final(self).replica@ == old(self).replica@,
            final(self).timeout == old(self).timeout,
            final(self).target_seq == (match event {
                BarrierEvent::SeqAssigned(Ok(seq)) => Some(seq),
                _ => old(self).target_seq,
            }),
            match event {
                BarrierEvent::ClockRead(Ok(_)) => step is AssignSeq,
                BarrierEvent::ClockRead(Err(e)) => step matches BarrierStep::Reply(
                    RpcResult::Error(text),
                ) && text@ == "watchman clock read for replica "@ + debug_text(old(self).replica@)
                    + " failed: "@ + e@,
                BarrierEvent::SeqAssigned(Ok(seq)) => looks(
                    state@.replicas,
                    old(self).replica@,
                    seq,
                    step,
                ),
                BarrierEvent::SeqAssigned(Err(e)) => step == BarrierStep::<T>::Reply(
                    RpcResult::Error(e),
                ),
                BarrierEvent::SyncCompleted => looks(
                    state@.replicas,
                    old(self).replica@,
                    old(self).target_seq->0,
                    step,
                ),
                BarrierEvent::QueryAnswered { snapshot, pending } => match pending {
                    Ok(files) => if files.files == 0 {
                        step matches BarrierStep::Reply(RpcResult::Okay(response)) && answers(
                            response,
                            old(self).replica@,
                            old(self).target_seq->0,
                            snapshot@.synced,
                            Some(files),
                        )
                    } else {
                        step is Park
                    },
                    Err(e) => step matches BarrierStep::Reply(RpcResult::Error(text)) && text@
                        == barrier_failure_text(
                        old(self).replica@,
                        "watchman since-query failed: "@ + e@,
                    ),
                },
                BarrierEvent::TimedOut => if state@.replicas.dom().contains(old(self).replica@) {
                    step matches BarrierStep::Reply(RpcResult::Okay(response)) && answers(
                        response,
                        old(self).replica@,
                        old(self).target_seq->0,
                        state@.replicas[old(self).replica@].synced,
                        None,
                    )
                } else {
                    step matches BarrierStep::Reply(RpcResult::Error(text)) && text@
                        == barrier_failure_text(old(self).replica@, "replica disappeared"@)
                },
                BarrierEvent::RunnerGone(cause) => step matches BarrierStep::Reply(
                    RpcResult::Error(text),
                ) && text@ == barrier_failure_text(
                    old(self).replica@,
                    "the sync runner is gone: "@ + cause@,
                ),
            },
            event is SyncCompleted || (event matches BarrierEvent::SeqAssigned(Ok(_))) ==> {
                &&& step is Park <==> state@.replicas.dom().contains(old(self).replica@)
                    && state@.replicas[old(self).replica@].synced is None
                &&& step is AskPending <==> state@.replicas.dom().contains(old(self).replica@) && (
                state@.replicas[old(self).replica@].synced matches Some(synced) && synced.seq
                    < final(self).target_seq->0)
            },
            step matches BarrierStep::Reply(RpcResult::Okay(response)) ==> {
                ||| event is TimedOut
                ||| event matches BarrierEvent::QueryAnswered { snapshot, .. }
                    && snapshot@.synced is None
                ||| covers(synced_seq(response.synced), response.target_seq, response.pending)
            },
    {
        let event = match event {
            BarrierEvent::ClockRead(Ok(_)) => {
                return BarrierStep::AssignSeq;
            },
            BarrierEvent::ClockRead(Err(e)) => {
                let text = clock_failure(self.replica.as_str(), e.as_str());
                return BarrierStep::Reply(RpcResult::Error(text));
            },
            BarrierEvent::SeqAssigned(Err(e)) => {
                return BarrierStep::Reply(RpcResult::Error(e));
            },
            BarrierEvent::SeqAssigned(Ok(seq)) => {
                self.target_seq = Some(seq);
                BarrierEvent::SyncCompleted
            },
            other => other,
        };
        let target_seq: u64 = match self.target_seq {
            Some(seq) => seq,
            None => vstd::pervasive::unreached(),
        };
        let replica = self.replica.as_str();
        match event {
            BarrierEvent::QueryAnswered { snapshot, pending } => step_of(
                coverage_after_query(replica, target_seq, &snapshot, pending),
            ),
            BarrierEvent::TimedOut => BarrierStep::Reply(
                barrier_timed_out(replica, target_seq, state),
            ),
            BarrierEvent::RunnerGone(cause) => {
                let mut error = "the sync runner is gone: ".to_string();
                error.append(cause.as_str());
                BarrierStep::Reply(RpcResult::Error(barrier_failure(replica, error.as_str())))
            },
            _ => step_of(wait_for_coverage(replica, target_seq, state)),
        }
    }
}

// ---------------------------------------------------------------------------
// Requests
// ---------------------------------------------------------------------------
/// What to do about a request.
#[derive(Debug)]
pub enum RequestStep<T> {
    /// Answer with an error.
    Refuse(String),
    /// Answer with the names of the replicas.
    List(ListResponse),
    /// Go on with a status request.
    Status(StatusStep<T>),
    /// Go on with a barrier: read the clock, and park.
    Barrier(Barrier),
}

/// Decides what to do about a request.
pub fn handle_request<T: Copy>(request: &Request, state: &ServerState<T>) -> (step: RequestStep<T>)
    requires
        state.well_formed(),
    ensures
        if request.version != VERSION {
            step matches RequestStep::Refuse(text) && text@ == version_error(request.version)
        } else {
            match request.op {
                RequestOp::List => step matches RequestStep::List(list) && lists(
                    views(list.replicas@),
                    state@.replicas,
                ),
                RequestOp::Status { replica } => if state@.replicas.dom().contains(replica@) {
                    step matches RequestStep::Status(s) && (match s {
                        StatusStep::Reply(RpcResult::Okay(response)) => reports(
                            response,
                            replica@,
                            state@.pid,
                            state@.started_at,
                            state@.replicas[replica@],
                            None,
                        ) && state@.replicas[replica@].synced is None,
                        StatusStep::Reply(RpcResult::Error(_)) => false,
                        StatusStep::AskPending(query) => query.replica@ == replica@ && query.pid
                            == state@.pid && query.started_at == state@.started_at
                            && query.snapshot@ == state@.replicas[replica@]
                            && state@.replicas[replica@].synced is Some,
                    })
                } else {
                    step matches RequestStep::Status(StatusStep::Reply(RpcResult::Error(text)))
                        && text@ == unknown_replica_text(replica@)
                },
                RequestOp::Barrier { replica, timeout } => if !state@.replicas.dom().contains(
                    replica@,
                ) {
                    step matches RequestStep::Refuse(text) && text@ == unknown_replica_text(
                        replica@,
                    )
                } else {
                    match timeout {
                        Some(t) if t.nanos is None => step matches RequestStep::Refuse(text)
                            && text@ == bad_timeout_text(t.text@),
                        _ => step matches RequestStep::Barrier(barrier) && barrier.replica@
                            == replica@ && barrier.timeout == (match timeout {
                            Some(t) => t.nanos,
                            None => None,
                        }) && barrier.target_seq is None,
                    }
                },
            }
        },
{
    if let Err(text) = check_request_version(request.version) {
        return RequestStep::Refuse(text);
    }
    match &request.op {
        RequestOp::List => RequestStep::List(ListResponse { replicas: state.replica_names() }),
        RequestOp::Status { replica } => RequestStep::Status(
            handle_status(replica.as_str(), state),
        ),
        RequestOp::Barrier { replica, timeout } => match handle_barrier(
            replica.as_str(),
            timeout,
            state,
        ) {
            Ok(barrier) => RequestStep::Barrier(barrier),
            Err(text) => RequestStep::Refuse(text),
        },
    }
}

/// Whether a line on a connection is blank, and so is no request.
pub fn is_blank(line: &str) -> (yes: bool)
    ensures
        yes == (trimmed(line@).len() == 0),
{
    let rest = trim(line);
    chars_of(rest.as_str()).len() == 0
}

/// What a line that is no request is answered.
pub fn parse_failure(error: &str) -> (text: String)
    ensures
        text@ == "cannot parse request: "@ + error@,
{
    let mut text = "cannot parse request: ".to_string();
    text.append(error);
    text
}

// ---------------------------------------------------------------------------
// What holds of every barrier
// ---------------------------------------------------------------------------
/// A completed sync whose clock is sequenced at or after a barrier's releases
/// it, however many changes keep coming.
pub proof fn completed_syncs_release_barriers<T>(
    before: ServerView<T>,
    after: ServerView<T>,
    replica: Seq<char>,
    synced: SyncedView<T>,
    target_seq: u64,
)
    requires
        before.replicas.dom().contains(replica),
        after.replicas == before.replicas.insert(
            replica,
            ReplicaView { synced: Some(synced), syncing: None, ..before.replicas[replica] },
        ),
        synced.seq >= target_seq,
    ensures
        standing(after.replicas, replica, target_seq) is Covered,
{
}

/// While no sync has completed, a barrier stays parked.
pub proof fn barriers_wait_for_the_first_sync<T>(
    state: ServerView<T>,
    replica: Seq<char>,
    target_seq: u64,
)
    requires
        state.replicas.dom().contains(replica),
        state.replicas[replica].synced is None,
    ensures
        standing(state.replicas, replica, target_seq) is Parked,
{
}

/// A barrier is as of its number's grant: the sync of an event that was
/// received before does not release it by itself, and the sync of one that
/// is received after does.
pub proof fn barriers_are_as_of_their_grant<T>(
    at_grant: ServerView<T>,
    earlier: u64,
    at_event: ServerView<T>,
)
    requires
        earlier < at_grant.next_seq,
        at_event.next_seq > at_grant.next_seq,
    ensures
        !covers(Some(earlier), at_grant.next_seq, None),
        covers(Some(at_event.next_seq), at_grant.next_seq, None),
{
}

/// Clocks never reach the wire: what is reported of a completed sync does not
/// depend on its clock.
pub proof fn clocks_never_reach_the_wire<T>(a: SyncedView<T>, b: SyncedView<T>)
    requires
        a.seq == b.seq,
        a.completed_at == b.completed_at,
    ensures
        synced_report(Some(a)) == synced_report(Some(b)),
{
}

} // verus!
