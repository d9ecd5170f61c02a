//! What holds of every answer of the server, and of how it is read.

use crate::barrier::timeout_text;
use crate::client::version_text;
use crate::names::text_le;
use crate::paths::joined;
use crate::protocol::{
    covers, synced_seq, version_error, BarrierResponse, PendingStatus, RpcResult, StatusResponse,
    SyncedStatus,
};
use crate::server::{
    answers, bad_timeout_text, barrier_failure_text, control_dir_of, looks, reports, standing,
    unknown_replica_text, BarrierStep,
};
use crate::state::{lists, ReplicaView};
use crate::status::{freshness_text, status_text};
use crate::target::target_text;
use crate::text::{debug_text, decimal};
use vstd::prelude::*;
use vstd::utf8::encode_utf8;

verus! {

// ---------------------------------------------------------------------------
// Barriers
// ---------------------------------------------------------------------------
/// A look at the state parks a barrier only while no sync has completed. A
/// completed sync at or after the barrier releases it, and one before it,
/// however far, makes the server ask what has changed since.
pub proof fn barriers_are_parked_only_before_the_first_sync<T>(
    replicas: Map<Seq<char>, ReplicaView<T>>,
    replica: Seq<char>,
    target_seq: u64,
    step: BarrierStep<T>,
)
    requires
        looks(replicas, replica, target_seq, step),
        replicas.dom().contains(replica),
    ensures
        step is Park <==> replicas[replica].synced is None,
        replicas[replica].synced matches Some(synced) ==> if synced.seq < target_seq {
            step matches BarrierStep::AskPending(snapshot) && snapshot@ == replicas[replica]
        } else {
            step matches BarrierStep::Reply(RpcResult::Okay(response)) && response.replica@
                == replica && response.target_seq == target_seq && response.pending is None && (
            response.synced matches Some(s) && s.seq == synced.seq && s.completed_at
                == synced.completed_at)
        },
{
}

/// A barrier on a replica that is gone fails.
pub proof fn barriers_on_lost_replicas_fail<T>(
    replicas: Map<Seq<char>, ReplicaView<T>>,
    replica: Seq<char>,
    target_seq: u64,
    step: BarrierStep<T>,
)
    requires
        looks(replicas, replica, target_seq, step),
        !replicas.dom().contains(replica),
    ensures
        step matches BarrierStep::Reply(RpcResult::Error(text)) && text@ == "barrier for replica "@
            + debug_text(replica) + " failed: replica disappeared"@,
{
    reveal_strlit(" failed: ");
    reveal_strlit("replica disappeared");
    reveal_strlit(" failed: replica disappeared");
    let head = "barrier for replica "@ + debug_text(replica);
    assert(head + " failed: "@ + "replica disappeared"@ =~= head + " failed: replica disappeared"@);
}

/// How a barrier stands depends on whether a sync has completed, and on
/// whether its number is below the barrier's, and on nothing else.
pub proof fn standings_compare_sequence_numbers<T>(
    replicas: Map<Seq<char>, ReplicaView<T>>,
    replica: Seq<char>,
    target_seq: u64,
)
    ensures
        standing(replicas, replica, target_seq) is Gone <==> !replicas.dom().contains(replica),
        replicas.dom().contains(replica) ==> (match replicas[replica].synced {
            None => standing(replicas, replica, target_seq) is Parked,
            Some(synced) => if synced.seq < target_seq {
                standing(replicas, replica, target_seq) is Unclear
            } else {
                standing(replicas, replica, target_seq) is Covered
            },
        }),
{
}

/// A state covers a barrier exactly if a sync at or after it has completed,
/// or one has completed since which nothing has changed.
pub proof fn coverage_needs_a_completed_sync(
    seq: u64,
    target_seq: u64,
    pending: Option<PendingStatus>,
)
    ensures
        !covers(None, target_seq, pending),
        covers(Some(seq), target_seq, None) <==> target_seq <= seq,
        pending matches Some(p) ==> (covers(Some(seq), target_seq, pending) <==> target_seq <= seq
            || p.files == 0),
{
}

/// The number that a response is judged by is that of its completed sync.
pub proof fn responses_tell_the_completed_sync<T>(synced: SyncedStatus<T>)
    ensures
        synced_seq(Some(synced)) == Some(synced.seq),
        synced_seq(None::<SyncedStatus<T>>) is None,
{
}

/// The answer to a barrier tells the replica, the number waited for, and the
/// number and time of the completed sync.
pub proof fn answers_tell_the_state<T>(
    response: BarrierResponse<T>,
    replica: Seq<char>,
    target_seq: u64,
    state: ReplicaView<T>,
    pending: Option<PendingStatus>,
)
    requires
        answers(response, replica, target_seq, state.synced, pending),
    ensures
        response.replica@ == replica,
        response.target_seq == target_seq,
        response.pending == pending,
        match (response.synced, state.synced) {
            (Some(told), Some(synced)) => told.seq == synced.seq && told.completed_at
                == synced.completed_at,
            (None, None) => true,
            _ => false,
        },
{
}

/// A barrier whose state has a completed sync since which nothing has changed
/// is released, and its client reads the answer as "synced", however far the
/// barrier's number is ahead.
pub proof fn idle_repositories_release_every_barrier<T>(
    replicas: Map<Seq<char>, ReplicaView<T>>,
    replica: Seq<char>,
    target_seq: u64,
    first: BarrierStep<T>,
    response: BarrierResponse<T>,
    pending: PendingStatus,
)
    requires
        replicas.dom().contains(replica),
        replicas[replica].synced is Some,
        looks(replicas, replica, target_seq, first),
        pending.files == 0,
        first matches BarrierStep::AskPending(snapshot) ==> answers(
            response,
            replica,
            target_seq,
            snapshot@.synced,
            Some(pending),
        ),
        first matches BarrierStep::Reply(RpcResult::Okay(r)) ==> response == r,
    ensures
        covers(synced_seq(response.synced), response.target_seq, response.pending),
{
}

// ---------------------------------------------------------------------------
// Statuses
// ---------------------------------------------------------------------------
/// A status tells the replica, the server, the target, the completed sync and
/// the one in flight, and what has changed since.
pub proof fn statuses_tell_the_state<T>(
    response: StatusResponse<T>,
    name: Seq<char>,
    pid: u32,
    started_at: T,
    replica: ReplicaView<T>,
    pending: Option<PendingStatus>,
)
    requires
        reports(response, name, pid, started_at, replica, pending),
    ensures
        response.replica@ == name,
        response.pid == pid,
        response.server_started_at == started_at,
        response.target@ == target_text(replica.target),
        response.pending == pending,
        match (response.synced, replica.synced) {
            (Some(told), Some(synced)) => told.seq == synced.seq && told.completed_at
                == synced.completed_at,
            (None, None) => true,
            _ => false,
        },
        match (response.syncing, replica.syncing) {
            (Some(told), Some(syncing)) => told.seq == syncing.seq && told.started_at
                == syncing.started_at,
            (None, None) => true,
            _ => false,
        },
{
}

/// A list names every replica and nothing else, each once and in order.
pub proof fn lists_name_every_replica<T>(
    names: Seq<Seq<char>>,
    replicas: Map<Seq<char>, ReplicaView<T>>,
    name: Seq<char>,
)
    requires
        lists(names, replicas),
    ensures
        names.contains(name) <==> replicas.dom().contains(name),
        names.no_duplicates(),
        forall|i: int, j: int|
            0 <= i < j < names.len() ==> text_le(#[trigger] names[i], #[trigger] names[j]),
{
    assert forall|i: int, j: int| 0 <= i < names.len() && 0 <= j < names.len() && i != j implies
        names[i] != names[j] by {
        if i < j {
            assert(names[i] != names[j]);
        } else {
            assert(names[j] != names[i]);
        }
    }
}

/// A status line says that the initial sync is not complete exactly while no
/// sync has completed, that the replica is up-to-date exactly if nothing has
/// changed since, and otherwise how many files have.
pub proof fn status_lines_tell_how_fresh_the_replica_is(
    pending: Option<PendingStatus>,
    age: Seq<char>,
)
    ensures
        freshness_text(false, pending, age) == "initial sync not yet complete"@,
        freshness_text(true, None, age) == "synced "@ + age + " ago"@,
        pending matches Some(p) ==> {
            &&& p.files == 0 ==> freshness_text(true, pending, age) == "up-to-date (synced "@ + age
                + " ago)"@
            &&& p.files == 1 && !p.fresh_instance ==> freshness_text(true, pending, age)
                == "1 file pending (last sync "@ + age + " ago)"@
            &&& p.files > 1 && !p.fresh_instance ==> freshness_text(true, pending, age) == decimal(
                p.files as nat,
            ) + " files pending (last sync "@ + age + " ago)"@
            &&& p.files == 1 && p.fresh_instance ==> freshness_text(true, pending, age)
                == "1 file pending (last sync "@ + age
                + " ago) [watchman restarted; full resync due]"@
            &&& p.files > 1 && p.fresh_instance ==> freshness_text(true, pending, age) == decimal(
                p.files as nat,
            ) + " files pending (last sync "@ + age
                + " ago) [watchman restarted; full resync due]"@
        },
{
    reveal_strlit("1 file pending (last sync ");
    reveal_strlit(" file pending (last sync ");
    reveal_strlit(" ago)");
    reveal_strlit(" [watchman restarted; full resync due]");
    reveal_strlit(" ago) [watchman restarted; full resync due]");
    if let Some(p) = pending {
        let text = freshness_text(true, pending, age);
        assert(decimal(1) =~= seq!['1']);
        assert(" ago)"@ + " [watchman restarted; full resync due]"@
            =~= " ago) [watchman restarted; full resync due]"@);
        if p.files == 1 && !p.fresh_instance {
            assert(text =~= "1 file pending (last sync "@ + age + " ago)"@);
        }
        if p.files > 1 && !p.fresh_instance {
            assert(text =~= decimal(p.files as nat) + " files pending (last sync "@ + age
                + " ago)"@);
        }
        if p.files == 1 && p.fresh_instance {
            assert(text =~= "1 file pending (last sync "@ + age
                + " ago) [watchman restarted; full resync due]"@);
        }
        if p.files > 1 && p.fresh_instance {
            assert(text =~= decimal(p.files as nat) + " files pending (last sync "@ + age
                + " ago) [watchman restarted; full resync due]"@);
        }
    }
}

/// A status line names the replica, the server process and the target, and
/// tells of a sync in flight exactly if there is one.
pub proof fn status_lines_name_replica_and_target<T>(status: StatusResponse<T>, age: Seq<char>)
    ensures
        status_text(status, age) == status.replica@ + ": pid "@ + decimal(status.pid as nat)
            + " -> "@ + status.target@ + ": "@ + freshness_text(
            status.synced is Some,
            status.pending,
            age,
        ) + (match status.syncing {
            Some(_) => ", sync in progress"@,
            None => Seq::empty(),
        }),
{
}

// ---------------------------------------------------------------------------
// Messages
// ---------------------------------------------------------------------------
/// Both sides speak version 1, and say so to one that speaks another.
pub proof fn both_sides_speak_version_one(version: u32)
    ensures
        version_error(version) == "unsupported protocol version "@ + decimal(version as nat)
            + " (this server speaks 1)"@,
        version_text(version) == "server speaks protocol version "@ + decimal(version as nat)
            + " but we speak 1"@,
{
    reveal_strlit(" (this server speaks ");
    reveal_strlit(" (this server speaks 1)");
    reveal_strlit(")");
    reveal_strlit(" but we speak ");
    reveal_strlit(" but we speak 1");
    assert(decimal(1) =~= seq!['1']);
    assert(version_error(version) =~= "unsupported protocol version "@ + decimal(version as nat)
        + " (this server speaks 1)"@);
    assert(version_text(version) =~= "server speaks protocol version "@ + decimal(version as nat)
        + " but we speak 1"@);
}

/// Errors name the replica, the timeout and the numbers that they are about.
pub proof fn errors_name_what_they_are_about(
    name: Seq<char>,
    timeout: Seq<char>,
    error: Seq<char>,
    seq: u64,
    target_seq: u64,
)
    ensures
        unknown_replica_text(name) == "unknown replica "@ + debug_text(name),
        bad_timeout_text(timeout) == "invalid barrier timeout "@ + timeout
            + ": must be a non-negative number of seconds"@,
        barrier_failure_text(name, error) == "barrier for replica "@ + debug_text(name)
            + " failed: "@ + error,
        timeout_text(Some(seq), target_seq)
            == "timed out waiting for sync: last completed sync covers seq "@ + decimal(seq as nat)
            + ", but this barrier needs seq "@ + decimal(target_seq as nat),
        timeout_text(None, target_seq)
            == "timed out waiting for sync: no sync has completed yet (this barrier needs seq "@
            + decimal(target_seq as nat) + ")"@,
{
    reveal_strlit("timed out waiting for sync: no sync has completed yet ");
    reveal_strlit("(this barrier needs seq ");
    reveal_strlit("timed out waiting for sync: no sync has completed yet (this barrier needs seq ");
    assert("timed out waiting for sync: no sync has completed yet "@ + "(this barrier needs seq "@
        =~= "timed out waiting for sync: no sync has completed yet (this barrier needs seq "@);
}

/// The control directory is the root's `.dsync` entry, which is never synced.
pub proof fn the_control_directory_is_an_internal_entry(repo_root: Seq<u8>)
    ensures
        control_dir_of(repo_root) == joined(repo_root, encode_utf8(".dsync"@)),
{
}

} // verus!
