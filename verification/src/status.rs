//! `ds status`: report the state of the running sync server, per replica.

use crate::protocol::{PendingStatus, StatusResponse};
use crate::text::{decimal, decimal_text};
use vstd::prelude::*;

verus! {

/// How up-to-date a replica is, in words. `age` is how long ago the last
/// sync completed.
pub open spec fn freshness_text(
    synced: bool,
    pending: Option<PendingStatus>,
    age: Seq<char>,
) -> Seq<char> {
    if !synced {
        "initial sync not yet complete"@
    } else {
        match pending {
            // The server always computes `pending` when a sync has
            // completed; its absence is tolerated anyway.
            None => "synced "@ + age + " ago"@,
            Some(p) => if p.files == 0 {
                "up-to-date (synced "@ + age + " ago)"@
            } else {
                decimal(p.files as nat) + (if p.files == 1 {
                    " file pending (last sync "@
                } else {
                    " files pending (last sync "@
                }) + age + " ago)"@ + (if p.fresh_instance {
                    " [watchman restarted; full resync due]"@
                } else {
                    Seq::empty()
                })
            },
        }
    }
}

/// One replica's status in a line.
pub open spec fn status_text<T>(status: StatusResponse<T>, age: Seq<char>) -> Seq<char> {
    status.replica@ + ": pid "@ + decimal(status.pid as nat) + " -> "@ + status.target@ + ": "@
        + freshness_text(status.synced is Some, status.pending, age) + (if status.syncing is Some {
        ", sync in progress"@
    } else {
        Seq::empty()
    })
}

/// How up-to-date a replica is, in words.
fn render_freshness(synced: bool, pending: &Option<PendingStatus>, age: &str) -> (text: String)
    ensures
        text@ == freshness_text(synced, *pending, age@),
{
    if !synced {
        return "initial sync not yet complete".to_string();
    }
    match pending {
        None => {
            let mut text = "synced ".to_string();
            text.append(age);
            text.append(" ago");
            text
        },
        Some(p) => {
            if p.files == 0 {
                let mut text = "up-to-date (synced ".to_string();
                text.append(age);
                text.append(" ago)");
                return text;
            }
            let mut text = decimal_text(p.files);
            if p.files == 1 {
                text.append(" file pending (last sync ");
            } else {
                text.append(" files pending (last sync ");
            }
            text.append(age);
            text.append(" ago)");
            if p.fresh_instance {
                text.append(" [watchman restarted; full resync due]");
            }
            proof {
                assert(text@ =~= freshness_text(synced, *pending, age@));
            }
            text
        },
    }
}

/// Render one replica's status as a single line:
/// `REPLICA: pid PID -> TARGET: up-to-date (synced 2.3s ago)` and friends.
/// `age` is how long ago the last sync completed, if one has.
pub fn render_status<T>(status: &StatusResponse<T>, age: &str) -> (line: String)
    ensures
        line@ == status_text(*status, age@),
{
    let mut line = status.replica.clone();
    line.append(": pid ");
    line.append(decimal_text(status.pid as u64).as_str());
    line.append(" -> ");
    line.append(status.target.as_str());
    line.append(": ");
    line.append(render_freshness(status.synced.is_some(), &status.pending, age).as_str());
    if status.syncing.is_some() {
        line.append(", sync in progress");
    }
    proof {
        assert(line@ =~= status_text(*status, age@));
    }
    line
}

} // verus!
