//! `ds barrier`: block until the replica is up-to-date as-of this
//! invocation.
//!
//! The request is bare: the server reads the watchman clock (with cookie
//! synchronization) on our behalf when the request arrives, so clients
//! never observe clocks. The server parks the request until a completed
//! sync covers that point in time, or until the timeout, if one was given,
//! in which case it replies with the current (not covered) state and we
//! exit with [`TIMEOUT_EXIT_CODE`].

use crate::protocol::{covers, synced_seq, BarrierResponse};
use crate::text::{decimal, decimal_text};
use vstd::prelude::*;

verus! {

/// Exit code for a barrier that timed out, distinct from generic errors
/// (1) and CLI usage errors (2).
pub const TIMEOUT_EXIT_CODE: i32 = 3;

/// What the barrier reply told us.
#[derive(Debug, Clone, Copy, PartialEq, Eq, Structural)]
pub enum Outcome {
    /// A completed sync covers this invocation's point in time.
    Synced,
    /// The timeout expired first.
    TimedOut,
}

/// What is said of a barrier that timed out.
pub open spec fn timeout_text(synced_seq: Option<u64>, target_seq: u64) -> Seq<char> {
    match synced_seq {
        Some(seq) => "timed out waiting for sync: last completed sync covers seq "@ + decimal(
            seq as nat,
        ) + ", but this barrier needs seq "@ + decimal(target_seq as nat),
        None => "timed out waiting for sync: no sync has completed yet "@
            + "(this barrier needs seq "@ + decimal(target_seq as nat) + ")"@,
    }
}

/// Judges the reply to a barrier request, and says why it timed out. The
/// server replies with not-covered state only when the (requested) timeout
/// expired.
pub fn cmd_barrier<T>(response: &BarrierResponse<T>) -> (judged: (Outcome, Option<String>))
    ensures
        if covers(synced_seq(response.synced), response.target_seq, response.pending) {
            judged.0 is Synced && judged.1 is None
        } else {
            judged.0 is TimedOut && (judged.1 matches Some(text) && text@ == timeout_text(
                synced_seq(response.synced),
                response.target_seq,
            ))
        },
{
    if response.is_covered() {
        return (Outcome::Synced, None);
    }
    let text = match &response.synced {
        Some(synced) => {
            let mut text =
                "timed out waiting for sync: last completed sync covers seq ".to_string();
            text.append(decimal_text(synced.seq).as_str());
            text.append(", but this barrier needs seq ");
            text.append(decimal_text(response.target_seq).as_str());
            text
        },
        None => {
            let mut text = "timed out waiting for sync: no sync has completed yet ".to_string();
            text.append("(this barrier needs seq ");
            text.append(decimal_text(response.target_seq).as_str());
            text.append(")");
            text
        },
    };
    (Outcome::TimedOut, Some(text))
}

} // verus!
