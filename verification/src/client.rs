//! The IPC client side: what a reply from a running `ds sync` server means.

use crate::paths::{lossy, lossy_text};
use crate::protocol::{Response, RpcResult, VERSION};
use crate::text::{chars_of, decimal, decimal_text, string_of, trim_end, trimmed_end};
use vstd::prelude::*;

verus! {

/// Why connecting to the server's socket failed.
#[derive(Debug, Clone, Copy, PartialEq, Eq, Structural)]
pub enum ConnectFailure {
    /// There is no socket.
    NotFound,
    /// Nobody listens on it: a stale socket whose server died.
    ConnectionRefused,
    /// Anything else.
    Other,
}

/// What is said when connecting to the server's socket failed. A missing
/// socket or a connection refusal both mean no server is running.
pub fn connect_error(path: &[u8], failure: ConnectFailure, error: &str) -> (text: String)
    ensures
        text@ == (match failure {
            ConnectFailure::Other => "cannot connect to "@ + lossy_text(path@) + ": "@ + error@,
            _ => "no ds sync is running in this repository (cannot connect to "@ + lossy_text(path@)
                + ")"@,
        }),
{
    match failure {
        ConnectFailure::Other => {
            let mut text = "cannot connect to ".to_string();
            text.append(lossy(path).as_str());
            text.append(": ");
            text.append(error);
            text
        },
        _ => {
            let mut text =
                "no ds sync is running in this repository (cannot connect to ".to_string();
            text.append(lossy(path).as_str());
            text.append(")");
            text
        },
    }
}

/// What is said when a reply does not parse.
pub fn parse_failure(reply: &str) -> (text: String)
    ensures
        text@ == "cannot parse server response: "@ + trimmed_end(reply@),
{
    let chars = chars_of(reply);
    let rest = string_of(trim_end(chars.as_slice()));
    let mut text = "cannot parse server response: ".to_string();
    text.append(rest.as_str());
    text
}

/// What is said of a reply in another version of the protocol.
pub open spec fn version_text(version: u32) -> Seq<char> {
    "server speaks protocol version "@ + decimal(version as nat) + " but we speak "@ + decimal(
        VERSION as nat,
    )
}

/// The payload of a reply to a request. A connection that was closed without
/// a reply, a reply in another version of the protocol and an error that the
/// server reports are errors.
pub fn request<T>(reply: Option<Response<T>>) -> (payload: Result<T, String>)
    ensures
        match reply {
            None => payload matches Err(text) && text@
                == "ds sync closed the connection without responding"@,
            Some(response) => if response.version != VERSION {
                payload matches Err(text) && text@ == version_text(response.version)
            } else {
                match response.result {
                    RpcResult::Okay(value) => payload == Ok::<T, String>(value),
                    RpcResult::Error(e) => payload matches Err(text) && text@
                        == "ds sync reported an error: "@ + e@,
                }
            },
        },
{
    let response = match reply {
        Some(response) => response,
        None => {
            return Err("ds sync closed the connection without responding".to_string());
        },
    };
    if response.version != VERSION {
        let mut text = "server speaks protocol version ".to_string();
        text.append(decimal_text(response.version as u64).as_str());
        text.append(" but we speak ");
        text.append(decimal_text(VERSION as u64).as_str());
        return Err(text);
    }
    match response.result {
        RpcResult::Okay(payload) => Ok(payload),
        RpcResult::Error(e) => {
            let mut text = "ds sync reported an error: ".to_string();
            text.append(e.as_str());
            Err(text)
        },
    }
}

} // verus!
