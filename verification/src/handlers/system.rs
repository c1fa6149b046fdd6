//! Synchronisation with the Taskchampion server, and the steps of a write.
use vstd::prelude::*;
use vstd::string::*;

use crate::handlers::ApiError;
use crate::models::SyncResponse;

verus! {

/// The message of a failed synchronisation.
pub fn sync_failure_message(detail: &str) -> (r: String)
    ensures
        r@ == "Sync failed: "@ + detail@,
{
    let mut m = String::from_str("Sync failed: ");
    m.append(detail);
    m
}

/// The answer to a request for synchronisation, given how it went (`Err`
/// holds the failure message) and when: 200 OK with a success message, or
/// 500 Internal Server Error with the failure message.
pub fn trigger_sync(outcome: Result<(), String>, synced_at: String) -> (r: (u16, SyncResponse))
    ensures
        r.1.synced_at@ == synced_at@,
        match outcome {
            Ok(()) => {
                &&& r.0 == 200
                &&& r.1.success
                &&& r.1.message@ == "Sync completed successfully"@
            },
            Err(m) => {
                &&& r.0 == 500
                &&& !r.1.success
                &&& r.1.message@ == m@
            },
        },
{
    match outcome {
        Ok(()) => (
            200,
            SyncResponse {
                success: true,
                message: String::from_str("Sync completed successfully"),
                synced_at,
            },
        ),
        Err(m) => (500, SyncResponse { success: false, message: m, synced_at }),
    }
}

/// What happened in the course of a write.
#[derive(Debug, Clone, Copy, PartialEq, Eq, Structural)]
pub enum WriteEvent {
    Committed,
    CommitFailed,
    Synced,
    SyncFailed,
}

/// What to do next in the course of a write.
#[derive(Debug, Clone, Copy, PartialEq, Eq, Structural)]
pub enum WriteAction {
    /// Synchronise with the server.
    Sync,
    /// Answer with this success status.
    Answer(u16),
    /// Answer with this error.
    Fail(ApiError),
}

/// The next step of a write once its edits are made: a failed commit fails
/// the request; a commit is followed by a synchronisation when automatic
/// synchronisation is on; a synchronisation, whether it worked or not, is
/// followed by the success answer (its failure is only reported in the log).
pub fn next_write_action(event: WriteEvent, auto_sync: bool, success_status: u16) -> (a:
    WriteAction)
    ensures
        a == (match event {
            WriteEvent::CommitFailed => WriteAction::Fail(ApiError::Internal),
            WriteEvent::Committed => if auto_sync {
                WriteAction::Sync
            } else {
                WriteAction::Answer(success_status)
            },
            WriteEvent::Synced | WriteEvent::SyncFailed => WriteAction::Answer(success_status),
        }),
{
    match event {
        WriteEvent::CommitFailed => WriteAction::Fail(ApiError::Internal),
        WriteEvent::Committed => {
            if auto_sync {
                WriteAction::Sync
            } else {
                WriteAction::Answer(success_status)
            }
        },
        WriteEvent::Synced => WriteAction::Answer(success_status),
        WriteEvent::SyncFailed => WriteAction::Answer(success_status),
    }
}

} // verus!
