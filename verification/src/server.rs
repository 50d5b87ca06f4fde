//! Values exchanged with the browser extension over the local HTTP API.
use vstd::prelude::*;
use crate::engine::task::TaskState;

verus! {

/// A download request sent by the browser extension.
#[derive(Debug, Clone)]
pub struct DownloadRequest {
    pub url: String,
    pub filename: String,
    pub referer: Option<String>,
    pub cookies: Option<String>,
    pub user_agent: Option<String>,
    pub content_length: Option<u64>,
}

/// The name of each task state in the API.
pub open spec fn state_label_text(state: TaskState) -> Seq<char> {
    match state {
        TaskState::Pending => "pending"@,
        TaskState::Running => "running"@,
        TaskState::Paused => "paused"@,
        TaskState::Completed => "completed"@,
        TaskState::Error(_) => "error"@,
        TaskState::Cancelled => "cancelled"@,
    }
}

/// The name of a task state in the API.
pub fn state_label(state: &TaskState) -> (r: &'static str)
    ensures
        r@ == state_label_text(*state),
{
    match state {
        TaskState::Pending => "pending",
        TaskState::Running => "running",
        TaskState::Paused => "paused",
        TaskState::Completed => "completed",
        TaskState::Error(_) => "error",
        TaskState::Cancelled => "cancelled",
    }
}

} // verus!
