//! The flow service errors, and the checks that produce them on a resume and on a run patch.
use vstd::prelude::*;

use crate::records::ClaimState;
use crate::text::{decimal, push_decimal};

verus! {

/// The `flows.*` service error. A deny is opaque, indistinguishable from a missing flow.
pub enum FlowsError {
    Denied,
    NotFound,
    BadInput(String),
    Internal(String),
    /// A resume whose run pinned a different flow version than the current one.
    ResumePointDrift(String),
}

impl FlowsError {
    /// The error's message (`denied`, `not found`, the detail, or `resume point drift: ` and the
    /// detail).
    pub fn message(&self) -> (s: String)
        ensures
            s@ == match self {
                FlowsError::Denied => "denied"@,
                FlowsError::NotFound => "not found"@,
                FlowsError::BadInput(m) => m@,
                FlowsError::Internal(m) => m@,
                FlowsError::ResumePointDrift(m) => "resume point drift: "@ + m@,
            },
    {
        match self {
            FlowsError::Denied => String::from_str("denied"),
            FlowsError::NotFound => String::from_str("not found"),
            FlowsError::BadInput(m) => m.clone(),
            FlowsError::Internal(m) => m.clone(),
            FlowsError::ResumePointDrift(m) => crate::text::concat2("resume point drift: ", m.as_str()),
        }
    }
}

/// The flows-nodes registry error.
pub enum FlowsNodesError {
    Denied,
    Internal(String),
}

/// A resume refuses a cancelled run (cancel is terminal and non-resumable), and otherwise runs only
/// on the flow version the run pinned; a structural edit since then is a drift.
pub fn check_resume(status: &str, pinned: u32, current: u32) -> (r: Result<(), FlowsError>)
    ensures
        status@ == "cancelled"@ ==> (r matches Err(FlowsError::BadInput(m)) && m@ == "cannot resume a cancelled run"@),
        status@ != "cancelled"@ && pinned == current ==> r is Ok,
        status@ != "cancelled"@ && pinned != current ==> (r matches Err(FlowsError::ResumePointDrift(m)) && m@ == "run pinned v"@ + decimal(pinned as nat) + " but flow is now v"@ + decimal(current as nat) + " (a structural edit during suspend becomes a new version; the live run finishes on its pinned version)"@),
{
    if crate::json::str_eq(status, "cancelled") {
        return Err(FlowsError::BadInput(String::from_str("cannot resume a cancelled run")));
    }
    if pinned == current {
        return Ok(());
    }
    let mut m = String::from_str("run pinned v");
    push_decimal(&mut m, pinned as u64);
    m.append(" but flow is now v");
    push_decimal(&mut m, current as u64);
    m.append(" (a structural edit during suspend becomes a new version; the live run finishes on its pinned version)");
    Err(FlowsError::ResumePointDrift(m))
}

/// The debug name of a claim state.
pub fn claim_debug(c: ClaimState) -> (s: &'static str)
    ensures
        s@ == match c {
            ClaimState::Pending => "Pending"@,
            ClaimState::Enqueued => "Enqueued"@,
            ClaimState::Running => "Running"@,
            ClaimState::Done => "Done"@,
        },
{
    match c {
        ClaimState::Pending => "Pending",
        ClaimState::Enqueued => "Enqueued",
        ClaimState::Running => "Running",
        ClaimState::Done => "Done",
    }
}

/// A config patch applies only to a run that is not cancelled, and only to a node that has not
/// executed yet (pending or enqueued); a structural change must become a new flow version.
pub fn check_patch(run_cancelled: bool, node_id: &str, claim: ClaimState) -> (r: Result<(), FlowsError>)
    ensures
        run_cancelled ==> (r matches Err(FlowsError::BadInput(m)) && m@ == "cannot patch a cancelled run"@),
        !run_cancelled && (claim == ClaimState::Pending || claim == ClaimState::Enqueued) ==> (r is Ok),
        !run_cancelled && !(claim == ClaimState::Pending || claim == ClaimState::Enqueued) ==> (r matches Err(FlowsError::BadInput(m)) && m@ == "node `"@ + node_id@ + "` already executed (claim "@ + match claim {
            ClaimState::Pending => "Pending"@,
            ClaimState::Enqueued => "Enqueued"@,
            ClaimState::Running => "Running"@,
            ClaimState::Done => "Done"@,
        } + "); a structural change must become a new flow version"@),
{
    if run_cancelled {
        return Err(FlowsError::BadInput(String::from_str("cannot patch a cancelled run")));
    }
    match claim {
        ClaimState::Pending | ClaimState::Enqueued => Ok(()),
        _ => {
            let mut m = String::from_str("node `");
            m.append(node_id);
            m.append("` already executed (claim ");
            m.append(claim_debug(claim));
            m.append("); a structural change must become a new flow version");
            Err(FlowsError::BadInput(m))
        },
    }
}

} // verus!
