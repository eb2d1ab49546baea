//! The flow concurrency policy applied when a new run fires: `queue` always starts; otherwise a flow
//! with no live run starts; `skip` skips while one is live; `restart` cancels every live run, then
//! starts.
use vstd::prelude::*;

use crate::json::str_eq;

verus! {

/// Whether a firing starts a run.
#[derive(Clone, Copy, Debug, PartialEq, Eq, Structural)]
pub enum FireDecision {
    Start,
    Skip,
}

/// A flow's concurrency policy.
#[derive(Clone, Copy, Debug, PartialEq, Eq, Structural)]
pub enum Concurrency {
    Queue,
    Skip,
    Restart,
}

/// A terminal run status: `success`, `failed`, `cancelled` or `partialFailure`.
pub open spec fn is_terminal(status: Seq<char>) -> bool {
    status == "success"@ || status == "failed"@ || status == "cancelled"@ || status == "partialFailure"@
}

/// Is `status` terminal?
pub fn terminal(status: &str) -> (b: bool)
    ensures
        b == is_terminal(status@),
        (status@ == "success"@ || status@ == "failed"@ || status@ == "cancelled"@ || status@ == "partialFailure"@) ==> b,
{
    str_eq(status, "success") || str_eq(status, "failed") || str_eq(status, "cancelled") || str_eq(
        status,
        "partialFailure",
    )
}

/// One stored run as the policy reads it.
pub struct RunRow {
    pub flow_id: String,
    pub run_id: String,
    pub status: String,
}

/// The row is a live run of `flow_id` other than `exclude`.
pub open spec fn live_row(r: RunRow, flow_id: Seq<char>, exclude: Seq<char>) -> bool {
    r.flow_id@ == flow_id && r.run_id@.len() > 0 && r.run_id@ != exclude && !is_terminal(r.status@)
}

/// The ids of the live rows, in row order.
pub open spec fn live_ids(rows: Seq<RunRow>, flow_id: Seq<char>, exclude: Seq<char>) -> Seq<Seq<char>>
    decreases rows.len(),
{
    if rows.len() == 0 {
        Seq::empty()
    } else {
        let rest = live_ids(rows.drop_last(), flow_id, exclude);
        if live_row(rows.last(), flow_id, exclude) {
            rest.push(rows.last().run_id@)
        } else {
            rest
        }
    }
}

/// The ids of the live runs of `flow_id` other than `exclude`, in row order: the flow's runs with a
/// non-empty id whose status is not terminal.
pub fn live_run_ids(rows: &Vec<RunRow>, flow_id: &str, exclude: &str) -> (r: Vec<String>)
    ensures
        r@.len() == live_ids(rows@, flow_id@, exclude@).len(),
        forall|a: int| 0 <= a < r@.len() ==> (#[trigger] r@[a])@ == live_ids(rows@, flow_id@, exclude@)[a],
{
    let mut out: Vec<String> = Vec::new();
    let mut i: usize = 0;
    while i < rows.len()
        invariant
            i <= rows@.len(),
            out@.len() == live_ids(rows@.subrange(0, i as int), flow_id@, exclude@).len(),
            forall|a: int| 0 <= a < out@.len() ==> (#[trigger] out@[a])@ == live_ids(rows@.subrange(0, i as int), flow_id@, exclude@)[a],
        decreases rows@.len() - i,
    {
        let ghost pre = rows@.subrange(0, i as int);
        let ghost nxt = rows@.subrange(0, i + 1);
        assert(nxt.drop_last() =~= pre);
        assert(nxt.last() == rows@[i as int]);
        let row = &rows[i];
        if str_eq(row.flow_id.as_str(), flow_id) && row.run_id.as_str().unicode_len() > 0 && !str_eq(row.run_id.as_str(), exclude) && !terminal(row.status.as_str()) {
            out.push(row.run_id.clone());
        }
        i = i + 1;
    }
    assert(rows@.subrange(0, rows@.len() as int) =~= rows@);
    out
}

/// The policy's decision, given whether a live run exists: `queue` starts; no live run starts;
/// `skip` skips; `restart` starts (after cancelling the live runs).
pub fn fire_decision(policy: Concurrency, any_live: bool) -> (d: FireDecision)
    ensures
        d == if policy == Concurrency::Skip && any_live {
            FireDecision::Skip
        } else {
            FireDecision::Start
        },
{
    match policy {
        Concurrency::Queue => FireDecision::Start,
        _ => {
            if !any_live {
                FireDecision::Start
            } else {
                match policy {
                    Concurrency::Skip => FireDecision::Skip,
                    _ => FireDecision::Start,
                }
            }
        },
    }
}

/// The live runs `restart` cancels before starting (none for the other policies).
pub fn runs_to_cancel(policy: Concurrency, live: Vec<String>) -> (r: Vec<String>)
    ensures
        policy == Concurrency::Restart ==> r@ == live@,
        policy != Concurrency::Restart ==> r@.len() == 0,
{
    match policy {
        Concurrency::Restart => live,
        _ => Vec::new(),
    }
}

} // verus!
