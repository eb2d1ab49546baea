//! The durable run-state records: the run coordinator, one record per `(node, fctx)` slot, and the
//! per-trigger-node cursor.
use vstd::prelude::*;

use crate::json::Json;

verus! {

/// The CAS claim state of one slot: the idempotency guard under redelivery.
#[derive(Clone, Copy, Debug, PartialEq, Eq, Structural)]
pub enum ClaimState {
    Pending,
    Enqueued,
    Running,
    Done,
}

/// The terminal outcome label of a slot.
#[derive(Clone, Copy, Debug, PartialEq, Eq, Structural)]
pub enum SlotOutcome {
    /// Not yet terminal.
    Unset,
    Succeeded,
    Failed,
    Skipped,
}

/// The persisted run coordinator: lifecycle, the pinned flow version, the params, and the entry
/// node a per-trigger run fired from (`None` for a whole-graph run).
pub struct FlowRunRecord {
    pub run_id: String,
    pub flow_id: String,
    pub flow_version: u32,
    /// `pending` | `success` | `partialFailure` | `failed` | `suspended` | `cancelled`.
    pub status: String,
    pub params: Json,
    pub ts: u64,
    pub entry_node: Option<String>,
}

/// One `(node, fctx)` slot's durable state and recorded result.
pub struct FlowStepRecord {
    pub run_id: String,
    pub node_id: String,
    pub claim: ClaimState,
    /// The remaining barrier count of an explicit-`all` slot.
    pub indegree: u64,
    pub outcome: SlotOutcome,
    pub output: Json,
    pub findings: Json,
    pub error: Option<String>,
    pub attempts: u32,
    pub ms: u64,
    /// A config-only patch for an unexecuted node, read in place of the flow's node config.
    pub patched_config: Option<Json>,
    /// The firing context this slot fired under (empty for a barrier or frontier firing).
    pub fctx: String,
    /// The upstream that triggered an `any`-port firing.
    pub triggered_by: Option<String>,
    /// The firing context the triggering upstream carried.
    pub parent_fctx: Option<String>,
}

/// One trigger node's reactive cursor: the next firing instant plus what the cursor was seeded
/// for, and the per-source state (last flip-flop value, webhook sequence, schedule state).
pub struct FlowTriggerState {
    pub next_attempt_ts: u64,
    pub cron: Option<String>,
    pub period_secs: Option<u64>,
    pub flop: Option<bool>,
    pub last_seq: Option<u64>,
    pub schedule_active: Option<bool>,
    pub schedule_id: Option<String>,
}

impl FlowTriggerState {
    /// An all-empty cursor (`next_attempt_ts == 0`, every optional field absent).
    pub open spec fn is_blank(self) -> bool {
        &&& self.next_attempt_ts == 0
        &&& self.cron.is_none()
        &&& self.period_secs.is_none()
        &&& self.flop.is_none()
        &&& self.last_seq.is_none()
        &&& self.schedule_active.is_none()
        &&& self.schedule_id.is_none()
    }
}

impl Default for FlowTriggerState {
    fn default() -> (s: Self)
        ensures
            s.is_blank(),
    {
        FlowTriggerState {
            next_attempt_ts: 0,
            cron: None,
            period_secs: None,
            flop: None,
            last_seq: None,
            schedule_active: None,
            schedule_id: None,
        }
    }
}

/// The display label of a stored claim string: the four known states map to themselves, anything
/// else reads as `pending`.
pub fn claim_for_display(claim: &str) -> (r: &'static str)
    ensures
        r@ == (if claim@ == "pending"@ || claim@ == "enqueued"@ || claim@ == "running"@ || claim@
            == "done"@ {
            claim@
        } else {
            "pending"@
        }),
{
    if crate::json::str_eq(claim, "pending") {
        "pending"
    } else if crate::json::str_eq(claim, "enqueued") {
        "enqueued"
    } else if crate::json::str_eq(claim, "running") {
        "running"
    } else if crate::json::str_eq(claim, "done") {
        "done"
    } else {
        "pending"
    }
}

/// The stored label of a claim state.
pub fn claim_label(c: ClaimState) -> (r: &'static str)
    ensures
        r@ == (match c {
            ClaimState::Pending => "pending"@,
            ClaimState::Enqueued => "enqueued"@,
            ClaimState::Running => "running"@,
            ClaimState::Done => "done"@,
        }),
{
    match c {
        ClaimState::Pending => "pending",
        ClaimState::Enqueued => "enqueued",
        ClaimState::Running => "running",
        ClaimState::Done => "done",
    }
}

} // verus!
