//! The schedule source's clock: an edge-triggered scan of a referenced global schedule. Each due pass
//! evaluates the schedule and fires only on a transition of its active state (or on every evaluation
//! when `emit_interval` is set). The cursor records the state AND the schedule id it was evaluated
//! against, so re-pointing a node re-seeds it and a stale state never swallows a first transition.
use vstd::prelude::*;

use crate::ids::schedule_run_id;
use crate::json::str_eq;
use crate::react_interval::{next_slot, TriggerSettle};
use crate::records::FlowTriggerState;
use crate::text::decimal;

verus! {

/// One schedule source node: its id, the global schedule it references, the evaluation interval
/// (seconds), whether it also emits on every evaluation, and whether the emitted value is inverted.
pub struct ScheduleTrigger {
    pub node_id: String,
    pub schedule_id: String,
    pub evaluation_interval: u64,
    pub emit_interval: bool,
    pub invert: bool,
}

/// The next evaluation-grid slot strictly after `now` (a future slot is returned unchanged).
pub fn next_slot_after(scheduled_ts: u64, interval_secs: u64, now: u64) -> (r: u64)
    requires
        next_slot(scheduled_ts as int, interval_secs as int, now as int) <= u64::MAX,
    ensures
        r == next_slot(scheduled_ts as int, interval_secs as int, now as int),
{
    crate::react_interval::next_slot_after(scheduled_ts, interval_secs, now)
}

/// Does this cursor need (re)seeding: never seen, never armed, re-pointed at another schedule, or
/// armed for another interval?
pub open spec fn schedule_needs_init(cursor: Option<FlowTriggerState>, trig: ScheduleTrigger) -> bool {
    match cursor {
        None => true,
        Some(c) => c.next_attempt_ts == 0 || !(c.schedule_id matches Some(id) && id@
            == trig.schedule_id@) || c.period_secs != Some(trig.evaluation_interval),
    }
}

/// The cursor a schedule node keeps.
pub open spec fn schedule_cursor(
    c: FlowTriggerState,
    next: u64,
    trig: ScheduleTrigger,
    active: Option<bool>,
) -> bool {
    &&& c.next_attempt_ts == next
    &&& c.period_secs == Some(trig.evaluation_interval)
    &&& c.schedule_active == active
    &&& c.schedule_id matches Some(id) && id@ == trig.schedule_id@
    &&& c.cron.is_none()
    &&& c.flop.is_none()
    &&& c.last_seq.is_none()
}

/// What one pass does with one schedule node before it evaluates.
pub enum SchedulePlan {
    /// Seed (or re-seed) the cursor at `now` with no known state, and stop.
    Init(FlowTriggerState),
    /// Not yet due.
    NotDue,
    /// Due: evaluate the schedule; a firing for `scheduled_ts` would run under `run_id`.
    Evaluate { scheduled_ts: u64, run_id: String },
}

fn schedule_state(next: u64, trig: &ScheduleTrigger, active: Option<bool>) -> (c: FlowTriggerState)
    ensures
        schedule_cursor(c, next, *trig, active),
{
    FlowTriggerState {
        next_attempt_ts: next,
        cron: None,
        period_secs: Some(trig.evaluation_interval),
        flop: None,
        last_seq: None,
        schedule_active: active,
        schedule_id: Some(trig.schedule_id.clone()),
    }
}

/// Plan one schedule node's pass: seed an unseen, re-pointed or re-timed cursor at `now`, wait while
/// the cursor is in the future, else evaluate.
pub fn schedule_plan(
    flow_id: &str,
    cursor: &Option<FlowTriggerState>,
    trig: &ScheduleTrigger,
    now: u64,
) -> (p: SchedulePlan)
    ensures
        schedule_needs_init(*cursor, *trig) ==> (p matches SchedulePlan::Init(c) && schedule_cursor(
            c,
            now,
            *trig,
            None,
        )),
        !schedule_needs_init(*cursor, *trig) && cursor.unwrap().next_attempt_ts > now ==> p is NotDue,
        !schedule_needs_init(*cursor, *trig) && cursor.unwrap().next_attempt_ts <= now ==> (
        p matches SchedulePlan::Evaluate { scheduled_ts, run_id } && scheduled_ts
            == cursor.unwrap().next_attempt_ts && run_id@ == flow_id@ + "-sched-"@ + trig.node_id@
            + "-"@ + decimal(scheduled_ts as nat)),
{
    match cursor {
        None => SchedulePlan::Init(schedule_state(now, trig, None)),
        Some(c) => {
            let same_schedule = match &c.schedule_id {
                Some(id) => str_eq(id.as_str(), trig.schedule_id.as_str()),
                None => false,
            };
            let same_interval = match c.period_secs {
                Some(p) => p == trig.evaluation_interval,
                None => false,
            };
            if c.next_attempt_ts == 0 || !same_schedule || !same_interval {
                return SchedulePlan::Init(schedule_state(now, trig, None));
            }
            let scheduled_ts = c.next_attempt_ts;
            if scheduled_ts > now {
                return SchedulePlan::NotDue;
            }
            SchedulePlan::Evaluate {
                scheduled_ts,
                run_id: schedule_run_id(flow_id, trig.node_id.as_str(), scheduled_ts),
            }
        },
    }
}

/// A run is wanted when the active state changed since the last evaluation, or on every evaluation
/// when the node asks for an interval heartbeat.
pub open spec fn schedule_wants_fire_spec(cursor: FlowTriggerState, trig: ScheduleTrigger, active: bool) -> bool {
    cursor.schedule_active != Some(active) || trig.emit_interval
}

/// Whether this evaluation calls for a run (before the idempotency check).
pub fn schedule_wants_fire(cursor: &FlowTriggerState, trig: &ScheduleTrigger, active: bool) -> (b: bool)
    ensures
        b == schedule_wants_fire_spec(*cursor, *trig, active),
{
    let changed = match cursor.schedule_active {
        Some(a) => a != active,
        None => true,
    };
    changed || trig.emit_interval
}

/// The value a firing emits: the active state, inverted when the node asks for it.
pub open spec fn emitted_value(active: bool, invert: bool) -> bool {
    active != invert
}

/// Settle an evaluated schedule node. It fires when a run is wanted and the run does not already
/// exist; the cursor always advances to the next slot strictly after `now` and records the state
/// just evaluated. The emitted value is the state, inverted when the node asks for it; inversion
/// never changes when a node fires.
pub fn schedule_settle(
    cursor: &FlowTriggerState,
    trig: &ScheduleTrigger,
    now: u64,
    active: bool,
    job_exists: bool,
) -> (r: (TriggerSettle, bool))
    requires
        cursor.next_attempt_ts <= now,
        next_slot(cursor.next_attempt_ts as int, trig.evaluation_interval as int, now as int) <= u64::MAX,
    ensures
        r.0.fire == (schedule_wants_fire_spec(*cursor, *trig, active) && !job_exists),
        r.1 == emitted_value(active, trig.invert),
        !trig.invert ==> r.1 == active,
        trig.invert ==> r.1 == !active,
        schedule_cursor(
            r.0.cursor,
            next_slot(cursor.next_attempt_ts as int, trig.evaluation_interval as int, now as int) as u64,
            *trig,
            Some(active),
        ),
{
    let next = next_slot_after(cursor.next_attempt_ts, trig.evaluation_interval, now);
    let wants = schedule_wants_fire(cursor, trig, active);
    let value = active != trig.invert;
    (TriggerSettle { fire: wants && !job_exists, cursor: schedule_state(next, trig, Some(active)) }, value)
}

} // verus!
