//! The flip-flop source's clock: a self-driving boolean oscillator that flips every `period_secs`.
//! One durable cursor per node holds both the next instant and the last emitted value, so value and
//! clock move together. A due node fires once and its cursor skips to the next grid slot strictly
//! after `now` (never a blind `+period`, which drifts behind a slow scan); a firing whose run already
//! exists advances without flipping.
use vstd::prelude::*;

use crate::ids::flipflop_run_id;
use crate::records::FlowTriggerState;
use crate::text::decimal;

verus! {

/// The effective period: a zero period counts as one.
pub open spec fn effective_period(period: int) -> int {
    if period < 1 {
        1
    } else {
        period
    }
}

/// The next slot on the grid anchored at `scheduled` (step `period`, zero read as one) that lies
/// strictly after `now`; a slot already in the future is kept.
pub open spec fn next_slot(scheduled: int, period: int, now: int) -> int {
    let p = effective_period(period);
    if scheduled > now {
        scheduled
    } else {
        scheduled + ((now - scheduled) / p + 1) * p
    }
}

/// The facts that make fire-once-then-skip true: for a due slot the result is strictly after `now`,
/// at most one period after it, and on the grid anchored at `scheduled`.
pub proof fn lemma_next_slot(scheduled: int, period: int, now: int)
    requires
        scheduled <= now,
    ensures
        next_slot(scheduled, period, now) > now,
        next_slot(scheduled, period, now) <= now + effective_period(period),
        (next_slot(scheduled, period, now) - scheduled) % effective_period(period) == 0,
{
    let p = effective_period(period);
    let e = now - scheduled;
    let q = e / p;
    assert(p * q <= e < p * q + p) by (nonlinear_arith)
        requires
            p >= 1,
            e >= 0,
            q == e / p,
    ;
    assert((q + 1) * p == p * q + p) by (nonlinear_arith);
    assert(((q + 1) * p) % p == 0) by (nonlinear_arith)
        requires
            p >= 1,
    ;
}

/// The next period-grid slot strictly after `now` (a future slot is returned unchanged).
pub fn next_slot_after(scheduled_ts: u64, period_secs: u64, now: u64) -> (r: u64)
    requires
        next_slot(scheduled_ts as int, period_secs as int, now as int) <= u64::MAX,
    ensures
        r == next_slot(scheduled_ts as int, period_secs as int, now as int),
{
    let period = if period_secs < 1 {
        1
    } else {
        period_secs
    };
    if scheduled_ts > now {
        return scheduled_ts;
    }
    let elapsed = now - scheduled_ts;
    let k = elapsed / period;
    assert(k * period <= elapsed) by (nonlinear_arith)
        requires
            period >= 1,
            k == elapsed / period,
    ;
    let step = k * period;
    assert((k + 1) * period == step + period) by (nonlinear_arith)
        requires
            step == k * period,
    ;
    scheduled_ts + step + period
}

/// One flip-flop source node: its id, its hold interval (seconds) and the first value it emits.
pub struct FlipFlopTrigger {
    pub node_id: String,
    pub period_secs: u64,
    pub start: bool,
}

/// Does this cursor need (re)seeding for this trigger: never seen, never armed, or armed for a
/// different period?
pub open spec fn flipflop_needs_init(cursor: Option<FlowTriggerState>, trig: FlipFlopTrigger) -> bool {
    match cursor {
        None => true,
        Some(c) => c.next_attempt_ts == 0 || c.period_secs != Some(trig.period_secs),
    }
}

/// The value a firing emits: the negation of the last one, or `start` on the first firing.
pub open spec fn flip_value(flop: Option<bool>, start: bool) -> bool {
    match flop {
        Some(last) => !last,
        None => start,
    }
}

/// The cursor a flip-flop node keeps: the next instant, its period, and the last emitted value.
pub open spec fn flipflop_cursor(c: FlowTriggerState, next: u64, period: u64, flop: Option<bool>) -> bool {
    &&& c.next_attempt_ts == next
    &&& c.period_secs == Some(period)
    &&& c.flop == flop
    &&& c.cron.is_none()
    &&& c.last_seq.is_none()
    &&& c.schedule_active.is_none()
    &&& c.schedule_id.is_none()
}

/// What one pass does with one flip-flop node before any job lookup.
pub enum FlipFlopPlan {
    /// Seed (or re-seed) the cursor at `now` with no last value, and stop.
    Init(FlowTriggerState),
    /// Not yet due: nothing to do.
    NotDue,
    /// Due: the firing for `scheduled_ts` emits `value` under `run_id` (skip it if that run exists).
    Due { scheduled_ts: u64, value: bool, run_id: String },
}

fn flipflop_state(next: u64, period: u64, flop: Option<bool>) -> (c: FlowTriggerState)
    ensures
        flipflop_cursor(c, next, period, flop),
{
    FlowTriggerState {
        next_attempt_ts: next,
        cron: None,
        period_secs: Some(period),
        flop,
        last_seq: None,
        schedule_active: None,
        schedule_id: None,
    }
}

/// Plan one flip-flop node's pass: seed an unseen or re-periodised cursor at `now`, wait while the
/// cursor is in the future, else name the due firing.
pub fn flipflop_plan(
    flow_id: &str,
    cursor: &Option<FlowTriggerState>,
    trig: &FlipFlopTrigger,
    now: u64,
) -> (p: FlipFlopPlan)
    ensures
        flipflop_needs_init(*cursor, *trig) ==> (p matches FlipFlopPlan::Init(c) && flipflop_cursor(
            c,
            now,
            trig.period_secs,
            None,
        )),
        !flipflop_needs_init(*cursor, *trig) && cursor.unwrap().next_attempt_ts > now ==> p is NotDue,
        !flipflop_needs_init(*cursor, *trig) && cursor.unwrap().next_attempt_ts <= now ==> (
        p matches FlipFlopPlan::Due { scheduled_ts, value, run_id } && scheduled_ts
            == cursor.unwrap().next_attempt_ts && value == flip_value(cursor.unwrap().flop, trig.start)
            && run_id@ == flow_id@ + "-flip-"@ + trig.node_id@ + "-"@ + decimal(scheduled_ts as nat)),
{
    match cursor {
        None => FlipFlopPlan::Init(flipflop_state(now, trig.period_secs, None)),
        Some(c) => {
            let same_period = match c.period_secs {
                Some(p) => p == trig.period_secs,
                None => false,
            };
            if c.next_attempt_ts == 0 || !same_period {
                return FlipFlopPlan::Init(flipflop_state(now, trig.period_secs, None));
            }
            let scheduled_ts = c.next_attempt_ts;
            if scheduled_ts > now {
                return FlipFlopPlan::NotDue;
            }
            let value = match c.flop {
                Some(last) => !last,
                None => trig.start,
            };
            FlipFlopPlan::Due {
                scheduled_ts,
                value,
                run_id: flipflop_run_id(flow_id, trig.node_id.as_str(), scheduled_ts),
            }
        },
    }
}

/// The result of settling a due firing: whether to fire the run, and the cursor to persist.
pub struct TriggerSettle {
    pub fire: bool,
    pub cursor: FlowTriggerState,
}

/// Settle a due flip-flop firing. When its run already exists the cursor advances and keeps the
/// last value (no re-flip); otherwise the run fires with the flipped value, which the cursor
/// records. Either way the cursor moves to the next grid slot strictly after `now`.
pub fn flipflop_settle(cursor: &FlowTriggerState, trig: &FlipFlopTrigger, now: u64, job_exists: bool) -> (s: TriggerSettle)
    requires
        cursor.next_attempt_ts <= now,
        next_slot(cursor.next_attempt_ts as int, trig.period_secs as int, now as int) <= u64::MAX,
    ensures
        s.fire == !job_exists,
        flipflop_cursor(
            s.cursor,
            next_slot(cursor.next_attempt_ts as int, trig.period_secs as int, now as int) as u64,
            trig.period_secs,
            if job_exists {
                cursor.flop
            } else {
                Some(flip_value(cursor.flop, trig.start))
            },
        ),
{
    let next = next_slot_after(cursor.next_attempt_ts, trig.period_secs, now);
    if job_exists {
        TriggerSettle { fire: false, cursor: flipflop_state(next, trig.period_secs, cursor.flop) }
    } else {
        let value = match cursor.flop {
            Some(last) => !last,
            None => trig.start,
        };
        TriggerSettle { fire: true, cursor: flipflop_state(next, trig.period_secs, Some(value)) }
    }
}

/// Settle a due flip-flop firing (see [`flipflop_settle`]) and count it in the pass: a re-scan of
/// an instant whose run already exists fires nothing, keeps the last value, advances the cursor to
/// the next slot after `now` and counts one skip; otherwise the run fires with the flipped value and
/// counts one firing.
pub fn settle_flipflop_firing(
    cursor: &FlowTriggerState,
    trig: &FlipFlopTrigger,
    now: u64,
    job_exists: bool,
    pass: &mut crate::react_cron::ReactorPass,
) -> (s: TriggerSettle)
    requires
        cursor.next_attempt_ts <= now,
        next_slot(cursor.next_attempt_ts as int, trig.period_secs as int, now as int) <= u64::MAX,
        old(pass).fired < u64::MAX,
        old(pass).skipped < u64::MAX,
    ensures
        s.fire == !job_exists,
        flipflop_cursor(
            s.cursor,
            next_slot(cursor.next_attempt_ts as int, trig.period_secs as int, now as int) as u64,
            trig.period_secs,
            if job_exists {
                cursor.flop
            } else {
                Some(flip_value(cursor.flop, trig.start))
            },
        ),
        job_exists ==> final(pass).skipped == old(pass).skipped + 1 && final(pass).fired == old(pass).fired,
        !job_exists ==> final(pass).fired == old(pass).fired + 1 && final(pass).skipped == old(pass).skipped,
{
    let s = flipflop_settle(cursor, trig, now, job_exists);
    pass.count_settle(s.fire);
    s
}

} // verus!
