//! The flow-level cron reactor's cursor: arm an unarmed flow at its next instant, wait until due,
//! fire once per scheduled instant (a run that already exists is skipped), and advance to the next
//! instant after `now`. The cron arithmetic itself (the next instant after a time) is the caller's.
use vstd::prelude::*;

use crate::ids::cron_run_id;
use crate::text::decimal;

verus! {

/// One reactor pass's tally.
#[derive(Clone, Copy, Debug, PartialEq, Eq, Structural)]
pub struct ReactorPass {
    pub fired: u64,
    pub skipped: u64,
}

impl ReactorPass {
    /// An empty tally.
    pub fn new() -> (p: Self)
        ensures
            p.fired == 0 && p.skipped == 0,
    {
        ReactorPass { fired: 0, skipped: 0 }
    }

    /// Count one firing.
    pub fn count_fired(&mut self)
        requires
            old(self).fired < u64::MAX,
        ensures
            final(self).fired == old(self).fired + 1,
            final(self).skipped == old(self).skipped,
    {
        self.fired = self.fired + 1;
    }

    /// Count one settled firing: a fired run, or a skip when its run already existed.
    pub fn count_settle(&mut self, fired: bool)
        requires
            old(self).fired < u64::MAX,
            old(self).skipped < u64::MAX,
        ensures
            fired ==> final(self).fired == old(self).fired + 1 && final(self).skipped == old(self).skipped,
            !fired ==> final(self).skipped == old(self).skipped + 1 && final(self).fired == old(self).fired,
    {
        if fired {
            self.count_fired();
        } else {
            self.count_skipped();
        }
    }

    /// Count one skip.
    pub fn count_skipped(&mut self)
        requires
            old(self).skipped < u64::MAX,
        ensures
            final(self).skipped == old(self).skipped + 1,
            final(self).fired == old(self).fired,
    {
        self.skipped = self.skipped + 1;
    }
}

/// What one pass does with one flow's cron.
pub enum CronPlan {
    /// The flow is disabled or has no schedule.
    Skip,
    /// First sight: record the next instant (0 when the schedule has none) and stop.
    Arm { next_attempt_ts: u64 },
    /// Not yet due.
    NotDue,
    /// Due: the firing of `scheduled_ts` runs under `run_id` (skip it if that run exists).
    Due { scheduled_ts: u64, run_id: String },
}

/// Plan one flow's cron pass. `next_after_now` is the schedule's next instant after `now`.
pub fn cron_plan(
    flow_id: &str,
    enabled: bool,
    has_schedule: bool,
    next_attempt_ts: u64,
    now: u64,
    next_after_now: Option<u64>,
) -> (p: CronPlan)
    ensures
        !enabled || !has_schedule ==> (p is Skip),
        enabled && has_schedule && next_attempt_ts == 0 ==> (p == (CronPlan::Arm {
            next_attempt_ts: match next_after_now {
                Some(t) => t,
                None => 0,
            },
        })),
        enabled && has_schedule && next_attempt_ts != 0 && next_attempt_ts > now ==> (p is NotDue),
        enabled && has_schedule && next_attempt_ts != 0 && next_attempt_ts <= now ==> (p matches CronPlan::Due { scheduled_ts, run_id } && scheduled_ts == next_attempt_ts && run_id@ == flow_id@ + "-cron-"@ + decimal(next_attempt_ts as nat)),
{
    if !enabled || !has_schedule {
        return CronPlan::Skip;
    }
    if next_attempt_ts == 0 {
        return CronPlan::Arm {
            next_attempt_ts: match next_after_now {
                Some(t) => t,
                None => 0,
            },
        };
    }
    if next_attempt_ts > now {
        return CronPlan::NotDue;
    }
    CronPlan::Due { scheduled_ts: next_attempt_ts, run_id: cron_run_id(flow_id, next_attempt_ts) }
}

/// Settle a due cron firing: fire unless the run already exists; either way the cursor moves to the
/// schedule's next instant after `now` (kept at the scheduled instant when the schedule has none).
pub fn cron_settle(scheduled_ts: u64, next_after_now: Option<u64>, job_exists: bool) -> (r: (bool, u64))
    ensures
        r.0 == !job_exists,
        r.1 == match next_after_now {
            Some(t) => t,
            None => scheduled_ts,
        },
{
    let next = match next_after_now {
        Some(t) => t,
        None => scheduled_ts,
    };
    (!job_exists, next)
}

} // verus!
