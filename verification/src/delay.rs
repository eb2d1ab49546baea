//! The `delay` node: a durable delay or rate limit. A parked node resumes on a later drive with an
//! advanced clock; nothing sleeps in memory.
use vstd::prelude::*;

verus! {

/// The delay record's next state and whether the message is released now.
pub enum DelayStep {
    /// Release the message and clear the timer record.
    Release,
    /// Park; stamp `release_at` into the record on the first arrival (`None` when already stamped).
    Park { stamp: Option<u64> },
}

/// The release instant: the recorded one, else `now + ms` (saturating).
pub open spec fn release_instant(recorded: Option<u64>, ms: u64, now: u64) -> u64 {
    match recorded {
        Some(t) => t,
        None => if now + ms > u64::MAX {
            u64::MAX
        } else {
            (now + ms) as u64
        },
    }
}

/// Fixed delay (`ms`, default 1000): the first arrival stamps `release_at = now + ms`; the message
/// is released once `now` reaches it (clearing the record), else the run parks.
pub fn delay_step(ms: Option<u64>, recorded_release_at: Option<u64>, now: u64) -> (s: DelayStep)
    ensures
        ({
            let ms = match ms {
                Some(m) => m,
                None => 1000u64,
            };
            let at = release_instant(recorded_release_at, ms, now);
            if now >= at {
                s is Release
            } else {
                s == DelayStep::Park {
                    stamp: if recorded_release_at.is_none() {
                        Some(at)
                    } else {
                        None
                    },
                }
            }
        }),
{
    let ms = match ms {
        Some(m) => m,
        None => 1000,
    };
    let release_at = match recorded_release_at {
        Some(t) => t,
        None => now.saturating_add(ms),
    };
    if now >= release_at {
        DelayStep::Release
    } else if recorded_release_at.is_none() {
        DelayStep::Park { stamp: Some(release_at) }
    } else {
        DelayStep::Park { stamp: None }
    }
}

/// `a + b`, saturating at `u64::MAX`.
pub open spec fn sat_add(a: u64, b: u64) -> u64 {
    if a + b > u64::MAX {
        u64::MAX
    } else {
        (a + b) as u64
    }
}

/// Rate limit (`rate_ms`, default 1000): release (and record `last_release = now`) when there is no
/// prior release or `now` is at least `rate_ms` past it (saturating), else park.
pub fn rate_step(rate_ms: Option<u64>, last_release: Option<u64>, now: u64) -> (ready: bool)
    ensures
        ready == match last_release {
            None => true,
            Some(t) => now >= sat_add(
                t,
                match rate_ms {
                    Some(r) => r,
                    None => 1000u64,
                },
            ),
        },
{
    let rate = match rate_ms {
        Some(r) => r,
        None => 1000,
    };
    match last_release {
        None => true,
        Some(t) => now >= t.saturating_add(rate),
    }
}

} // verus!
