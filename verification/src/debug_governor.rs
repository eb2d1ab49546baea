//! The debug node's publish governor: a per-(workspace, flow, node) one-second window that admits at
//! most `rate_limit` real messages, counts the rest, and reports that count once as a `dropped`
//! sentinel when the window closes.
use vstd::prelude::*;

use crate::json::str_eq;

verus! {

/// The window length in milliseconds.
pub const WINDOW_MS: u64 = 1000;

/// One debug node's governor state: where its window started, how many messages the window
/// admitted, and how many it suppressed.
#[derive(Clone, Copy, Debug, PartialEq, Eq, Structural)]
pub struct GovernorState {
    pub window_start_ms: u64,
    pub count: u64,
    pub suppressed: u64,
}

/// The state after the window bookkeeping and before this message is admitted or suppressed, with
/// the count flushed as a sentinel if a window with suppressions just closed.
pub open spec fn roll_window(g: GovernorState, now: u64) -> (GovernorState, Option<u64>) {
    if g.window_start_ms + WINDOW_MS <= now {
        (
            GovernorState { window_start_ms: now, count: 0, suppressed: 0 },
            if g.suppressed > 0 {
                Some(g.suppressed)
            } else {
                None
            },
        )
    } else if g.window_start_ms == 0 {
        (GovernorState { window_start_ms: now, ..g }, None)
    } else {
        (g, None)
    }
}

/// One governor decision: `(new state, publish this message?, dropped count to flush)`.
pub open spec fn decide_spec(g: GovernorState, now: u64, rate_limit: u64) -> (GovernorState, bool, Option<u64>) {
    let (h, flush) = roll_window(g, now);
    if h.count < rate_limit {
        (GovernorState { count: (h.count + 1) as u64, ..h }, true, flush)
    } else {
        (GovernorState { suppressed: (h.suppressed + 1) as u64, ..h }, false, flush)
    }
}

impl GovernorState {
    /// A fresh slot: no window yet.
    pub fn new() -> (g: Self)
        ensures
            g == (GovernorState { window_start_ms: 0, count: 0, suppressed: 0 }),
    {
        GovernorState { window_start_ms: 0, count: 0, suppressed: 0 }
    }

    /// Admit or suppress one message at `now` under `rate_limit`: returns whether to publish it and,
    /// when the previous window just closed with suppressions, their count.
    pub fn admit_message(&mut self, now: u64, rate_limit: u64) -> (r: (bool, Option<u64>))
        requires
            old(self).window_start_ms + WINDOW_MS <= u64::MAX,
            old(self).suppressed < u64::MAX,
        ensures
            (*final(self), r.0, r.1) == decide_spec(*old(self), now, rate_limit),
    {
        let flush = if self.window_start_ms + WINDOW_MS <= now {
            let dropped = self.suppressed;
            self.suppressed = 0;
            self.window_start_ms = now;
            self.count = 0;
            if dropped > 0 {
                Some(dropped)
            } else {
                None
            }
        } else if self.window_start_ms == 0 {
            self.window_start_ms = now;
            None
        } else {
            None
        };
        let publish = if self.count < rate_limit {
            self.count = self.count + 1;
            true
        } else {
            self.suppressed = self.suppressed + 1;
            false
        };
        (publish, flush)
    }
}

/// The governor slots of every debug node, keyed by the composite `ws \u{1} flow \u{1} node`.
pub struct DebugGovernor {
    slots: Vec<(String, GovernorState)>,
}

/// The state stored under `key` (a fresh state when the key has no slot yet).
pub open spec fn slot_of(slots: Seq<(String, GovernorState)>, key: Seq<char>) -> GovernorState
    decreases slots.len(),
{
    if slots.len() == 0 {
        GovernorState { window_start_ms: 0, count: 0, suppressed: 0 }
    } else if slots[0].0@ == key {
        slots[0].1
    } else {
        slot_of(slots.drop_first(), key)
    }
}

/// No key appears twice.
pub open spec fn keys_unique(slots: Seq<(String, GovernorState)>) -> bool {
    forall|i: int, j: int| 0 <= i < j < slots.len() ==> slots[i].0@ != slots[j].0@
}

proof fn lemma_slot_at(slots: Seq<(String, GovernorState)>, key: Seq<char>, i: int)
    requires
        0 <= i < slots.len(),
        slots[i].0@ == key,
        forall|j: int| 0 <= j < i ==> slots[j].0@ != key,
    ensures
        slot_of(slots, key) == slots[i].1,
    decreases i,
{
    if i > 0 {
        let t = slots.drop_first();
        assert forall|j: int| 0 <= j < i - 1 implies t[j].0@ != key by {
            assert(t[j] == slots[j + 1]);
        }
        lemma_slot_at(t, key, i - 1);
    }
}

proof fn lemma_slot_absent(slots: Seq<(String, GovernorState)>, key: Seq<char>)
    requires
        forall|j: int| 0 <= j < slots.len() ==> slots[j].0@ != key,
    ensures
        slot_of(slots, key) == (GovernorState { window_start_ms: 0, count: 0, suppressed: 0 }),
    decreases slots.len(),
{
    if slots.len() > 0 {
        let t = slots.drop_first();
        assert forall|j: int| 0 <= j < t.len() implies t[j].0@ != key by {
            assert(t[j] == slots[j + 1]);
        }
        lemma_slot_absent(t, key);
    }
}

/// The composite slot key `ws \u{1} flow \u{1} node`.
pub open spec fn governor_key(ws: Seq<char>, flow_id: Seq<char>, node_id: Seq<char>) -> Seq<char> {
    ws + "\u{1}"@ + flow_id + "\u{1}"@ + node_id
}

impl DebugGovernor {
    /// The governor state of the node with composite key `key`.
    pub closed spec fn state_of(&self, key: Seq<char>) -> GovernorState {
        slot_of(self.slots@, key)
    }

    /// The slots hold each key at most once, and every window start leaves room for the window.
    pub closed spec fn wf(&self) -> bool {
        &&& keys_unique(self.slots@)
        &&& forall|i: int|
            0 <= i < self.slots@.len() ==> #[trigger] self.slots@[i].1.window_start_ms + WINDOW_MS
                <= u64::MAX && self.slots@[i].1.suppressed < u64::MAX
    }

    /// An empty governor: every node starts fresh.
    pub fn new() -> (g: Self)
        ensures
            g.wf(),
            forall|k: Seq<char>| #[trigger] g.state_of(k) == (GovernorState {
                window_start_ms: 0,
                count: 0,
                suppressed: 0,
            }),
    {
        let g = DebugGovernor { slots: Vec::new() };
        proof {
            assert forall|k: Seq<char>| #[trigger] g.state_of(k) == (GovernorState {
                window_start_ms: 0,
                count: 0,
                suppressed: 0,
            }) by {
                lemma_slot_absent(g.slots@, k);
            }
        }
        g
    }

    /// The index of the slot for `key`, minting a fresh one if the key has none yet.
    fn governor_slot(&mut self, key: &String) -> (i: usize)
        requires
            old(self).wf(),
        ensures
            final(self).wf(),
            i < final(self).slots@.len(),
            final(self).slots@[i as int].0@ == key@,
            final(self).slots@[i as int].1 == old(self).state_of(key@),
            forall|k: Seq<char>| #[trigger] final(self).state_of(k) == old(self).state_of(k),
            forall|j: int|
                0 <= j < final(self).slots@.len() && j != i ==> final(self).slots@[j].0@ != key@,
    {
        let mut i: usize = 0;
        while i < self.slots.len()
            invariant
                i <= self.slots@.len(),
                self.wf(),
                self.slots@ == old(self).slots@,
                forall|j: int| 0 <= j < i ==> self.slots@[j].0@ != key@,
            decreases self.slots@.len() - i,
        {
            if str_eq(self.slots[i].0.as_str(), key.as_str()) {
                proof {
                    lemma_slot_at(self.slots@, key@, i as int);
                }
                return i;
            }
            i = i + 1;
        }
        proof {
            lemma_slot_absent(self.slots@, key@);
        }
        let ghost before = self.slots@;
        self.slots.push((key.clone(), GovernorState::new()));
        proof {
            let s = self.slots@;
            assert(s.len() == before.len() + 1);
            assert forall|j: int| 0 <= j < before.len() implies s[j] == before[j] by {}
            assert forall|k: Seq<char>| #[trigger] slot_of(s, k) == slot_of(before, k) by {
                if k == key@ {
                    lemma_slot_at(s, k, before.len() as int);
                } else {
                    if exists|j: int| 0 <= j < before.len() && before[j].0@ == k {
                        let j0 = choose|j: int| 0 <= j < before.len() && before[j].0@ == k;
                        assert(forall|j: int| 0 <= j < j0 ==> before[j].0@ != k) by {
                            assert forall|j: int| 0 <= j < j0 implies before[j].0@ != k by {
                                if before[j].0@ == k {
                                    assert(keys_unique(before));
                                }
                            }
                        }
                        lemma_slot_at(before, k, j0);
                        lemma_slot_at(s, k, j0);
                    } else {
                        lemma_slot_absent(before, k);
                        lemma_slot_absent(s, k);
                    }
                }
            }
        }
        i
    }

    /// Admit-or-suppress one message from node `(ws, flow, node)` at `now`: returns whether to
    /// publish it and, when that node's previous window just closed with suppressions, their count.
    /// Only that node's state changes; every other node's budget is untouched.
    pub fn governor(&mut self, ws: &str, flow_id: &str, node_id: &str, now: u64, rate_limit: u64) -> (r: (
        bool,
        Option<u64>,
    ))
        requires
            old(self).wf(),
            now + WINDOW_MS <= u64::MAX,
            old(self).state_of(governor_key(ws@, flow_id@, node_id@)).suppressed + 1 < u64::MAX,
        ensures
            final(self).wf(),
            ({
                let key = governor_key(ws@, flow_id@, node_id@);
                let (g, publish, flush) = decide_spec(old(self).state_of(key), now, rate_limit);
                &&& final(self).state_of(key) == g
                &&& r == (publish, flush)
            }),
            forall|k: Seq<char>|
                k != governor_key(ws@, flow_id@, node_id@) ==> #[trigger] final(self).state_of(k)
                    == old(self).state_of(k),
    {
        let mut key = String::from_str(ws);
        key.append("\u{1}");
        key.append(flow_id);
        key.append("\u{1}");
        key.append(node_id);
        let i = self.governor_slot(&key);
        let ghost mid = self.slots@;
        assert forall|k: Seq<char>| #[trigger] slot_of(mid, k) == old(self).state_of(k) by {
            assert(self.state_of(k) == old(self).state_of(k));
        }
        let mut g = self.slots[i].1;
        let r = g.admit_message(now, rate_limit);
        let ghost before = self.slots@;
        let k = self.slots[i].0.clone();
        self.slots.set(i, (k, g));
        proof {
            let s = self.slots@;
            assert forall|kk: Seq<char>| #[trigger] slot_of(s, kk) == (if kk == key@ {
                g
            } else {
                slot_of(before, kk)
            }) by {
                if kk == key@ {
                    lemma_slot_at(s, kk, i as int);
                } else if exists|j: int| 0 <= j < before.len() && before[j].0@ == kk {
                    let j0 = choose|j: int| 0 <= j < before.len() && before[j].0@ == kk;
                    assert forall|j: int| 0 <= j < j0 implies before[j].0@ != kk by {
                        if before[j].0@ == kk {
                            assert(keys_unique(before));
                        }
                    }
                    lemma_slot_at(before, kk, j0);
                    assert(j0 != i);
                    lemma_slot_at(s, kk, j0);
                } else {
                    lemma_slot_absent(before, kk);
                    lemma_slot_absent(s, kk);
                }
            }
            assert(self.slots@[i as int].1.window_start_ms == now || self.slots@[i as int].1.window_start_ms
                == before[i as int].1.window_start_ms);
            assert forall|kk: Seq<char>| kk != key@ implies #[trigger] self.state_of(kk) == old(self).state_of(kk) by {
                assert(slot_of(s, kk) == slot_of(before, kk));
                assert(slot_of(mid, kk) == old(self).state_of(kk));
            }
        }
        r
    }
}

} // verus!
