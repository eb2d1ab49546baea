//! Properties that span calls: what every operation keeps, what a repeated call changes, and what
//! the clocks, the engine and the identifiers promise over all inputs.
use vstd::prelude::*;

use crate::interval_timers::{key_view, kept_timers, stale, started_timers, survives, timer_view};

use crate::debug_governor::{decide_spec, GovernorState, WINDOW_MS};
use crate::ids::{run_of_spec, slot_suffix_spec, last_index_of};
use crate::json::{entries_insert, key_index, lemma_insert_lookup, lookup, Json};
use crate::react_interval::{effective_period, flip_value, lemma_next_slot, next_slot};
use crate::react_schedule::{schedule_wants_fire_spec, ScheduleTrigger};
use crate::records::{ClaimState, FlowStepRecord, FlowTriggerState};
use crate::run_store::{
    barrier_decrement, firing_minted, gated, insert_all, reach_in, skippable, slot_of,
    subtree_skipped, terminal_status, any_outcome, RunStatus,
};
use crate::records::SlotOutcome;
use crate::store_read_sql::{clamped_limit, read_sql, MAX_LIMIT};
use crate::text::{has_prefix, decimal};

verus! {

/// A due slot's next instant is strictly after `now`, at most one period later, and on the grid
/// anchored at the scheduled instant; a future slot is kept as it is.
pub proof fn law_next_slot_is_next_future_grid_slot(scheduled: u64, period: u64, now: u64)
    ensures
        scheduled > now ==> next_slot(scheduled as int, period as int, now as int) == scheduled,
        scheduled <= now ==> {
            let r = next_slot(scheduled as int, period as int, now as int);
            &&& r > now
            &&& r <= now + effective_period(period as int)
            &&& (r - scheduled) % effective_period(period as int) == 0
        },
{
    if scheduled <= now {
        lemma_next_slot(scheduled as int, period as int, now as int);
    }
}

/// Two consecutive flip-flop firings emit opposite values: the second flips the first.
pub proof fn law_flipflop_alternates(flop: Option<bool>, start: bool)
    ensures
        flip_value(Some(flip_value(flop, start)), start) == !flip_value(flop, start),
        flip_value(None, start) == start,
{
}

/// Inverting a schedule node's output never changes when it fires: the firing decision reads only
/// the state change and the heartbeat option.
pub proof fn law_invert_changes_value_not_timing(cursor: FlowTriggerState, a: ScheduleTrigger, b: ScheduleTrigger, active: bool)
    requires
        a.emit_interval == b.emit_interval,
    ensures
        schedule_wants_fire_spec(cursor, a, active) == schedule_wants_fire_spec(cursor, b, active),
{
}

/// An evaluation whose state matches the recorded one fires nothing unless the node asks for a
/// heartbeat: runs follow transitions, not scan frequency.
pub proof fn law_schedule_fires_on_transitions(cursor: FlowTriggerState, trig: ScheduleTrigger, active: bool)
    requires
        cursor.schedule_active == Some(active),
        !trig.emit_interval,
    ensures
        !schedule_wants_fire_spec(cursor, trig, active),
{
}

/// The governor never admits more than `rate_limit` messages in one window: a state within budget
/// stays within budget, a message is published only when it fits, and a closing window flushes
/// exactly its suppressed count.
pub proof fn law_governor_caps_each_window(g: GovernorState, now: u64, rate_limit: u64)
    requires
        g.count <= rate_limit,
    ensures
        decide_spec(g, now, rate_limit).0.count <= rate_limit,
        decide_spec(g, now, rate_limit).1 ==> decide_spec(g, now, rate_limit).0.count >= 1,
        g.window_start_ms + WINDOW_MS <= now ==> decide_spec(g, now, rate_limit).2 == if g.suppressed > 0 {
            Some(g.suppressed)
        } else {
            None
        },
        !(g.window_start_ms + WINDOW_MS <= now) ==> decide_spec(g, now, rate_limit).2.is_none(),
{
}

/// A slot is claimable while pending or enqueued.
pub open spec fn claimable(slots: Seq<FlowStepRecord>, node: Seq<char>, fctx: Seq<char>) -> bool {
    slot_of(slots, node, fctx) matches Some(r) && (r.claim == ClaimState::Pending || r.claim == ClaimState::Enqueued)
}

/// Exactly-once under redelivery: once a claim wins, the slot is running, so every later claim of
/// the same slot loses.
pub proof fn law_claim_wins_once(after: Seq<FlowStepRecord>, node: Seq<char>, fctx: Seq<char>, r: FlowStepRecord)
    requires
        slot_of(after, node, fctx) == Some(FlowStepRecord { claim: ClaimState::Running, ..r }),
    ensures
        !claimable(after, node, fctx),
{
}

/// Minting a firing is idempotent: minting the same slot again leaves it as the first mint left it.
pub proof fn law_mint_is_idempotent(
    a: Seq<FlowStepRecord>,
    b: Seq<FlowStepRecord>,
    c: Seq<FlowStepRecord>,
    run: Seq<char>,
    node: Seq<char>,
    new_fctx: Seq<char>,
    trig: Seq<char>,
    parent: Seq<char>,
)
    requires
        firing_minted(a, b, run, node, new_fctx, trig, parent),
        firing_minted(b, c, run, node, new_fctx, trig, parent),
    ensures
        forall|n: Seq<char>, f: Seq<char>| #[trigger] slot_of(c, n, f) == slot_of(b, n, f),
{
    assert forall|n: Seq<char>, f: Seq<char>| #[trigger] slot_of(c, n, f) == slot_of(b, n, f) by {
        if n == node && f == new_fctx {
            assert(slot_of(b, node, new_fctx).is_some());
        }
    }
}

/// The barrier count after `k` releases of a slot.
pub open spec fn released(r: FlowStepRecord, k: nat) -> FlowStepRecord
    decreases k,
{
    if k == 0 {
        r
    } else {
        barrier_decrement(released(r, (k - 1) as nat))
    }
}

/// An explicit-`all` barrier that is pending with `b` outstanding upstreams stays pending through
/// `b - 1` releases and is enqueued by the `b`-th.
pub proof fn law_barrier_enqueues_on_last_release(r: FlowStepRecord, k: nat)
    requires
        r.claim == ClaimState::Pending,
        1 <= k <= r.indegree,
    ensures
        released(r, k).indegree == r.indegree - k,
        released(r, k).claim == if k == r.indegree {
            ClaimState::Enqueued
        } else {
            ClaimState::Pending
        },
    decreases k,
{
    assert(released(r, k) == barrier_decrement(released(r, (k - 1) as nat)));
    if k > 1 {
        law_barrier_enqueues_on_last_release(r, (k - 1) as nat);
    } else {
        assert(released(r, 0) == r);
    }
}

/// A finished run's status: any failure with any success is a partial failure, failures alone are
/// failed, and a run with no failure succeeds.
pub proof fn law_terminal_status(slots: Seq<FlowStepRecord>)
    ensures
        !any_outcome(slots, SlotOutcome::Failed) ==> terminal_status(slots) == RunStatus::Success,
        any_outcome(slots, SlotOutcome::Failed) && any_outcome(slots, SlotOutcome::Succeeded) ==> terminal_status(slots) == RunStatus::PartialFailure,
        any_outcome(slots, SlotOutcome::Failed) && !any_outcome(slots, SlotOutcome::Succeeded) ==> terminal_status(slots) == RunStatus::Failed,
{
}

/// Gating a subtree never touches a slot that is already running or done: a live path keeps what
/// it reached.
pub proof fn law_gating_spares_live_slots(
    before: Seq<FlowStepRecord>,
    after: Seq<FlowStepRecord>,
    run: Seq<char>,
    root: Seq<char>,
    fctx: Seq<char>,
    deps: Seq<(String, Vec<String>)>,
    n: Seq<char>,
    f: Seq<char>,
)
    requires
        subtree_skipped(before, after, run, root, fctx, deps),
        slot_of(before, n, f) matches Some(r) && (r.claim == ClaimState::Running || r.claim == ClaimState::Done),
    ensures
        slot_of(after, n, f) == slot_of(before, n, f),
{
    if f == fctx && gated(deps, before, root, fctx, n) {
        let k = choose|k: nat| reach_in(deps, before, root, fctx, n, k);
        assert(skippable(before, n, fctx));
    }
    assert(slot_of(after, n, f) == slot_of(before, n, f));
}

/// Inserting each of a key-unique list of entries: a key the list holds reads the list's value, any
/// other key reads as before.
pub proof fn law_insert_all_lookup(base: Seq<(String, Json)>, adds: Seq<(String, Json)>, k: Seq<char>)
    requires
        forall|a: int, b: int| 0 <= a < b < adds.len() ==> adds[a].0@ != adds[b].0@,
    ensures
        lookup(insert_all(base, adds), k) == match lookup(adds, k) {
            Some(v) => Some(v),
            None => lookup(base, k),
        },
    decreases adds.len(),
{
    if adds.len() > 0 {
        let b2 = entries_insert(base, adds[0].0, adds[0].1);
        let t = adds.drop_first();
        assert forall|a: int, b: int| 0 <= a < b < t.len() implies t[a].0@ != t[b].0@ by {
            assert(t[a] == adds[a + 1]);
            assert(t[b] == adds[b + 1]);
        }
        law_insert_all_lookup(b2, t, k);
        lemma_insert_lookup(base, adds[0].0, adds[0].1, k);
        if k == adds[0].0@ {
            crate::json::lemma_key_index(t, k);
            match key_index(t, k) {
                Some(i) => {
                    assert(t[i] == adds[i + 1]);
                },
                None => {},
            }
        }
    }
}

/// Slot keys keep firings apart: two firing contexts of one `(run, node)` give the same slot id
/// only when they are the same context, so each funnel firing is its own slot and its own delivery.
pub proof fn law_slot_ids_separate_firings(prefix: Seq<char>, f1: Seq<char>, f2: Seq<char>)
    requires
        prefix + slot_suffix_spec(f1) == prefix + slot_suffix_spec(f2),
    ensures
        f1 == f2,
{
    let a = prefix + slot_suffix_spec(f1);
    let b = prefix + slot_suffix_spec(f2);
    assert(slot_suffix_spec(f1) =~= a.subrange(prefix.len() as int, a.len() as int));
    assert(slot_suffix_spec(f2) =~= b.subrange(prefix.len() as int, b.len() as int));
    reveal_strlit("@");
    if f1.len() > 0 && f2.len() > 0 {
        assert(f1 =~= slot_suffix_spec(f1).drop_first());
        assert(f2 =~= slot_suffix_spec(f2).drop_first());
    }
}

/// The store-read limit always lies in `1..=1000`, and an absent limit reads 100.
pub proof fn law_read_limit_is_clamped(limit: Option<u64>)
    ensures
        1 <= clamped_limit(limit) <= MAX_LIMIT,
        limit.is_none() ==> clamped_limit(limit) == 100,
{
}

proof fn lemma_last_index_after(a: Seq<char>, b: Seq<char>, c: char)
    requires
        forall|i: int| 0 <= i < b.len() ==> b[i] != c,
    ensures
        last_index_of(a.push(c) + b, c) == Some(a.len() as int),
    decreases b.len(),
{
    let s = a.push(c) + b;
    if b.len() == 0 {
        assert(s =~= a.push(c));
    } else {
        assert(s.last() == b.last());
        assert(s.drop_last() =~= a.push(c) + b.drop_last());
        lemma_last_index_after(a, b.drop_last(), c);
    }
}

/// An approval gate item names its run: reading the run back from `flow-approval:{run}:{node}`
/// gives `run` whenever the node id holds no colon (a run id may hold colons).
pub proof fn law_gate_item_names_its_run(run: Seq<char>, node: Seq<char>)
    requires
        forall|i: int| 0 <= i < node.len() ==> node[i] != ':',
    ensures
        run_of_spec("flow-approval:"@ + run + ":"@ + node) == Some(run),
{
    let p = "flow-approval:"@;
    let s = p + run + ":"@ + node;
    assert(s.subrange(0, p.len() as int) =~= p);
    let rest = s.subrange(p.len() as int, s.len() as int);
    reveal_strlit(":");
    assert(rest =~= run.push(':') + node);
    lemma_last_index_after(run, node, ':');
    assert(rest.subrange(0, run.len() as int) =~= run);
}

/// Rendering a `u32` in decimal and parsing it back gives the number.
pub proof fn law_decimal_round_trip(n: u32)
    ensures
        crate::subflow::parse_u32_spec(decimal(n as nat)) == Some(n),
{
    lemma_decimal_digits(n as nat);
    let d = decimal(n as nat);
    assert(d.len() > 0);
    assert(d[0] != '+') by {
        lemma_decimal_first(n as nat);
    }
    assert(crate::subflow::unsigned_part(d) == d);
}

proof fn lemma_decimal_first(n: nat)
    ensures
        decimal(n).len() > 0,
        crate::text::is_ascii_digit(decimal(n)[0]),
    decreases n,
{
    if n >= 10 {
        lemma_decimal_first(n / 10);
        assert(decimal(n)[0] == decimal(n / 10)[0]);
    }
}

proof fn lemma_decimal_digits(n: nat)
    ensures
        decimal(n).len() > 0,
        crate::subflow::all_digits(decimal(n)),
        crate::subflow::digits_value(decimal(n)) == n,
    decreases n,
{
    let d = (n % 10) as nat;
    assert(crate::text::digit_char(d) as int - '0' as int == d) by {
        assert(d < 10);
    }
    if n < 10 {
        let s = decimal(n);
        assert(s.drop_last() =~= Seq::<char>::empty());
        assert(crate::subflow::digits_value(s.drop_last()) == 0);
    } else {
        lemma_decimal_digits(n / 10);
        let s = decimal(n);
        assert(s.drop_last() =~= decimal(n / 10));
        assert(s.last() == crate::text::digit_char(d));
        assert forall|i: int| 0 <= i < s.len() implies crate::text::is_ascii_digit(#[trigger] s[i]) by {
            if i < s.len() - 1 {
                assert(s[i] == decimal(n / 10)[i]);
            }
        }
        assert(crate::subflow::digits_value(s) == n / 10 * 10 + d);
    }
}

/// A retained per-port input wins over everything else a message key could read: the node-level
/// retained value, the explicit bindings and the wiring.
pub proof fn law_retained_port_wins(
    wiring: crate::bindings::Wiring,
    envelope: Json,
    bound: Seq<(String, Json)>,
    node_level: Option<Json>,
    ports: Seq<(String, Json)>,
    k: Seq<char>,
    v: Json,
)
    requires
        crate::bindings::last_lookup(ports, k) == Some(v),
    ensures
        crate::bindings::resolved_lookup(wiring, envelope, bound, node_level, ports, k) == Some(v),
{
}

/// Without a retained port for it, a node's retained node-level value is its `payload`, over the
/// explicit bindings and the wiring.
pub proof fn law_retained_node_level_over_bindings(
    wiring: crate::bindings::Wiring,
    envelope: Json,
    bound: Seq<(String, Json)>,
    rec: Json,
    ports: Seq<(String, Json)>,
    v: Json,
)
    requires
        crate::bindings::last_lookup(ports, "payload"@).is_none(),
        crate::bindings::retained_body(rec).field("value"@) == Some(v),
    ensures
        crate::bindings::resolved_lookup(wiring, envelope, bound, Some(rec), ports, "payload"@) == Some(v),
{
}

/// With nothing retained for a key, an explicit binding of it wins over the wiring.
pub proof fn law_binding_over_wiring(
    wiring: crate::bindings::Wiring,
    envelope: Json,
    bound: Seq<(String, Json)>,
    ports: Seq<(String, Json)>,
    k: Seq<char>,
    v: Json,
)
    requires
        crate::bindings::last_lookup(ports, k).is_none(),
        crate::bindings::last_lookup(bound, k) == Some(v),
    ensures
        crate::bindings::resolved_lookup(wiring, envelope, bound, None, ports, k) == Some(v),
{
}

/// The nearest lineage settle of a node is unique: two nearest candidates of one node are the same
/// slot.
pub proof fn law_nearest_is_unique(slots: Seq<FlowStepRecord>, in_lineage: Seq<bool>, i: int, j: int)
    requires
        crate::bindings::nearest(slots, in_lineage, i),
        crate::bindings::nearest(slots, in_lineage, j),
        slots[i].node_id@ == slots[j].node_id@,
    ensures
        i == j,
{
    assert(crate::bindings::candidate(slots, in_lineage, j, slots[i].node_id@));
    assert(crate::bindings::candidate(slots, in_lineage, i, slots[j].node_id@));
}

/// The flow-level summary is the soonest upcoming fire: none for a disabled flow, and otherwise no
/// trigger with an upcoming fire (a positive next attempt) fires before it; when there is none,
/// no trigger has an upcoming fire.
pub proof fn law_soonest_is_earliest(triggers: Seq<(crate::trigger_store::CronTrigger, u64)>, enabled: bool)
    ensures
        !enabled ==> crate::node_state::soonest(triggers, enabled).is_none(),
        match crate::node_state::soonest(triggers, enabled) {
            Some((ts, _)) => ts > 0 && forall|i: int|
                0 <= i < triggers.len() && (#[trigger] triggers[i]).1 > 0 ==> ts <= triggers[i].1,
            None => !enabled || forall|i: int| 0 <= i < triggers.len() ==> (#[trigger] triggers[i]).1 == 0,
        },
    decreases triggers.len(),
{
    if triggers.len() > 0 {
        let init = triggers.drop_last();
        let t = triggers.last();
        let n = init.len() as int;
        law_soonest_is_earliest(init, enabled);
        assert forall|i: int| 0 <= i < init.len() implies (#[trigger] init[i]) == triggers[i] by {}
        let r = crate::node_state::soonest(triggers, enabled);
        match crate::node_state::soonest(init, enabled) {
            Some((ts0, c0)) => {
                if enabled && t.1 > 0 && t.1 < ts0 {
                    assert(r == Some((t.1, t.0.cron@)));
                    assert forall|i: int| 0 <= i < triggers.len() && (#[trigger] triggers[i]).1 > 0 implies t.1 <= triggers[i].1 by {
                        if i < n {
                            assert(init[i].1 > 0);
                        }
                    }
                } else {
                    assert(r == Some((ts0, c0)));
                    assert forall|i: int| 0 <= i < triggers.len() && (#[trigger] triggers[i]).1 > 0 implies ts0 <= triggers[i].1 by {
                        if i < n {
                            assert(init[i].1 > 0);
                        } else {
                            assert(triggers[i] == t);
                        }
                    }
                }
            },
            None => {
                if enabled && t.1 > 0 {
                    assert(r == Some((t.1, t.0.cron@)));
                    assert forall|i: int| 0 <= i < triggers.len() && (#[trigger] triggers[i]).1 > 0 implies t.1 <= triggers[i].1 by {
                        if i < n {
                            assert(init[i].1 == 0);
                        }
                    }
                } else {
                    assert(r.is_none());
                    if enabled {
                        assert forall|i: int| 0 <= i < triggers.len() implies (#[trigger] triggers[i]).1 == 0 by {
                            if i < n {
                                assert(init[i].1 == 0);
                            } else {
                                assert(triggers[i] == t);
                            }
                        }
                    }
                }
            },
        }
    }
}

/// Deleting a form is idempotent: once a delete tombstoned it, deleting the tombstone again (by
/// anyone, at any time) is a no-op.
pub proof fn law_form_delete_is_idempotent(
    existing: Option<crate::forms::Form>,
    caller: Seq<char>,
    may_delete_any: bool,
    now: u64,
    f: crate::forms::Form,
    caller2: Seq<char>,
    may2: bool,
    now2: u64,
    r2: Result<Option<crate::forms::Form>, crate::forms::FormError>,
)
    requires
        crate::forms::deleted_as(existing, caller, may_delete_any, now, Ok(Some(f))),
        crate::forms::deleted_as(Some(f), caller2, may2, now2, r2),
    ensures
        r2 matches Ok(None),
{
}

/// The fresh governor state every key starts from.
pub open spec fn fresh_governor() -> GovernorState {
    GovernorState { window_start_ms: 0, count: 0, suppressed: 0 }
}

/// One key's governor state before call `i` of a sequence of calls at times `ts` under
/// `rate_limit`, starting fresh (each call steps the state as [`decide_spec`] says, which is what
/// `DebugGovernor::governor` does to its key).
pub open spec fn gov_state(ts: Seq<u64>, rate_limit: u64, i: nat) -> GovernorState
    decreases i,
{
    if i == 0 {
        fresh_governor()
    } else {
        decide_spec(gov_state(ts, rate_limit, (i - 1) as nat), ts[i - 1], rate_limit).0
    }
}

/// What call `i` returns: `(new state, publish?, dropped count to flush)`.
pub open spec fn gov_out(ts: Seq<u64>, rate_limit: u64, i: nat) -> (GovernorState, bool, Option<u64>) {
    decide_spec(gov_state(ts, rate_limit, i), ts[i as int], rate_limit)
}

/// Whether call `i` resets the budget: its key's window has elapsed.
pub open spec fn gov_resets(ts: Seq<u64>, rate_limit: u64, i: nat) -> bool {
    gov_state(ts, rate_limit, i).window_start_ms + WINDOW_MS <= ts[i as int]
}

/// How many of calls `a..b` were published (`published`) or suppressed (`!published`).
pub open spec fn gov_count(ts: Seq<u64>, rate_limit: u64, a: nat, b: nat, published: bool) -> nat
    decreases b - a,
{
    if b <= a {
        0
    } else {
        gov_count(ts, rate_limit, a, (b - 1) as nat, published) + if gov_out(ts, rate_limit, (b - 1) as nat).1
            == published {
            1nat
        } else {
            0nat
        }
    }
}

/// Inside one window (opened by call `a`, no reset among calls `a+1..k`), the state counts the
/// window's published and suppressed calls, stays within budget, and (when opened at a positive
/// time) keeps the window's start at the opening call's time.
proof fn lemma_gov_window(ts: Seq<u64>, rate_limit: u64, a: nat, k: nat)
    requires
        ts.len() < u64::MAX,
        a < k <= ts.len(),
        a == 0 || gov_resets(ts, rate_limit, a),
        forall|j: nat| a < j < k ==> !#[trigger] gov_resets(ts, rate_limit, j),
    ensures
        gov_state(ts, rate_limit, k).count == gov_count(ts, rate_limit, a, k, true),
        gov_state(ts, rate_limit, k).suppressed == gov_count(ts, rate_limit, a, k, false),
        gov_state(ts, rate_limit, k).count <= rate_limit,
        gov_count(ts, rate_limit, a, k, false) <= k - a,
        ts[a as int] > 0 ==> gov_state(ts, rate_limit, k).window_start_ms == ts[a as int],
    decreases k,
{
    if k == a + 1 {
        assert(gov_count(ts, rate_limit, a, a, true) == 0);
        assert(gov_count(ts, rate_limit, a, a, false) == 0);
    } else {
        let j = (k - 1) as nat;
        lemma_gov_window(ts, rate_limit, a, j);
        assert(!gov_resets(ts, rate_limit, j));
    }
}

/// The governor's windows over a sequence of calls on one key, starting fresh: within a window
/// (opened by call `a`, the first call or one that resets the budget, with no reset among the
/// calls up to `b`) at most `rate_limit` calls are published; the call `b` that follows flushes
/// exactly the window's suppressed count when it resets the budget (nothing when there were none)
/// and flushes nothing when it does not; and a reset comes no sooner than a window length after
/// the call that opened the window.
pub proof fn law_governor_windows(ts: Seq<u64>, rate_limit: u64, a: nat, b: nat)
    requires
        ts.len() < u64::MAX,
        a < b <= ts.len(),
        a == 0 || gov_resets(ts, rate_limit, a),
        forall|j: nat| a < j < b ==> !#[trigger] gov_resets(ts, rate_limit, j),
    ensures
        gov_count(ts, rate_limit, a, b, true) <= rate_limit,
        b < ts.len() && gov_resets(ts, rate_limit, b) ==> gov_out(ts, rate_limit, b).2 == if gov_count(
            ts,
            rate_limit,
            a,
            b,
            false,
        ) > 0 {
            Some(gov_count(ts, rate_limit, a, b, false) as u64)
        } else {
            None
        },
        b < ts.len() && !gov_resets(ts, rate_limit, b) ==> gov_out(ts, rate_limit, b).2.is_none(),
        b < ts.len() && gov_resets(ts, rate_limit, b) ==> ts[b as int] >= ts[a as int] + WINDOW_MS,
{
    lemma_gov_window(ts, rate_limit, a, b);
}

/// What one timer pass leaves: every timer is not stale, every wanted timer survives, and another
/// workspace's timers are kept.
proof fn lemma_timer_pass_facts(
    ws: Seq<char>,
    desired: Seq<(crate::interval_timers::TimerKey, u64)>,
    live: Seq<(crate::interval_timers::TimerKey, u64)>,
    next: Seq<(crate::interval_timers::TimerKey, u64)>,
    first: crate::interval_timers::TimerReconcilePass,
)
    requires
        crate::interval_timers::distinct_keys(desired),
        crate::interval_timers::timer_pass(ws, desired, live, next, first),
    ensures
        forall|k: int| 0 <= k < next.len() ==> !crate::interval_timers::stale(desired, ws, #[trigger] next[k]),
        forall|j: int|
            0 <= j < desired.len() ==> crate::interval_timers::survives(
                desired,
                ws,
                next,
                next.len() as int,
                crate::interval_timers::key_view(#[trigger] desired[j].0),
            ),
        forall|i: int| 0 <= i < live.len() && (#[trigger] live[i]).0.ws@ != ws ==> exists|k: int| 0 <= k < next.len() && next[k] == live[i],
{
    let kept = kept_timers(desired, ws, live);
    let started = started_timers(desired, ws, live, desired);
    crate::interval_timers::lemma_kept_members(desired, ws, live);
    crate::interval_timers::lemma_started_members(desired, ws, live, desired);
    assert forall|k: int| 0 <= k < next.len() implies !stale(desired, ws, #[trigger] next[k]) by {
        if k < kept.len() {
            assert(next[k] == kept[k]);
        } else {
            let k2 = k - kept.len();
            assert(timer_view(next[kept.len() + k2]) == timer_view(started[k2]));
            let j = choose|j: int|
                0 <= j < desired.len() && desired[j] == #[trigger] started[k2] && !survives(
                    desired,
                    ws,
                    live,
                    live.len() as int,
                    key_view(desired[j].0),
                );
            crate::interval_timers::lemma_wanted_at(desired, j);
        }
    }
    assert forall|j: int| 0 <= j < desired.len() implies survives(
        desired,
        ws,
        next,
        next.len() as int,
        key_view(#[trigger] desired[j].0),
    ) by {
        let key = key_view(desired[j].0);
        if survives(desired, ws, live, live.len() as int, key) {
            let x = choose|x: int| 0 <= x < live.len() && !stale(desired, ws, live[x]) && #[trigger] key_view(live[x].0) == key;
            assert(!stale(desired, ws, live[x]));
            let k = choose|k: int| 0 <= k < kept.len() && kept[k] == live[x];
            assert(next[k] == kept[k]);
            assert(!stale(desired, ws, next[k]));
            assert(key_view(next[k].0) == key);
        } else {
            let k2 = choose|k: int| 0 <= k < started.len() && started[k] == desired[j];
            let k = kept.len() + k2;
            assert(timer_view(next[kept.len() + k2]) == timer_view(started[k2]));
            assert(!stale(desired, ws, next[k]));
            assert(key_view(next[k].0) == key);
        }
    }
    assert forall|i: int| 0 <= i < live.len() && (#[trigger] live[i]).0.ws@ != ws implies exists|k: int|
        0 <= k < next.len() && next[k] == live[i] by {
        assert(!stale(desired, ws, live[i]));
        let k = choose|k: int| 0 <= k < kept.len() && kept[k] == live[i];
        assert(next[k] == kept[k]);
    }
}


/// Flows only want timers of their own workspace.
proof fn lemma_flows_wanted_ws(ws: Seq<char>, flows: Seq<crate::interval_timers::TimerFlow>, key: (Seq<char>, Seq<char>, Seq<char>))
    ensures
        crate::interval_timers::flows_wanted(ws, flows, key) is Some ==> key.0 == ws,
    decreases flows.len(),
{
    if flows.len() > 0 {
        let f = flows.last();
        lemma_trigger_wanted_ws(ws, f.id@, f.triggers@, key);
        lemma_flows_wanted_ws(ws, flows.drop_last(), key);
    }
}

proof fn lemma_trigger_wanted_ws(
    ws: Seq<char>,
    flow_id: Seq<char>,
    trigs: Seq<crate::react_interval::FlipFlopTrigger>,
    key: (Seq<char>, Seq<char>, Seq<char>),
)
    ensures
        crate::interval_timers::trigger_wanted(ws, flow_id, trigs, key) is Some ==> key.0 == ws,
    decreases trigs.len(),
{
    if trigs.len() > 0 {
        lemma_trigger_wanted_ws(ws, flow_id, trigs.drop_last(), key);
    }
}

/// Reconciling the live timers of workspace `ws` twice against the same flow list (each pass with
/// the timer set the flows want, see `reconcile_interval_timers`): after the first pass, a live
/// timer of `ws` runs exactly when an enabled, non-deleted flow's flip-flop wants its key, at the
/// wanted period (the last such trigger's); another workspace's timers are all kept; the second
/// pass stops and starts nothing and leaves the live set as the first left it.
pub proof fn law_timer_reconcile_over_flows(
    ws: Seq<char>,
    flows: Seq<crate::interval_timers::TimerFlow>,
    d1: Seq<(crate::interval_timers::TimerKey, u64)>,
    live: Seq<(crate::interval_timers::TimerKey, u64)>,
    next: Seq<(crate::interval_timers::TimerKey, u64)>,
    first: crate::interval_timers::TimerReconcilePass,
    d2: Seq<(crate::interval_timers::TimerKey, u64)>,
    next2: Seq<(crate::interval_timers::TimerKey, u64)>,
    second: crate::interval_timers::TimerReconcilePass,
)
    requires
        crate::interval_timers::desired_for(ws, flows, d1),
        crate::interval_timers::timer_pass(ws, d1, live, next, first),
        crate::interval_timers::desired_for(ws, flows, d2),
        crate::interval_timers::timer_pass(ws, d2, next, next2, second),
    ensures
        forall|k: int|
            0 <= k < next.len() && (#[trigger] next[k]).0.ws@ == ws ==> crate::interval_timers::flows_wanted(
                ws,
                flows,
                key_view(next[k].0),
            ) == Some(next[k].1),
        forall|key: (Seq<char>, Seq<char>, Seq<char>)|
            (#[trigger] crate::interval_timers::flows_wanted(ws, flows, key)) is Some ==> exists|k: int|
                0 <= k < next.len() && key_view(next[k].0) == key && Some(next[k].1) == crate::interval_timers::flows_wanted(
                    ws,
                    flows,
                    key,
                ),
        forall|i: int| 0 <= i < live.len() && (#[trigger] live[i]).0.ws@ != ws ==> exists|k: int| 0 <= k < next.len() && next[k] == live[i],
        second.stopped == 0,
        second.started == 0,
        next2 == next,
{
    lemma_timer_pass_facts(ws, d1, live, next, first);
    assert forall|k: int|
        0 <= k < next.len() && (#[trigger] next[k]).0.ws@ == ws implies crate::interval_timers::flows_wanted(
            ws,
            flows,
            key_view(next[k].0),
        ) == Some(next[k].1) by {
        assert(!stale(d1, ws, next[k]));
        assert(crate::interval_timers::wanted(d1, key_view(next[k].0)) == crate::interval_timers::flows_wanted(ws, flows, key_view(next[k].0)));
    }
    assert forall|key: (Seq<char>, Seq<char>, Seq<char>)|
        (#[trigger] crate::interval_timers::flows_wanted(ws, flows, key)) is Some implies exists|k: int|
            0 <= k < next.len() && key_view(next[k].0) == key && Some(next[k].1) == crate::interval_timers::flows_wanted(
                ws,
                flows,
                key,
            ) by {
        lemma_flows_wanted_ws(ws, flows, key);
        assert(crate::interval_timers::wanted(d1, key) == crate::interval_timers::flows_wanted(ws, flows, key));
        crate::interval_timers::lemma_wanted_some(d1, key);
        let j = choose|j: int| 0 <= j < d1.len() && key_view(#[trigger] d1[j].0) == key && d1[j].1
            == crate::interval_timers::wanted(d1, key)->0;
        assert(survives(d1, ws, next, next.len() as int, key_view(d1[j].0)));
        let x = choose|x: int| 0 <= x < next.len() && !stale(d1, ws, next[x]) && #[trigger] key_view(next[x].0) == key;
        assert(next[x].0.ws@ == key.0);
    }
    // The second pass, against a wanted set that wants the same periods.
    assert forall|k: int| 0 <= k < next.len() implies !stale(d2, ws, #[trigger] next[k]) by {
        assert(!stale(d1, ws, next[k]));
        assert(crate::interval_timers::wanted(d1, key_view(next[k].0)) == crate::interval_timers::wanted(d2, key_view(next[k].0)));
    }
    assert forall|j: int| 0 <= j < d2.len() implies survives(d2, ws, next, next.len() as int, key_view(#[trigger] d2[j].0)) by {
        let key = key_view(d2[j].0);
        crate::interval_timers::lemma_wanted_at(d2, j);
        assert(crate::interval_timers::wanted(d2, key) == crate::interval_timers::flows_wanted(ws, flows, key));
        lemma_flows_wanted_ws(ws, flows, key);
        assert(crate::interval_timers::wanted(d1, key) == crate::interval_timers::flows_wanted(ws, flows, key));
        crate::interval_timers::lemma_wanted_some(d1, key);
        let j1 = choose|j1: int| 0 <= j1 < d1.len() && key_view(#[trigger] d1[j1].0) == key && d1[j1].1
            == crate::interval_timers::wanted(d1, key)->0;
        assert(survives(d1, ws, next, next.len() as int, key_view(d1[j1].0)));
        let x = choose|x: int| 0 <= x < next.len() && !stale(d1, ws, next[x]) && #[trigger] key_view(next[x].0) == key;
        assert(!stale(d2, ws, next[x]));
    }
    crate::interval_timers::lemma_kept_all(d2, ws, next);
    crate::interval_timers::lemma_started_none(d2, ws, next, d2);
    assert(next2.len() == next.len());
    assert forall|k: int| 0 <= k < next.len() implies next2[k] == next[k] by {
        assert(next2[k] == kept_timers(d2, ws, next)[k]);
    }
    assert(next2 =~= next);
}


/// A schedule node emits its active state as it is, or inverted exactly when it asks for
/// inversion: without `invert` the value is the state, with `invert` it is the opposite state (so a
/// schedule turning inactive emits `true` on an inverted node), and the two settings always disagree.
pub proof fn law_schedule_value_follows_inversion(active: bool)
    ensures
        crate::react_schedule::emitted_value(active, false) == active,
        crate::react_schedule::emitted_value(active, true) == !active,
        crate::react_schedule::emitted_value(active, true) != crate::react_schedule::emitted_value(active, false),
{
}

/// A finished run never blocks a new firing: appending a run whose status is `success`, `failed`,
/// `cancelled` or `partialFailure` to any run list leaves the live run ids exactly as they were.
pub proof fn law_finished_runs_are_not_live(
    rows: Seq<crate::concurrency::RunRow>,
    r: crate::concurrency::RunRow,
    flow_id: Seq<char>,
    exclude: Seq<char>,
)
    requires
        r.status@ == "success"@ || r.status@ == "failed"@ || r.status@ == "cancelled"@ || r.status@
            == "partialFailure"@,
    ensures
        crate::concurrency::live_ids(rows.push(r), flow_id, exclude) == crate::concurrency::live_ids(rows, flow_id, exclude),
{
    assert(rows.push(r).drop_last() =~= rows);
    assert(rows.push(r).last() == r);
}

/// An unfinished run of the flow is live: appending a run of `flow_id` with a non-empty id other
/// than `exclude` whose status is none of the four finished ones adds exactly its id.
pub proof fn law_unfinished_runs_are_live(
    rows: Seq<crate::concurrency::RunRow>,
    r: crate::concurrency::RunRow,
    flow_id: Seq<char>,
    exclude: Seq<char>,
)
    requires
        r.flow_id@ == flow_id,
        r.run_id@.len() > 0,
        r.run_id@ != exclude,
        !(r.status@ == "success"@ || r.status@ == "failed"@ || r.status@ == "cancelled"@ || r.status@
            == "partialFailure"@),
    ensures
        crate::concurrency::live_ids(rows.push(r), flow_id, exclude) == crate::concurrency::live_ids(rows, flow_id, exclude).push(
            r.run_id@,
        ),
{
    assert(rows.push(r).drop_last() =~= rows);
    assert(rows.push(r).last() == r);
}

/// The size a `count`/`counter` node reads: an absent or null payload is 0, any other scalar
/// (string, bool, number) is exactly 1, an array its length and an object its key count.
pub proof fn law_payload_size(p: Json)
    ensures
        crate::execute_node::payload_size_spec(None) == 0,
        crate::execute_node::payload_size_spec(Some(p)) == match p {
            Json::Null => 0,
            Json::Array(a) => a@.len(),
            Json::Object(m) => m@.len(),
            _ => 1nat,
        },
        (p is Str || p is Bool || p is UInt || p is Int || p is Float) ==> crate::execute_node::payload_size_spec(Some(p)) == 1,
{
}

/// The driver halts a run whose record exists only when it was cancelled or suspended (and then
/// with that status); a run whose record is gone halts as cancelled. Any other status (`running`,
/// `pending`, ...) never halts, and a pass with ready slots then executes them.
pub proof fn law_only_cancel_or_suspend_halts(s: Seq<char>)
    ensures
        (s == "cancelled"@ || s == "suspended"@) ==> crate::coordinator::halt_of(Some(s)) == Some(s),
        !(s == "cancelled"@ || s == "suspended"@) ==> crate::coordinator::halt_of(Some(s)).is_none(),
        crate::coordinator::halt_of(None) == Some("cancelled"@),
{
}

/// A node with at least one upstream whose installed type declares no input port is refused;
/// when its config passes the type's schema and none of its wires names a port, the refusal is the
/// incoming-wire message. So a flow saves only if every such node has no upstream.
pub proof fn law_wired_node_needs_an_input_port(
    n: crate::save_lints::LintNode,
    registry: Seq<crate::save_lints::NodeDescriptor>,
    schema: Option<String>,
)
    requires
        crate::save_lints::desc_index(registry, n.node_type@) matches Some(d) && registry[d].inputs@.len() == 0,
        n.needs@.len() > 0,
    ensures
        crate::save_lints::node_lint(n, registry, schema).is_some(),
        schema.is_none() && (forall|j: int| 0 <= j < n.edges@.len() ==> (#[trigger] n.edges@[j]).to_port.is_none())
            ==> crate::save_lints::node_lint(n, registry, schema) == Some(
            "node `"@ + n.id@ + "` ("@ + n.node_type@ + ") has "@ + decimal(n.needs@.len())
                + " incoming wire(s) but declares no input port"@,
        ),
{
    if schema.is_none() && (forall|j: int| 0 <= j < n.edges@.len() ==> (#[trigger] n.edges@[j]).to_port.is_none()) {
        let d = crate::save_lints::desc_index(registry, n.node_type@)->0;
        crate::save_lints::lemma_no_port_edges(n.edges@, registry[d].inputs@);
    }
}

/// A transition always calls for a run: an evaluation whose state differs from the recorded one
/// (or with no recorded state) wants a firing, and a node asking for a heartbeat wants one on every
/// evaluation.
pub proof fn law_schedule_transition_fires(cursor: FlowTriggerState, trig: ScheduleTrigger, active: bool)
    ensures
        cursor.schedule_active != Some(active) ==> schedule_wants_fire_spec(cursor, trig, active),
        trig.emit_interval ==> schedule_wants_fire_spec(cursor, trig, active),
{
}

/// Two or more wires into an installed type whose primary input is an explicit `all` join, on a
/// node that does not bind `payload`, are refused.
pub proof fn law_join_needs_a_payload_binding(
    n: crate::save_lints::LintNode,
    registry: Seq<crate::save_lints::NodeDescriptor>,
    schema: Option<String>,
)
    requires
        crate::save_lints::desc_index(registry, n.node_type@) matches Some(d) && registry[d].primary_join
            == crate::run_store::JoinPolicy::All,
        n.needs@.len() >= 2,
        !n.binds_payload,
    ensures
        crate::save_lints::node_lint(n, registry, schema).is_some(),
{
}

/// A node passes its lints when its type is installed, its config passes the schema, none of its
/// wires names a port, it has an input port whenever it has an upstream, and it binds `payload`
/// whenever two or more wires meet an explicit `all` join.
pub proof fn law_lint_accepts_a_well_wired_node(
    n: crate::save_lints::LintNode,
    registry: Seq<crate::save_lints::NodeDescriptor>,
)
    requires
        crate::save_lints::desc_index(registry, n.node_type@) matches Some(d) && (n.needs@.len() == 0
            || registry[d].inputs@.len() > 0) && (n.needs@.len() < 2 || registry[d].primary_join
            != crate::run_store::JoinPolicy::All || n.binds_payload),
        forall|j: int| 0 <= j < n.edges@.len() ==> (#[trigger] n.edges@[j]).to_port.is_none(),
    ensures
        crate::save_lints::node_lint(n, registry, None).is_none(),
{
    let d = crate::save_lints::desc_index(registry, n.node_type@)->0;
    crate::save_lints::lemma_no_port_edges(n.edges@, registry[d].inputs@);
}

} // verus!
