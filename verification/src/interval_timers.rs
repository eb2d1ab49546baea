//! The interval-timer reconciler: one timer per live flip-flop node, keyed by (workspace, flow,
//! node). A pass stops this workspace's timers that are no longer wanted or whose period changed,
//! and starts a timer for every wanted node that has none.
use vstd::prelude::*;

use crate::json::str_eq;
use crate::react_interval::FlipFlopTrigger;

verus! {

/// The key of one live timer.
pub struct TimerKey {
    pub ws: String,
    pub flow_id: String,
    pub node_id: String,
}

/// One timer-reconcile pass's tally.
#[derive(Clone, Copy, Debug, PartialEq, Eq, Structural)]
pub struct TimerReconcilePass {
    pub started: u64,
    pub stopped: u64,
}

/// The views of a key.
pub open spec fn key_view(k: TimerKey) -> (Seq<char>, Seq<char>, Seq<char>) {
    (k.ws@, k.flow_id@, k.node_id@)
}

/// The period wanted for key `k`, if any (the first entry with that key).
pub open spec fn wanted(desired: Seq<(TimerKey, u64)>, k: (Seq<char>, Seq<char>, Seq<char>)) -> Option<u64>
    decreases desired.len(),
{
    if desired.len() == 0 {
        None
    } else if key_view(desired[0].0) == k {
        Some(desired[0].1)
    } else {
        wanted(desired.drop_first(), k)
    }
}

/// A live timer of workspace `ws` that must stop: no longer wanted, or wanted at another period.
pub open spec fn stale(desired: Seq<(TimerKey, u64)>, ws: Seq<char>, live: (TimerKey, u64)) -> bool {
    live.0.ws@ == ws && wanted(desired, key_view(live.0)) != Some(live.1)
}

/// Some live timer among the first `n` with key `k` survives the stop step.
pub open spec fn survives(desired: Seq<(TimerKey, u64)>, ws: Seq<char>, live: Seq<(TimerKey, u64)>, n: int, k: (Seq<char>, Seq<char>, Seq<char>)) -> bool {
    exists|x: int| 0 <= x < n && !stale(desired, ws, live[x]) && #[trigger] key_view(live[x].0) == k
}

/// Is key `k` among the live timers?
pub open spec fn live_has(live: Seq<(TimerKey, u64)>, k: (Seq<char>, Seq<char>, Seq<char>)) -> bool {
    exists|i: int| 0 <= i < live.len() && key_view(#[trigger] live[i].0) == k
}

fn key_eq(a: &TimerKey, b: &TimerKey) -> (r: bool)
    ensures
        r == (key_view(*a) == key_view(*b)),
{
    str_eq(a.ws.as_str(), b.ws.as_str()) && str_eq(a.flow_id.as_str(), b.flow_id.as_str()) && str_eq(
        a.node_id.as_str(),
        b.node_id.as_str(),
    )
}

/// The period wanted for `k`.
fn wanted_exec(desired: &Vec<(TimerKey, u64)>, k: &TimerKey) -> (r: Option<u64>)
    ensures
        r == wanted(desired@, key_view(*k)),
{
    let mut i: usize = 0;
    assert(desired@.subrange(0, desired@.len() as int) =~= desired@);
    while i < desired.len()
        invariant
            i <= desired@.len(),
            wanted(desired@, key_view(*k)) == wanted(desired@.subrange(i as int, desired@.len() as int), key_view(*k)),
        decreases desired@.len() - i,
    {
        let ghost rest = desired@.subrange(i as int, desired@.len() as int);
        if key_eq(&desired[i].0, k) {
            assert(rest[0] == desired@[i as int]);
            return Some(desired[i].1);
        }
        assert(rest.drop_first() =~= desired@.subrange(i + 1, desired@.len() as int));
        i = i + 1;
    }
    None
}

/// Which live timers of `ws` stop (by index into `live`), and which wanted timers start (by index
/// into `desired`): a wanted timer starts when no live timer with its key survives the stop step.
pub struct TimerPlan {
    pub stop: Vec<usize>,
    pub start: Vec<usize>,
}

/// Plan one timer-reconcile pass for workspace `ws`.
pub fn plan_timers(ws: &str, desired: &Vec<(TimerKey, u64)>, live: &Vec<(TimerKey, u64)>) -> (p: TimerPlan)
    ensures
        forall|i: int| 0 <= i < live@.len() ==> (stale(desired@, ws@, #[trigger] live@[i]) <==> p.stop@.contains(i as usize)),
        forall|a: int| 0 <= a < p.stop@.len() ==> p.stop@[a] < live@.len(),
        forall|j: int| #![trigger desired@[j]] 0 <= j < desired@.len() ==> (p.start@.contains(j as usize) <==> !survives(desired@, ws@, live@, live@.len() as int, key_view(desired@[j].0))),
        forall|a: int| 0 <= a < p.start@.len() ==> p.start@[a] < desired@.len(),
{
    let mut stop: Vec<usize> = Vec::new();
    let mut i: usize = 0;
    while i < live.len()
        invariant
            i <= live@.len(),
            forall|q: int| 0 <= q < live@.len() ==> (stale(desired@, ws@, #[trigger] live@[q]) && q < i <==> stop@.contains(q as usize)),
            forall|a: int| 0 <= a < stop@.len() ==> stop@[a] < i,
        decreases live@.len() - i,
    {
        let same_ws = str_eq(live[i].0.ws.as_str(), ws);
        let w = wanted_exec(desired, &live[i].0);
        let is_stale = same_ws && match w {
            None => true,
            Some(p) => p != live[i].1,
        };
        let ghost before = stop@;
        if is_stale {
            stop.push(i);
        }
        proof {
            assert forall|q: int| 0 <= q < live@.len() implies (stale(desired@, ws@, #[trigger] live@[q]) && q < i + 1 <==> stop@.contains(q as usize)) by {
                if stop@.contains(q as usize) {
                    let a = choose|a: int| 0 <= a < stop@.len() && stop@[a] == q as usize;
                    if a < before.len() {
                        assert(before.contains(q as usize));
                    }
                }
                if stale(desired@, ws@, live@[q]) && q < i {
                    assert(before.contains(q as usize));
                    let a = choose|a: int| 0 <= a < before.len() && before[a] == q as usize;
                    assert(stop@[a] == q as usize);
                }
                if q == i && is_stale {
                    assert(stop@[before.len() as int] == i);
                }
            }
        }
        i = i + 1;
    }
    let mut start: Vec<usize> = Vec::new();
    let mut j: usize = 0;
    while j < desired.len()
        invariant
            j <= desired@.len(),
            forall|q: int| 0 <= q < live@.len() ==> (stale(desired@, ws@, #[trigger] live@[q]) <==> stop@.contains(q as usize)),
            forall|d: int| #![trigger desired@[d]] 0 <= d < desired@.len() ==> (start@.contains(d as usize) <==> d < j && !survives(desired@, ws@, live@, live@.len() as int, key_view(desired@[d].0))),
            forall|a: int| 0 <= a < start@.len() ==> start@[a] < j,
        decreases desired@.len() - j,
    {
        let mut present = false;
        let mut q: usize = 0;
        while q < live.len()
            invariant
                q <= live@.len(),
                j < desired@.len(),
                forall|x: int| 0 <= x < live@.len() ==> (stale(desired@, ws@, #[trigger] live@[x]) <==> stop@.contains(x as usize)),
                present == survives(desired@, ws@, live@, q as int, key_view(desired@[j as int].0)),
            decreases live@.len() - q,
        {
            if !present && key_eq(&live[q].0, &desired[j].0) && !vec_contains(&stop, q) {
                present = true;
            }
            proof {
                let kk = key_view(desired@[j as int].0);
                if survives(desired@, ws@, live@, q as int, kk) {
                    let x = choose|x: int| 0 <= x < q && !stale(desired@, ws@, live@[x]) && #[trigger] key_view(live@[x].0) == kk;
                    assert(survives(desired@, ws@, live@, q + 1, kk));
                }
                if survives(desired@, ws@, live@, q + 1, kk) {
                    let x = choose|x: int| 0 <= x < q + 1 && !stale(desired@, ws@, live@[x]) && #[trigger] key_view(live@[x].0) == kk;
                    if x < q {
                        assert(survives(desired@, ws@, live@, q as int, kk));
                    }
                }
                if present && !survives(desired@, ws@, live@, q as int, kk) {
                    assert(key_view(live@[q as int].0) == kk);
                    assert(survives(desired@, ws@, live@, q + 1, kk));
                }
            }
            q = q + 1;
        }
        let ghost before = start@;
        if !present {
            start.push(j);
        }
        proof {
            assert forall|d: int| #![trigger desired@[d]] 0 <= d < desired@.len() implies (start@.contains(d as usize) <==> d < j + 1 && !survives(desired@, ws@, live@, live@.len() as int, key_view(desired@[d].0))) by {
                if start@.contains(d as usize) {
                    let a = choose|a: int| 0 <= a < start@.len() && start@[a] == d as usize;
                    if a < before.len() {
                        assert(before.contains(d as usize));
                    }
                }
                if d < j && before.contains(d as usize) {
                    let a = choose|a: int| 0 <= a < before.len() && before[a] == d as usize;
                    assert(start@[a] == d as usize);
                }
                if d == j && !present {
                    assert(start@[before.len() as int] == j);
                }
            }
        }
        j = j + 1;
    }
    TimerPlan { stop, start }
}

fn vec_contains(v: &Vec<usize>, x: usize) -> (b: bool)
    ensures
        b == v@.contains(x),
{
    let mut i: usize = 0;
    while i < v.len()
        invariant
            i <= v@.len(),
            forall|j: int| 0 <= j < i ==> v@[j] != x,
        decreases v@.len() - i,
    {
        if v[i] == x {
            return true;
        }
        i = i + 1;
    }
    false
}

/// When a timer next fires: at the cursor's instant while that is in the future, else now (an
/// unarmed or unreadable-as-future cursor fires at once).
pub fn timer_deadline(next_attempt_ts: Option<u64>, now: u64) -> (d: u64)
    ensures
        d == match next_attempt_ts {
            Some(t) if t > now => t,
            _ => now,
        },
{
    match next_attempt_ts {
        Some(t) if t > now => t,
        _ => now,
    }
}

/// A timer as a pass sees it: its key's views and its period.
pub open spec fn timer_view(e: (TimerKey, u64)) -> ((Seq<char>, Seq<char>, Seq<char>), u64) {
    (key_view(e.0), e.1)
}

/// The live timers a pass for `ws` keeps (those not stale), in order.
pub open spec fn kept_timers(desired: Seq<(TimerKey, u64)>, ws: Seq<char>, live: Seq<(TimerKey, u64)>) -> Seq<(TimerKey, u64)>
    decreases live.len(),
{
    if live.len() == 0 {
        Seq::empty()
    } else {
        let rest = kept_timers(desired, ws, live.drop_last());
        if stale(desired, ws, live.last()) {
            rest
        } else {
            rest.push(live.last())
        }
    }
}

/// The wanted timers among `d` a pass for `ws` over `live` starts (those no surviving live timer
/// covers), in order.
pub open spec fn started_timers(
    desired: Seq<(TimerKey, u64)>,
    ws: Seq<char>,
    live: Seq<(TimerKey, u64)>,
    d: Seq<(TimerKey, u64)>,
) -> Seq<(TimerKey, u64)>
    decreases d.len(),
{
    if d.len() == 0 {
        Seq::empty()
    } else {
        let rest = started_timers(desired, ws, live, d.drop_last());
        if survives(desired, ws, live, live.len() as int, key_view(d.last().0)) {
            rest
        } else {
            rest.push(d.last())
        }
    }
}

/// `next` and `pass` are what a timer pass for `ws` makes of `live`: the kept timers (unchanged, in
/// order) followed by the started ones (each a copy of its wanted timer), with one stop counted per
/// stale timer and one start per started timer.
pub open spec fn timer_pass(
    ws: Seq<char>,
    desired: Seq<(TimerKey, u64)>,
    live: Seq<(TimerKey, u64)>,
    next: Seq<(TimerKey, u64)>,
    pass: TimerReconcilePass,
) -> bool {
    let kept = kept_timers(desired, ws, live);
    let started = started_timers(desired, ws, live, desired);
    &&& next.len() == kept.len() + started.len()
    &&& forall|k: int| 0 <= k < kept.len() ==> #[trigger] next[k] == kept[k]
    &&& forall|k: int| 0 <= k < started.len() ==> #[trigger] timer_view(next[kept.len() + k]) == timer_view(started[k])
    &&& pass.stopped == live.len() - kept.len()
    &&& pass.started == started.len()
}

/// A copy of a timer key.
fn copy_key(k: &TimerKey) -> (r: TimerKey)
    ensures
        key_view(r) == key_view(*k),
{
    TimerKey { ws: k.ws.clone(), flow_id: k.flow_id.clone(), node_id: k.node_id.clone() }
}

proof fn lemma_kept_len(desired: Seq<(TimerKey, u64)>, ws: Seq<char>, live: Seq<(TimerKey, u64)>)
    ensures
        kept_timers(desired, ws, live).len() <= live.len(),
    decreases live.len(),
{
    if live.len() > 0 {
        lemma_kept_len(desired, ws, live.drop_last());
    }
}

proof fn lemma_started_len(desired: Seq<(TimerKey, u64)>, ws: Seq<char>, live: Seq<(TimerKey, u64)>, d: Seq<(TimerKey, u64)>)
    ensures
        started_timers(desired, ws, live, d).len() <= d.len(),
    decreases d.len(),
{
    if d.len() > 0 {
        lemma_started_len(desired, ws, live, d.drop_last());
    }
}

/// Run one timer-reconcile pass for workspace `ws` over the live timers: stop this workspace's
/// stale timers and start every wanted timer no surviving timer covers (see [`timer_pass`]).
pub fn reconcile_timers(ws: &str, desired: &Vec<(TimerKey, u64)>, live: Vec<(TimerKey, u64)>) -> (r: (
    Vec<(TimerKey, u64)>,
    TimerReconcilePass,
))
    ensures
        timer_pass(ws@, desired@, live@, r.0@, r.1),
{
    let plan = plan_timers(ws, desired, &live);
    let ghost g = live@;
    let n = live.len();
    let mut rest = live;
    let mut next: Vec<(TimerKey, u64)> = Vec::new();
    let mut stopped: u64 = 0;
    let mut i: usize = 0;
    while i < n
        invariant
            n == g.len(),
            i <= n,
            rest@ == g.subrange(i as int, n as int),
            forall|q: int| 0 <= q < g.len() ==> (stale(desired@, ws@, #[trigger] g[q]) <==> plan.stop@.contains(q as usize)),
            next@ == kept_timers(desired@, ws@, g.subrange(0, i as int)),
            stopped == i - next@.len(),
        decreases n - i,
    {
        let ghost pre = g.subrange(0, i as int);
        let ghost nxt = g.subrange(0, i + 1);
        assert(nxt.drop_last() =~= pre);
        assert(nxt.last() == g[i as int]);
        proof {
            lemma_kept_len(desired@, ws@, pre);
        }
        let e = rest.remove(0);
        assert(rest@ =~= g.subrange(i + 1, n as int));
        if vec_contains(&plan.stop, i) {
            stopped = stopped + 1;
        } else {
            next.push(e);
        }
        i = i + 1;
    }
    assert(g.subrange(0, n as int) =~= g);
    let kept_len = next.len();
    let ghost kept = next@;
    let mut started: u64 = 0;
    let m = desired.len();
    let mut j: usize = 0;
    while j < m
        invariant
            m == desired@.len(),
            j <= m,
            kept == kept_timers(desired@, ws@, g),
            kept_len == kept.len(),
            kept_len <= n,
            forall|d: int| #![trigger desired@[d]] 0 <= d < desired@.len() ==> (plan.start@.contains(d as usize) <==> !survives(desired@, ws@, g, g.len() as int, key_view(desired@[d].0))),
            next@.len() == kept_len + started_timers(desired@, ws@, g, desired@.subrange(0, j as int)).len(),
            started == started_timers(desired@, ws@, g, desired@.subrange(0, j as int)).len(),
            forall|k: int| 0 <= k < kept_len ==> #[trigger] next@[k] == kept[k],
            forall|k: int| 0 <= k < started ==> #[trigger] timer_view(next@[kept_len + k]) == timer_view(
                started_timers(desired@, ws@, g, desired@.subrange(0, j as int))[k],
            ),
        decreases m - j,
    {
        let ghost pre = desired@.subrange(0, j as int);
        let ghost nxt = desired@.subrange(0, j + 1);
        assert(nxt.drop_last() =~= pre);
        assert(nxt.last() == desired@[j as int]);
        proof {
            lemma_started_len(desired@, ws@, g, pre);
        }
        if vec_contains(&plan.start, j) {
            let k = copy_key(&desired[j].0);
            next.push((k, desired[j].1));
            started = started + 1;
        }
        j = j + 1;
    }
    assert(desired@.subrange(0, m as int) =~= desired@);
    proof {
        lemma_kept_len(desired@, ws@, g);
    }
    (next, TimerReconcilePass { started, stopped })
}

/// The kept timers are exactly the live timers that are not stale.
pub proof fn lemma_kept_members(desired: Seq<(TimerKey, u64)>, ws: Seq<char>, live: Seq<(TimerKey, u64)>)
    ensures
        forall|k: int| 0 <= k < kept_timers(desired, ws, live).len() ==> !stale(desired, ws, #[trigger] kept_timers(desired, ws, live)[k])
            && exists|i: int| 0 <= i < live.len() && live[i] == kept_timers(desired, ws, live)[k],
        forall|i: int| 0 <= i < live.len() && !stale(desired, ws, #[trigger] live[i]) ==> exists|k: int|
            0 <= k < kept_timers(desired, ws, live).len() && kept_timers(desired, ws, live)[k] == live[i],
    decreases live.len(),
{
    if live.len() > 0 {
        let t = live.drop_last();
        lemma_kept_members(desired, ws, t);
        let kt = kept_timers(desired, ws, t);
        let kl = kept_timers(desired, ws, live);
        assert forall|k: int| 0 <= k < kl.len() implies !stale(desired, ws, #[trigger] kl[k]) && exists|i: int|
            0 <= i < live.len() && live[i] == kl[k] by {
            if k < kt.len() {
                assert(kl[k] == kt[k]);
                let i = choose|i: int| 0 <= i < t.len() && t[i] == kt[k];
                assert(live[i] == t[i]);
            } else {
                assert(kl[k] == live[live.len() - 1]);
            }
        }
        assert forall|i: int| 0 <= i < live.len() && !stale(desired, ws, #[trigger] live[i]) implies exists|k: int|
            0 <= k < kl.len() && kl[k] == live[i] by {
            if i < t.len() {
                assert(t[i] == live[i]);
                let k = choose|k: int| 0 <= k < kt.len() && kt[k] == t[i];
                assert(kl[k] == kt[k]);
            } else {
                assert(kl[kl.len() - 1] == live[i]);
            }
        }
    }
}

/// With no stale timer, a pass keeps them all.
pub proof fn lemma_kept_all(desired: Seq<(TimerKey, u64)>, ws: Seq<char>, live: Seq<(TimerKey, u64)>)
    requires
        forall|i: int| 0 <= i < live.len() ==> !stale(desired, ws, #[trigger] live[i]),
    ensures
        kept_timers(desired, ws, live) == live,
    decreases live.len(),
{
    if live.len() > 0 {
        let t = live.drop_last();
        assert forall|i: int| 0 <= i < t.len() implies !stale(desired, ws, #[trigger] t[i]) by {
            assert(t[i] == live[i]);
        }
        lemma_kept_all(desired, ws, t);
        assert(!stale(desired, ws, live[live.len() - 1]));
        assert(t.push(live.last()) =~= live);
    }
}

/// The started timers are exactly the wanted ones no surviving live timer covers.
pub proof fn lemma_started_members(desired: Seq<(TimerKey, u64)>, ws: Seq<char>, live: Seq<(TimerKey, u64)>, d: Seq<(TimerKey, u64)>)
    ensures
        forall|k: int| 0 <= k < started_timers(desired, ws, live, d).len() ==> exists|j: int|
            0 <= j < d.len() && d[j] == #[trigger] started_timers(desired, ws, live, d)[k] && !survives(
                desired,
                ws,
                live,
                live.len() as int,
                key_view(d[j].0),
            ),
        forall|j: int| 0 <= j < d.len() && !survives(desired, ws, live, live.len() as int, key_view(#[trigger] d[j].0))
            ==> exists|k: int| 0 <= k < started_timers(desired, ws, live, d).len() && started_timers(desired, ws, live, d)[k] == d[j],
    decreases d.len(),
{
    if d.len() > 0 {
        let t = d.drop_last();
        lemma_started_members(desired, ws, live, t);
        let st = started_timers(desired, ws, live, t);
        let sd = started_timers(desired, ws, live, d);
        assert forall|k: int| 0 <= k < sd.len() implies exists|j: int|
            0 <= j < d.len() && d[j] == #[trigger] sd[k] && !survives(desired, ws, live, live.len() as int, key_view(d[j].0)) by {
            if k < st.len() {
                assert(sd[k] == st[k]);
                let j = choose|j: int|
                    0 <= j < t.len() && t[j] == #[trigger] st[k] && !survives(desired, ws, live, live.len() as int, key_view(t[j].0));
                assert(d[j] == t[j]);
            } else {
                assert(sd[k] == d[d.len() - 1]);
            }
        }
        assert forall|j: int| 0 <= j < d.len() && !survives(desired, ws, live, live.len() as int, key_view(#[trigger] d[j].0))
            implies exists|k: int| 0 <= k < sd.len() && sd[k] == d[j] by {
            if j < t.len() {
                assert(t[j] == d[j]);
                let k = choose|k: int| 0 <= k < st.len() && st[k] == t[j];
                assert(sd[k] == st[k]);
            } else {
                assert(sd[sd.len() - 1] == d[j]);
            }
        }
    }
}

/// When every wanted timer is covered by a surviving live timer, a pass starts none.
pub proof fn lemma_started_none(desired: Seq<(TimerKey, u64)>, ws: Seq<char>, live: Seq<(TimerKey, u64)>, d: Seq<(TimerKey, u64)>)
    requires
        forall|j: int| 0 <= j < d.len() ==> survives(desired, ws, live, live.len() as int, key_view(#[trigger] d[j].0)),
    ensures
        started_timers(desired, ws, live, d).len() == 0,
    decreases d.len(),
{
    if d.len() > 0 {
        let t = d.drop_last();
        assert forall|j: int| 0 <= j < t.len() implies survives(desired, ws, live, live.len() as int, key_view(#[trigger] t[j].0)) by {
            assert(t[j] == d[j]);
        }
        lemma_started_none(desired, ws, live, t);
        assert(survives(desired, ws, live, live.len() as int, key_view(d[d.len() - 1].0)));
    }
}

/// No key is wanted twice.
pub open spec fn distinct_keys(d: Seq<(TimerKey, u64)>) -> bool {
    forall|a: int, b: int| 0 <= a < b < d.len() ==> key_view(d[a].0) != key_view(d[b].0)
}

/// A wanted period names an entry with that key and period.
pub proof fn lemma_wanted_some(d: Seq<(TimerKey, u64)>, k: (Seq<char>, Seq<char>, Seq<char>))
    ensures
        wanted(d, k) matches Some(p) ==> exists|i: int| 0 <= i < d.len() && key_view(#[trigger] d[i].0) == k && d[i].1 == p,
        (forall|i: int| 0 <= i < d.len() ==> key_view(#[trigger] d[i].0) != k) ==> wanted(d, k).is_none(),
    decreases d.len(),
{
    if d.len() > 0 {
        let t = d.drop_first();
        lemma_wanted_some(t, k);
        if key_view(d[0].0) != k {
            if wanted(d, k) is Some {
                let i = choose|i: int| 0 <= i < t.len() && key_view(#[trigger] t[i].0) == k && t[i].1 == wanted(d, k)->0;
                assert(d[i + 1] == t[i]);
            }
            if forall|i: int| 0 <= i < d.len() ==> key_view(#[trigger] d[i].0) != k {
                assert forall|i: int| 0 <= i < t.len() implies key_view(#[trigger] t[i].0) != k by {
                    assert(t[i] == d[i + 1]);
                }
            }
        }
    }
}

/// With distinct keys, an entry's key wants exactly its period.
pub proof fn lemma_wanted_at(d: Seq<(TimerKey, u64)>, j: int)
    requires
        0 <= j < d.len(),
        distinct_keys(d),
    ensures
        wanted(d, key_view(d[j].0)) == Some(d[j].1),
    decreases j,
{
    if j > 0 {
        let t = d.drop_first();
        assert forall|a: int, b: int| 0 <= a < b < t.len() implies key_view(t[a].0) != key_view(t[b].0) by {
            assert(t[a] == d[a + 1]);
            assert(t[b] == d[b + 1]);
        }
        assert(t[j - 1] == d[j]);
        assert(key_view(d[0].0) != key_view(d[j].0));
        lemma_wanted_at(t, j - 1);
    }
}

/// Want `key` at period `p`: replace the entry with that key, or append one.
fn timer_insert(d: &mut Vec<(TimerKey, u64)>, key: TimerKey, p: u64)
    requires
        distinct_keys(old(d)@),
    ensures
        distinct_keys(final(d)@),
        forall|k: (Seq<char>, Seq<char>, Seq<char>)| #[trigger] wanted(final(d)@, k) == if k == key_view(key) {
            Some(p)
        } else {
            wanted(old(d)@, k)
        },
{
    let ghost kk = key_view(key);
    let mut i: usize = 0;
    while i < d.len()
        invariant
            i <= d@.len(),
            d@ == old(d)@,
            kk == key_view(key),
            distinct_keys(old(d)@),
            forall|j: int| 0 <= j < i ==> key_view(#[trigger] d@[j].0) != kk,
        decreases d@.len() - i,
    {
        if key_eq(&d[i].0, &key) {
            let ghost before = d@;
            d.set(i, (key, p));
            proof {
                let after = d@;
                assert forall|a: int, b: int| 0 <= a < b < after.len() implies key_view(after[a].0) != key_view(after[b].0) by {
                    if a != i && b != i {
                        assert(after[a] == before[a] && after[b] == before[b]);
                    } else if a == i {
                        assert(after[b] == before[b]);
                    } else {
                        assert(after[a] == before[a]);
                    }
                }
                assert forall|k: (Seq<char>, Seq<char>, Seq<char>)| #[trigger] wanted(after, k) == if k == kk {
                    Some(p)
                } else {
                    wanted(before, k)
                } by {
                    lemma_wanted_some(before, k);
                    lemma_wanted_some(after, k);
                    if k == kk {
                        lemma_wanted_at(after, i as int);
                    } else if exists|j: int| 0 <= j < before.len() && key_view(#[trigger] before[j].0) == k {
                        let j = choose|j: int| 0 <= j < before.len() && key_view(#[trigger] before[j].0) == k;
                        assert(j != i);
                        assert(after[j] == before[j]);
                        lemma_wanted_at(before, j);
                        lemma_wanted_at(after, j);
                    } else {
                        assert forall|j: int| 0 <= j < after.len() implies key_view(#[trigger] after[j].0) != k by {
                            if j != i {
                                assert(after[j] == before[j]);
                            }
                        }
                    }
                }
            }
            return;
        }
        i = i + 1;
    }
    let ghost before = d@;
    d.push((key, p));
    proof {
        let after = d@;
        assert forall|a: int, b: int| 0 <= a < b < after.len() implies key_view(after[a].0) != key_view(after[b].0) by {
            assert(after[a] == before[a]);
            if b < before.len() {
                assert(after[b] == before[b]);
            }
        }
        assert forall|k: (Seq<char>, Seq<char>, Seq<char>)| #[trigger] wanted(after, k) == if k == kk {
            Some(p)
        } else {
            wanted(before, k)
        } by {
            lemma_wanted_some(before, k);
            lemma_wanted_some(after, k);
            if k == kk {
                lemma_wanted_at(after, before.len() as int);
            } else if exists|j: int| 0 <= j < before.len() && key_view(#[trigger] before[j].0) == k {
                let j = choose|j: int| 0 <= j < before.len() && key_view(#[trigger] before[j].0) == k;
                assert(after[j] == before[j]);
                lemma_wanted_at(before, j);
                lemma_wanted_at(after, j);
            } else {
                assert forall|j: int| 0 <= j < after.len() implies key_view(#[trigger] after[j].0) != k by {
                    if j < before.len() {
                        assert(after[j] == before[j]);
                    }
                }
            }
        }
    }
}

/// One flow as the timer reconciler reads it: its id, whether it is enabled or deleted, and its
/// flip-flop triggers.
pub struct TimerFlow {
    pub id: String,
    pub enabled: bool,
    pub deleted: bool,
    pub triggers: Vec<FlipFlopTrigger>,
}

/// The period a flow's triggers want for key `k` (the last trigger with that key wins).
pub open spec fn trigger_wanted(ws: Seq<char>, flow_id: Seq<char>, trigs: Seq<FlipFlopTrigger>, k: (Seq<char>, Seq<char>, Seq<char>)) -> Option<u64>
    decreases trigs.len(),
{
    if trigs.len() == 0 {
        None
    } else if (ws, flow_id, trigs.last().node_id@) == k {
        Some(trigs.last().period_secs)
    } else {
        trigger_wanted(ws, flow_id, trigs.drop_last(), k)
    }
}

/// The period wanted for key `k` across the workspace's flows: each flip-flop trigger of every
/// enabled, non-deleted flow wants its period under `(ws, flow, node)`; a later one wins.
pub open spec fn flows_wanted(ws: Seq<char>, flows: Seq<TimerFlow>, k: (Seq<char>, Seq<char>, Seq<char>)) -> Option<u64>
    decreases flows.len(),
{
    if flows.len() == 0 {
        None
    } else {
        let f = flows.last();
        let t = if f.enabled && !f.deleted {
            trigger_wanted(ws, f.id@, f.triggers@, k)
        } else {
            None
        };
        match t {
            Some(p) => Some(p),
            None => flows_wanted(ws, flows.drop_last(), k),
        }
    }
}

/// `d` is the wanted timer set of the workspace's flows: each key once, at its wanted period.
pub open spec fn desired_for(ws: Seq<char>, flows: Seq<TimerFlow>, d: Seq<(TimerKey, u64)>) -> bool {
    &&& distinct_keys(d)
    &&& forall|k: (Seq<char>, Seq<char>, Seq<char>)| #[trigger] wanted(d, k) == flows_wanted(ws, flows, k)
}

/// The wanted timer set of workspace `ws` (see [`desired_for`]).
pub fn desired_timers(ws: &str, flows: &Vec<TimerFlow>) -> (d: Vec<(TimerKey, u64)>)
    ensures
        desired_for(ws@, flows@, d@),
{
    let mut d: Vec<(TimerKey, u64)> = Vec::new();
    let mut fi: usize = 0;
    while fi < flows.len()
        invariant
            fi <= flows@.len(),
            distinct_keys(d@),
            forall|k: (Seq<char>, Seq<char>, Seq<char>)| #[trigger] wanted(d@, k) == flows_wanted(ws@, flows@.subrange(0, fi as int), k),
        decreases flows@.len() - fi,
    {
        let f = &flows[fi];
        let live = f.enabled && !f.deleted;
        let ghost pre = flows@.subrange(0, fi as int);
        let ghost nxt = flows@.subrange(0, fi + 1);
        assert(nxt.drop_last() =~= pre);
        assert(nxt.last() == flows@[fi as int]);
        let mut ti: usize = 0;
        while ti < f.triggers.len()
            invariant
                ti <= f.triggers@.len(),
                f == flows@[fi as int],
                live == (f.enabled && !f.deleted),
                distinct_keys(d@),
                forall|k: (Seq<char>, Seq<char>, Seq<char>)| #[trigger] wanted(d@, k) == match (if live {
                    trigger_wanted(ws@, f.id@, f.triggers@.subrange(0, ti as int), k)
                } else {
                    None
                }) {
                    Some(p) => Some(p),
                    None => flows_wanted(ws@, pre, k),
                },
            decreases f.triggers@.len() - ti,
        {
            let ghost tpre = f.triggers@.subrange(0, ti as int);
            let ghost tnxt = f.triggers@.subrange(0, ti + 1);
            assert(tnxt.drop_last() =~= tpre);
            assert(tnxt.last() == f.triggers@[ti as int]);
            if live {
                let t = &f.triggers[ti];
                let key = TimerKey { ws: String::from_str(ws), flow_id: f.id.clone(), node_id: t.node_id.clone() };
                timer_insert(&mut d, key, t.period_secs);
            }
            ti = ti + 1;
        }
        assert(f.triggers@.subrange(0, f.triggers@.len() as int) =~= f.triggers@);
        fi = fi + 1;
    }
    assert(flows@.subrange(0, flows@.len() as int) =~= flows@);
    d
}

/// Converge the live timers of workspace `ws` against its flows: the wanted set is every flip-flop
/// of every enabled, non-deleted flow (see [`desired_timers`]), and one pass stops the stale timers
/// and starts the missing ones (see [`reconcile_timers`]).
pub fn reconcile_interval_timers(ws: &str, flows: &Vec<TimerFlow>, live: Vec<(TimerKey, u64)>) -> (r: (
    Vec<(TimerKey, u64)>,
    TimerReconcilePass,
))
    ensures
        exists|d: Seq<(TimerKey, u64)>| #[trigger] desired_for(ws@, flows@, d) && timer_pass(ws@, d, live@, r.0@, r.1),
{
    let desired = desired_timers(ws, flows);
    let r = reconcile_timers(ws, &desired, live);
    assert(desired_for(ws@, flows@, desired@) && timer_pass(ws@, desired@, live@, r.0@, r.1));
    r
}

} // verus!
