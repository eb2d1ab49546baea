//! The trigger nodes of a flow: each cron, flip-flop and webhook node is an independent trigger with
//! its own cursor, so a flow may hold any number of them. A node whose configuration names nothing
//! to watch arms nothing (it never blocks the flow's other triggers).
use vstd::prelude::*;

use crate::json::{bool_field, get_bool, get_str, get_u64, str_eq, str_field, u64_field, Json};
use crate::react_interval::FlipFlopTrigger;
use crate::run_debug::{is_ws, ws};

verus! {

/// A node of a flow as the trigger scans read it: its id, type and configuration.
pub struct FlowNode {
    pub id: String,
    pub node_type: String,
    pub config: Json,
}

/// One cron trigger node and its schedule text.
pub struct CronTrigger {
    pub node_id: String,
    pub cron: String,
}

/// One webhook source node and the webhook it watches.
pub struct WebhookTrigger {
    pub node_id: String,
    pub webhook_id: String,
}

/// `s` is empty or only whitespace (`str::trim().is_empty()`).
pub open spec fn blank(s: Seq<char>) -> bool {
    forall|i: int| 0 <= i < s.len() ==> is_ws(#[trigger] s[i])
}

/// Is `s` empty or only whitespace?
pub fn is_blank(s: &str) -> (b: bool)
    ensures
        b == blank(s@),
{
    let n = s.unicode_len();
    let mut i: usize = 0;
    while i < n
        invariant
            i <= n,
            n == s@.len(),
            forall|j: int| 0 <= j < i ==> is_ws(#[trigger] s@[j]),
        decreases n - i,
    {
        if !ws(s.get_char(i)) {
            return false;
        }
        i = i + 1;
    }
    true
}

/// The flip-flop trigger of a node, if it is one: period from `period_secs` (default 10, at least
/// 1), first value from `start` (default true).
pub open spec fn flipflop_of(n: FlowNode) -> Option<(Seq<char>, u64, bool)> {
    if n.node_type@ == "flipflop"@ {
        let p = match u64_field(n.config, "period_secs"@) {
            Some(v) => v,
            None => 10u64,
        };
        Some((n.id@, if p < 1 {
            1u64
        } else {
            p
        }, match bool_field(n.config, "start"@) {
            Some(b) => b,
            None => true,
        }))
    } else {
        None
    }
}

/// The cron trigger of a node, if it is a `mode: "cron"` trigger with a non-blank schedule.
pub open spec fn cron_of(n: FlowNode) -> Option<(Seq<char>, Seq<char>)> {
    if n.node_type@ == "trigger"@ && str_field(n.config, "mode"@) == Some("cron"@) {
        match str_field(n.config, "cron"@) {
            Some(c) => if blank(c) {
                None
            } else {
                Some((n.id@, c))
            },
            None => None,
        }
    } else {
        None
    }
}

/// The webhook trigger of a node, if it is a `webhook` node naming a non-blank webhook id.
pub open spec fn webhook_of(n: FlowNode) -> Option<(Seq<char>, Seq<char>)> {
    if n.node_type@ == "webhook"@ {
        match str_field(n.config, "webhook_id"@) {
            Some(w) => if blank(w) {
                None
            } else {
                Some((n.id@, w))
            },
            None => None,
        }
    } else {
        None
    }
}

/// The present results of `f` over `nodes`, in order.
pub open spec fn collect<T>(nodes: Seq<FlowNode>, f: spec_fn(FlowNode) -> Option<T>) -> Seq<T>
    decreases nodes.len(),
{
    if nodes.len() == 0 {
        Seq::empty()
    } else {
        let rest = collect(nodes.drop_last(), f);
        match f(nodes.last()) {
            Some(t) => rest.push(t),
            None => rest,
        }
    }
}

/// Every flip-flop source node, in order (see [`flipflop_of`]).
pub fn flipflop_triggers(nodes: &Vec<FlowNode>) -> (r: Vec<FlipFlopTrigger>)
    ensures
        r@.len() == collect(nodes@, |n: FlowNode| flipflop_of(n)).len(),
        forall|i: int|
            0 <= i < r@.len() ==> ((#[trigger] r@[i]).node_id@, r@[i].period_secs, r@[i].start)
                == collect(nodes@, |n: FlowNode| flipflop_of(n))[i],
{
    let mut out: Vec<FlipFlopTrigger> = Vec::new();
    let mut i: usize = 0;
    while i < nodes.len()
        invariant
            i <= nodes@.len(),
            out@.len() == collect(nodes@.subrange(0, i as int), |n: FlowNode| flipflop_of(n)).len(),
            forall|j: int|
                0 <= j < out@.len() ==> ((#[trigger] out@[j]).node_id@, out@[j].period_secs, out@[j].start)
                    == collect(nodes@.subrange(0, i as int), |n: FlowNode| flipflop_of(n))[j],
        decreases nodes@.len() - i,
    {
        let ghost pre = nodes@.subrange(0, i as int);
        let ghost nxt = nodes@.subrange(0, i + 1);
        assert(nxt.drop_last() =~= pre);
        assert(nxt.last() == nodes@[i as int]);
        let n = &nodes[i];
        if str_eq(n.node_type.as_str(), "flipflop") {
            let p = match get_u64(&n.config, "period_secs") {
                Some(v) => v,
                None => 10,
            };
            let p = if p < 1 {
                1
            } else {
                p
            };
            let start = match get_bool(&n.config, "start") {
                Some(b) => b,
                None => true,
            };
            out.push(FlipFlopTrigger { node_id: n.id.clone(), period_secs: p, start });
        }
        i = i + 1;
    }
    assert(nodes@.subrange(0, nodes@.len() as int) =~= nodes@);
    out
}

/// Every cron trigger node with a non-blank schedule, in order (see [`cron_of`]). Whether the
/// schedule text is a valid five-field spec is the caller's check.
pub fn cron_candidates(nodes: &Vec<FlowNode>) -> (r: Vec<CronTrigger>)
    ensures
        r@.len() == collect(nodes@, |n: FlowNode| cron_of(n)).len(),
        forall|i: int|
            0 <= i < r@.len() ==> ((#[trigger] r@[i]).node_id@, r@[i].cron@) == collect(
                nodes@,
                |n: FlowNode| cron_of(n),
            )[i],
{
    let mut out: Vec<CronTrigger> = Vec::new();
    let mut i: usize = 0;
    while i < nodes.len()
        invariant
            i <= nodes@.len(),
            out@.len() == collect(nodes@.subrange(0, i as int), |n: FlowNode| cron_of(n)).len(),
            forall|j: int|
                0 <= j < out@.len() ==> ((#[trigger] out@[j]).node_id@, out@[j].cron@) == collect(
                    nodes@.subrange(0, i as int),
                    |n: FlowNode| cron_of(n),
                )[j],
        decreases nodes@.len() - i,
    {
        let ghost pre = nodes@.subrange(0, i as int);
        let ghost nxt = nodes@.subrange(0, i + 1);
        assert(nxt.drop_last() =~= pre);
        assert(nxt.last() == nodes@[i as int]);
        let n = &nodes[i];
        let is_cron = str_eq(n.node_type.as_str(), "trigger") && match get_str(&n.config, "mode") {
            Some(m) => str_eq(m, "cron"),
            None => false,
        };
        if is_cron {
            match get_str(&n.config, "cron") {
                Some(c) => {
                    if !is_blank(c) {
                        out.push(CronTrigger { node_id: n.id.clone(), cron: String::from_str(c) });
                    }
                },
                None => {},
            }
        }
        i = i + 1;
    }
    assert(nodes@.subrange(0, nodes@.len() as int) =~= nodes@);
    out
}

/// Every webhook source node naming a non-blank webhook id, in order (see [`webhook_of`]).
pub fn webhook_triggers(nodes: &Vec<FlowNode>) -> (r: Vec<WebhookTrigger>)
    ensures
        r@.len() == collect(nodes@, |n: FlowNode| webhook_of(n)).len(),
        forall|i: int|
            0 <= i < r@.len() ==> ((#[trigger] r@[i]).node_id@, r@[i].webhook_id@) == collect(
                nodes@,
                |n: FlowNode| webhook_of(n),
            )[i],
{
    let mut out: Vec<WebhookTrigger> = Vec::new();
    let mut i: usize = 0;
    while i < nodes.len()
        invariant
            i <= nodes@.len(),
            out@.len() == collect(nodes@.subrange(0, i as int), |n: FlowNode| webhook_of(n)).len(),
            forall|j: int|
                0 <= j < out@.len() ==> ((#[trigger] out@[j]).node_id@, out@[j].webhook_id@) == collect(
                    nodes@.subrange(0, i as int),
                    |n: FlowNode| webhook_of(n),
                )[j],
        decreases nodes@.len() - i,
    {
        let ghost pre = nodes@.subrange(0, i as int);
        let ghost nxt = nodes@.subrange(0, i + 1);
        assert(nxt.drop_last() =~= pre);
        assert(nxt.last() == nodes@[i as int]);
        let n = &nodes[i];
        if str_eq(n.node_type.as_str(), "webhook") {
            match get_str(&n.config, "webhook_id") {
                Some(w) => {
                    if !is_blank(w) {
                        out.push(WebhookTrigger { node_id: n.id.clone(), webhook_id: String::from_str(w) });
                    }
                },
                None => {},
            }
        }
        i = i + 1;
    }
    assert(nodes@.subrange(0, nodes@.len() as int) =~= nodes@);
    out
}

/// The boot trigger of a node, if it is a `mode: "boot"` trigger.
pub open spec fn boot_of(n: FlowNode) -> Option<Seq<char>> {
    if n.node_type@ == "trigger"@ && str_field(n.config, "mode"@) == Some("boot"@) {
        Some(n.id@)
    } else {
        None
    }
}

/// The ids of the boot trigger nodes, in order.
pub fn boot_trigger_ids(nodes: &Vec<FlowNode>) -> (r: Vec<String>)
    ensures
        r@.len() == collect(nodes@, |n: FlowNode| boot_of(n)).len(),
        forall|i: int| 0 <= i < r@.len() ==> (#[trigger] r@[i])@ == collect(nodes@, |n: FlowNode| boot_of(n))[i],
{
    let mut out: Vec<String> = Vec::new();
    let mut i: usize = 0;
    while i < nodes.len()
        invariant
            i <= nodes@.len(),
            out@.len() == collect(nodes@.subrange(0, i as int), |n: FlowNode| boot_of(n)).len(),
            forall|j: int|
                0 <= j < out@.len() ==> (#[trigger] out@[j])@ == collect(nodes@.subrange(0, i as int), |n: FlowNode| boot_of(n))[j],
        decreases nodes@.len() - i,
    {
        let ghost pre = nodes@.subrange(0, i as int);
        let ghost nxt = nodes@.subrange(0, i + 1);
        assert(nxt.drop_last() =~= pre);
        assert(nxt.last() == nodes@[i as int]);
        let n = &nodes[i];
        let is_boot = str_eq(n.node_type.as_str(), "trigger") && match get_str(&n.config, "mode") {
            Some(m) => str_eq(m, "boot"),
            None => false,
        };
        if is_boot {
            out.push(n.id.clone());
        }
        i = i + 1;
    }
    assert(nodes@.subrange(0, nodes@.len() as int) =~= nodes@);
    out
}

/// The first node with id `id`.
pub open spec fn node_index(nodes: Seq<FlowNode>, id: Seq<char>) -> Option<int>
    decreases nodes.len(),
{
    if nodes.len() == 0 {
        None
    } else {
        match node_index(nodes.drop_last(), id) {
            Some(i) => Some(i),
            None => if nodes.last().id@ == id {
                Some(nodes.len() - 1)
            } else {
                None
            },
        }
    }
}

/// An inject into node `n` fires a run: an `inject`-mode trigger (mode default `manual`) whose
/// `inject_mode` is `fire` (the default).
pub open spec fn fires_on_inject(n: FlowNode) -> bool {
    &&& n.node_type@ == "trigger"@
    &&& match str_field(n.config, "mode"@) {
        Some(m) => m == "inject"@,
        None => false,
    }
    &&& match str_field(n.config, "inject_mode"@) {
        Some(m) => m == "fire"@,
        None => true,
    }
}

/// Does an inject into node `node_id` fire a run? Only when the (first) node with that id is a
/// firing trigger (see [`fires_on_inject`]).
pub fn is_firing_trigger(nodes: &Vec<FlowNode>, node_id: &str) -> (b: bool)
    ensures
        b == match node_index(nodes@, node_id@) {
            Some(i) => fires_on_inject(nodes@[i]),
            None => false,
        },
{
    let mut i: usize = 0;
    while i < nodes.len()
        invariant
            i <= nodes@.len(),
            node_index(nodes@.subrange(0, i as int), node_id@).is_none(),
        decreases nodes@.len() - i,
    {
        let ghost pre = nodes@.subrange(0, i as int);
        let ghost nxt = nodes@.subrange(0, i + 1);
        assert(nxt.drop_last() =~= pre);
        assert(nxt.last() == nodes@[i as int]);
        proof {
            lemma_node_index_extend(nodes@, i as int + 1, node_id@);
        }
        let n = &nodes[i];
        if str_eq(n.id.as_str(), node_id) {
            if !str_eq(n.node_type.as_str(), "trigger") {
                return false;
            }
            let fire = match get_str(&n.config, "inject_mode") {
                Some(m) => str_eq(m, "fire"),
                None => true,
            };
            let inject = match get_str(&n.config, "mode") {
                Some(m) => str_eq(m, "inject"),
                None => false,
            };
            return inject && fire;
        }
        i = i + 1;
    }
    assert(nodes@.subrange(0, nodes@.len() as int) =~= nodes@);
    false
}

/// A node found among the first `k` is the first of all with its id.
pub proof fn lemma_node_index_extend(nodes: Seq<FlowNode>, k: int, id: Seq<char>)
    requires
        0 <= k <= nodes.len(),
    ensures
        node_index(nodes.subrange(0, k), id) matches Some(i) ==> node_index(nodes, id) == Some(i),
    decreases nodes.len() - k,
{
    if k < nodes.len() {
        let s = nodes.subrange(0, k + 1);
        assert(s.drop_last() =~= nodes.subrange(0, k));
        lemma_node_index_extend(nodes, k + 1, id);
    } else {
        assert(nodes.subrange(0, k) =~= nodes);
    }
}

/// The run an inject starts: for a firing trigger of an enabled flow, the run
/// `{flow}-inject-{node}-run-{now}` fired from that node; otherwise none (the value is only retained).
pub fn inject_run_id(firing: bool, enabled: bool, flow_id: &str, node_id: &str, now: u64) -> (r: Option<String>)
    ensures
        firing && enabled ==> (r matches Some(s) && s@ == flow_id@ + "-inject-"@ + node_id@ + "-run-"@
            + crate::text::decimal(now as nat)),
        !(firing && enabled) ==> r.is_none(),
{
    if firing && enabled {
        let base = crate::text::concat3(flow_id, "-inject-", node_id);
        Some(crate::ids::default_run_id(base.as_str(), now))
    } else {
        None
    }
}

} // verus!
