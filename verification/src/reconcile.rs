//! The reconciler's plan: which node role owns a flow's placement, and what a pass does with each
//! flow. An owned, enabled flow arms its source nodes, each with its config and its type (and fires
//! its boot triggers when it starts on boot); any other flow disarms them. The pass tallies what
//! it armed, disarmed and fired.
use vstd::prelude::*;

use crate::json::{entries_insert_exec, lookup, Json};
use crate::trigger_store::FlowNode;

verus! {

/// Where a flow may run.
#[derive(Clone, Copy, Debug, PartialEq, Eq, Structural)]
pub enum Placement {
    Either,
    CloudOnly,
    LocalOnly,
}

/// A node's role.
#[derive(Clone, Copy, Debug, PartialEq, Eq, Structural)]
pub enum Role {
    Hub,
    Edge,
    Solo,
}

/// Does a node of `role` own a flow placed `placement`? `either` anywhere; cloud-only on a hub or a
/// solo node; local-only on an edge or a solo node.
pub fn placement_matches(placement: Placement, role: Role) -> (b: bool)
    ensures
        b == match placement {
            Placement::Either => true,
            Placement::CloudOnly => role == Role::Hub || role == Role::Solo,
            Placement::LocalOnly => role == Role::Edge || role == Role::Solo,
        },
{
    match (placement, role) {
        (Placement::Either, _) => true,
        (Placement::CloudOnly, Role::Hub) | (Placement::CloudOnly, Role::Solo) => true,
        (Placement::LocalOnly, Role::Edge) | (Placement::LocalOnly, Role::Solo) => true,
        _ => false,
    }
}

/// One reconcile pass's tally.
#[derive(Clone, Copy, Debug, PartialEq, Eq, Structural)]
pub struct ReconcilePass {
    pub armed: u64,
    pub disarmed: u64,
    pub boot_fired: u64,
    pub orphans_disarmed: u64,
}

impl ReconcilePass {
    /// An empty tally.
    pub fn new() -> (p: Self)
        ensures
            p.armed == 0 && p.disarmed == 0 && p.boot_fired == 0 && p.orphans_disarmed == 0,
    {
        ReconcilePass { armed: 0, disarmed: 0, boot_fired: 0, orphans_disarmed: 0 }
    }
}

/// What the reconciler does with one flow's source nodes: arm them (and fire the boot triggers
/// when asked) for an enabled flow this node owns; disarm them otherwise.
#[derive(Clone, Copy, Debug, PartialEq, Eq, Structural)]
pub enum FlowConvergence {
    Arm { fire_boot: bool },
    Disarm,
}

/// The convergence of one flow.
pub fn converge_flow(enabled: bool, placement: Placement, role: Role, start_on_boot: bool) -> (c: FlowConvergence)
    ensures
        c == if enabled && (match placement {
            Placement::Either => true,
            Placement::CloudOnly => role == Role::Hub || role == Role::Solo,
            Placement::LocalOnly => role == Role::Edge || role == Role::Solo,
        }) {
            FlowConvergence::Arm { fire_boot: start_on_boot }
        } else {
            FlowConvergence::Disarm
        },
{
    if enabled && placement_matches(placement, role) {
        FlowConvergence::Arm { fire_boot: start_on_boot }
    } else {
        FlowConvergence::Disarm
    }
}

/// The run id of a boot firing: `{flow}-boot-{node}`.
pub fn boot_run_id(flow_id: &str, node_id: &str) -> (s: String)
    ensures
        s@ == flow_id@ + "-boot-"@ + node_id@,
{
    crate::text::concat3(flow_id, "-boot-", node_id)
}

/// The nodes not flagged built-in (the flow's potential sources), in order.
pub open spec fn source_nodes(nodes: Seq<FlowNode>, builtin: Seq<bool>) -> Seq<FlowNode>
    decreases nodes.len(),
{
    if nodes.len() == 0 || builtin.len() == 0 {
        Seq::empty()
    } else {
        let rest = source_nodes(nodes.drop_last(), builtin.drop_last());
        if builtin.last() {
            rest
        } else {
            rest.push(nodes.last())
        }
    }
}

/// The ids of the flow's boot triggers, in order.
pub open spec fn boot_ids(nodes: Seq<FlowNode>) -> Seq<Seq<char>> {
    crate::trigger_store::collect(nodes, |n: FlowNode| crate::trigger_store::boot_of(n))
}

/// `c` is the arming config of a node of type `t` whose config is `orig`: an object config with
/// `_type` set to the type (every other key reads as before); any other config as it is.
pub open spec fn stamped(orig: Json, t: Seq<char>, c: Json) -> bool {
    match orig {
        Json::Object(m) => c matches Json::Object(m2) && (lookup(m2@, "_type"@) matches Some(Json::Str(s))
            && s@ == t) && forall|k: Seq<char>| k != "_type"@ ==> #[trigger] lookup(m2@, k) == lookup(m@, k),
        _ => c == orig,
    }
}

/// Stamp a node's type into its config as `_type` (see [`stamped`]).
pub fn stamp_type(config: Json, node_type: String) -> (c: Json)
    ensures
        stamped(config, node_type@, c),
{
    match config {
        Json::Object(mut m) => {
            let ghost m0 = m@;
            let key = String::from_str("_type");
            let ghost gk = key;
            let ghost gv = Json::Str(node_type);
            entries_insert_exec(&mut m, key, Json::Str(node_type));
            proof {
                crate::json::lemma_insert_lookup(m0, gk, gv, "_type"@);
                assert forall|k: Seq<char>| k != "_type"@ implies #[trigger] lookup(m@, k) == lookup(m0, k) by {
                    crate::json::lemma_insert_lookup(m0, gk, gv, k);
                }
            }
            Json::Object(m)
        },
        other => other,
    }
}

/// One flow's share of a reconcile pass: the sources to arm (with their arming configs), the
/// sources to disarm, and the boot firings (run id, entry node).
pub struct FlowReconcilePlan {
    pub arms: Vec<(String, Json)>,
    pub disarms: Vec<String>,
    pub boots: Vec<(String, String)>,
}

/// `p` is the reconcile plan of flow `flow_id` with nodes `nodes` (`builtin[i]` flags node `i`'s
/// kind as built-in) under convergence `c`: an armed flow arms each source node with its stamped
/// config and, when it fires boot, fires each boot trigger as run `{flow}-boot-{node}`; a disarmed
/// flow disarms each source node and fires nothing.
pub open spec fn planned(p: FlowReconcilePlan, flow_id: Seq<char>, nodes: Seq<FlowNode>, builtin: Seq<bool>, c: FlowConvergence) -> bool {
    let src = source_nodes(nodes, builtin);
    let boots = boot_ids(nodes);
    match c {
        FlowConvergence::Arm { fire_boot } => {
            &&& p.disarms@.len() == 0
            &&& p.arms@.len() == src.len()
            &&& forall|a: int| 0 <= a < src.len() ==> (#[trigger] p.arms@[a]).0@ == src[a].id@ && stamped(
                src[a].config,
                src[a].node_type@,
                p.arms@[a].1,
            )
            &&& p.boots@.len() == if fire_boot {
                boots.len()
            } else {
                0
            }
            &&& forall|b: int| 0 <= b < p.boots@.len() ==> (#[trigger] p.boots@[b]).1@ == boots[b] && p.boots@[b].0@
                == flow_id + "-boot-"@ + boots[b]
        },
        FlowConvergence::Disarm => {
            &&& p.arms@.len() == 0
            &&& p.boots@.len() == 0
            &&& p.disarms@.len() == src.len()
            &&& forall|a: int| 0 <= a < src.len() ==> (#[trigger] p.disarms@[a])@ == src[a].id@
        },
    }
}

/// Plan one flow's share of a reconcile pass (see [`planned`]).
pub fn plan_flow(flow_id: &str, nodes: Vec<FlowNode>, builtin: &Vec<bool>, c: FlowConvergence) -> (p: FlowReconcilePlan)
    requires
        builtin@.len() == nodes@.len(),
    ensures
        planned(p, flow_id@, nodes@, builtin@, c),
{
    let ghost g = nodes@;
    let n = nodes.len();
    let mut rest = nodes;
    let mut arms: Vec<(String, Json)> = Vec::new();
    let mut disarms: Vec<String> = Vec::new();
    let mut boots: Vec<(String, String)> = Vec::new();
    let (arm, fire_boot) = match c {
        FlowConvergence::Arm { fire_boot } => (true, fire_boot),
        FlowConvergence::Disarm => (false, false),
    };
    let mut i: usize = 0;
    while i < n
        invariant
            n == g.len(),
            builtin@.len() == n,
            i <= n,
            rest@ == g.subrange(i as int, n as int),
            arm == (c is Arm),
            arm ==> c == (FlowConvergence::Arm { fire_boot }),
            !arm ==> !fire_boot,
            ({
                let src = source_nodes(g.subrange(0, i as int), builtin@.subrange(0, i as int));
                let bt = boot_ids(g.subrange(0, i as int));
                &&& arm ==> disarms@.len() == 0 && arms@.len() == src.len()
                &&& !arm ==> arms@.len() == 0 && disarms@.len() == src.len()
                &&& forall|a: int| 0 <= a < arms@.len() ==> (#[trigger] arms@[a]).0@ == src[a].id@ && stamped(
                    src[a].config,
                    src[a].node_type@,
                    arms@[a].1,
                )
                &&& forall|a: int| 0 <= a < disarms@.len() ==> (#[trigger] disarms@[a])@ == src[a].id@
                &&& boots@.len() == if fire_boot {
                    bt.len()
                } else {
                    0
                }
                &&& forall|b: int| 0 <= b < boots@.len() ==> (#[trigger] boots@[b]).1@ == bt[b] && boots@[b].0@
                    == flow_id@ + "-boot-"@ + bt[b]
            }),
        decreases n - i,
    {
        let ghost pre = g.subrange(0, i as int);
        let ghost nxt = g.subrange(0, i + 1);
        let ghost bpre = builtin@.subrange(0, i as int);
        let ghost bnxt = builtin@.subrange(0, i + 1);
        assert(nxt.drop_last() =~= pre);
        assert(bnxt.drop_last() =~= bpre);
        assert(nxt.last() == g[i as int]);
        assert(bnxt.last() == builtin@[i as int]);
        let node = rest.remove(0);
        assert(rest@ =~= g.subrange(i + 1, n as int));
        let ghost gn = node;
        let boot = crate::json::str_eq(node.node_type.as_str(), "trigger") && match crate::json::get_str(&node.config, "mode") {
            Some(m) => crate::json::str_eq(m, "boot"),
            None => false,
        };
        proof {
            assert(boot == crate::trigger_store::boot_of(gn).is_some());
        }
        if boot && fire_boot {
            boots.push((boot_run_id(flow_id, node.id.as_str()), node.id.clone()));
        }
        if !builtin[i] {
            if arm {
                let FlowNode { id, node_type, config } = node;
                let stamped_config = stamp_type(config, node_type);
                arms.push((id, stamped_config));
            } else {
                disarms.push(node.id);
            }
        }
        i = i + 1;
    }
    assert(g.subrange(0, n as int) =~= g);
    assert(builtin@.subrange(0, n as int) =~= builtin@);
    FlowReconcilePlan { arms, disarms, boots }
}

impl ReconcilePass {
    /// Count one flow's planned actions into the tally: each arm, disarm and boot firing once.
    pub fn count_plan(&mut self, plan: &FlowReconcilePlan)
        requires
            old(self).armed + plan.arms@.len() <= u64::MAX,
            old(self).disarmed + plan.disarms@.len() <= u64::MAX,
            old(self).boot_fired + plan.boots@.len() <= u64::MAX,
        ensures
            final(self).armed == old(self).armed + plan.arms@.len(),
            final(self).disarmed == old(self).disarmed + plan.disarms@.len(),
            final(self).boot_fired == old(self).boot_fired + plan.boots@.len(),
            final(self).orphans_disarmed == old(self).orphans_disarmed,
    {
        self.armed = self.armed + plan.arms.len() as u64;
        self.disarmed = self.disarmed + plan.disarms.len() as u64;
        self.boot_fired = self.boot_fired + plan.boots.len() as u64;
    }
}

} // verus!
