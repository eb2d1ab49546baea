//! The run driver's decisions: a run halts when it was cancelled or suspended (a run whose record is
//! gone counts as cancelled); a pass runs the ready slots until none is left. A flow loads only
//! when every node kind is in the workspace's registry, and each node's descriptor is pinned for
//! the whole drive.
use vstd::prelude::*;

use crate::json::str_eq;
use crate::save_lints::{desc_index, find_desc, NodeDescriptor};
use crate::trigger_store::FlowNode;

verus! {

/// The status a run halts with, given its record's status (`None`: the record is gone).
pub open spec fn halt_of(status: Option<Seq<char>>) -> Option<Seq<char>> {
    match status {
        Some(s) => if s == "cancelled"@ || s == "suspended"@ {
            Some(s)
        } else {
            None
        },
        None => Some("cancelled"@),
    }
}

/// The status a run halts with (see [`halt_of`]).
pub fn control_halt(status: Option<&str>) -> (r: Option<String>)
    ensures
        match status {
            Some(s) => if s@ == "cancelled"@ || s@ == "suspended"@ {
                r matches Some(h) && h@ == s@
            } else {
                r is None
            },
            None => r matches Some(h) && h@ == "cancelled"@,
        },
        match r {
            Some(h) => halt_of(match status {
                Some(s) => Some(s@),
                None => None,
            }) == Some(h@),
            None => halt_of(match status {
                Some(s) => Some(s@),
                None => None,
            }).is_none(),
        },
{
    match status {
        Some(s) => {
            if str_eq(s, "cancelled") || str_eq(s, "suspended") {
                Some(String::from_str(s))
            } else {
                None
            }
        },
        None => Some(String::from_str("cancelled")),
    }
}

/// What one drive pass does.
pub enum DriveAction {
    /// The run halted: announce it finished with this status and stop driving.
    Halt(String),
    /// Nothing is ready: stop driving.
    Idle,
    /// Run the ready slots, then check whether the run finished.
    Execute,
}

/// The drive pass for a run in status `status` (`None`: its record is gone) with `ready` ready
/// slots.
pub fn drive_action(status: Option<&str>, ready: usize) -> (a: DriveAction)
    ensures
        match status {
            Some(s) => !(s@ == "cancelled"@ || s@ == "suspended"@) ==> (if ready > 0 {
                a is Execute
            } else {
                a is Idle
            }),
            None => a is Halt,
        },
        match halt_of(match status {
            Some(s) => Some(s@),
            None => None,
        }) {
            Some(h) => a matches DriveAction::Halt(x) && x@ == h,
            None => if ready == 0 {
                a is Idle
            } else {
                a is Execute
            },
        },
{
    match control_halt(status) {
        Some(h) => DriveAction::Halt(h),
        None => if ready == 0 {
            DriveAction::Idle
        } else {
            DriveAction::Execute
        },
    }
}

/// Load-check a flow: refuse the first node (in order) whose kind the registry lacks.
pub fn validate_known_kinds(nodes: &Vec<FlowNode>, registry: &Vec<NodeDescriptor>) -> (r: Result<(), String>)
    ensures
        match r {
            Ok(()) => forall|i: int| 0 <= i < nodes@.len() ==> desc_index(registry@, (#[trigger] nodes@[i]).node_type@) is Some,
            Err(e) => exists|i: int|
                0 <= i < nodes@.len() && (forall|j: int| 0 <= j < i ==> desc_index(registry@, (#[trigger] nodes@[j]).node_type@) is Some)
                    && desc_index(registry@, (#[trigger] nodes@[i]).node_type@) is None && e@ == "node `"@ + nodes@[i].id@
                    + "`: unknown node kind `"@ + nodes@[i].node_type@
                    + "` — not in this workspace's registry (a removed built-in or an uninstalled extension); re-save the flow"@,
        },
{
    let mut i: usize = 0;
    while i < nodes.len()
        invariant
            i <= nodes@.len(),
            forall|j: int| 0 <= j < i ==> desc_index(registry@, (#[trigger] nodes@[j]).node_type@) is Some,
        decreases nodes@.len() - i,
    {
        let n = &nodes[i];
        if find_desc(registry, n.node_type.as_str()).is_none() {
            let mut e = String::from_str("node `");
            e.append(n.id.as_str());
            e.append("`: unknown node kind `");
            e.append(n.node_type.as_str());
            e.append(
                "` — not in this workspace's registry (a removed built-in or an uninstalled extension); re-save the flow",
            );
            return Err(e);
        }
        i = i + 1;
    }
    Ok(())
}

/// The descriptor pinned for each node whose kind the registry has: `(node id, registry index)`,
/// in node order.
pub fn policy_map(nodes: &Vec<FlowNode>, registry: &Vec<NodeDescriptor>) -> (r: Vec<(String, usize)>)
    ensures
        r@.len() == pinned(nodes@, registry@).len(),
        forall|a: int| 0 <= a < r@.len() ==> (#[trigger] r@[a]).0@ == pinned(nodes@, registry@)[a].0 && r@[a].1
            == pinned(nodes@, registry@)[a].1,
{
    let mut out: Vec<(String, usize)> = Vec::new();
    let mut i: usize = 0;
    while i < nodes.len()
        invariant
            i <= nodes@.len(),
            out@.len() == pinned(nodes@.subrange(0, i as int), registry@).len(),
            forall|a: int| 0 <= a < out@.len() ==> (#[trigger] out@[a]).0@ == pinned(nodes@.subrange(0, i as int), registry@)[a].0
                && out@[a].1 == pinned(nodes@.subrange(0, i as int), registry@)[a].1,
        decreases nodes@.len() - i,
    {
        let ghost pre = nodes@.subrange(0, i as int);
        let ghost nxt = nodes@.subrange(0, i + 1);
        assert(nxt.drop_last() =~= pre);
        assert(nxt.last() == nodes@[i as int]);
        match find_desc(registry, nodes[i].node_type.as_str()) {
            Some(d) => out.push((nodes[i].id.clone(), d)),
            None => {},
        }
        i = i + 1;
    }
    assert(nodes@.subrange(0, nodes@.len() as int) =~= nodes@);
    out
}

/// Each node with a known kind and the index of its first descriptor, in node order.
pub open spec fn pinned(nodes: Seq<FlowNode>, registry: Seq<NodeDescriptor>) -> Seq<(Seq<char>, int)>
    decreases nodes.len(),
{
    if nodes.len() == 0 {
        Seq::empty()
    } else {
        let rest = pinned(nodes.drop_last(), registry);
        match desc_index(registry, nodes.last().node_type@) {
            Some(d) => rest.push((nodes.last().id@, d)),
            None => rest,
        }
    }
}

/// The ids of the flow's extension nodes (the reconciler's potential sources), in order;
/// `builtin[i]` says whether node `i`'s kind is a built-in one.
pub fn source_node_ids(nodes: &Vec<FlowNode>, builtin: &Vec<bool>) -> (r: Vec<String>)
    requires
        builtin@.len() == nodes@.len(),
    ensures
        r@.len() == extension_ids(nodes@, builtin@).len(),
        forall|a: int| 0 <= a < r@.len() ==> (#[trigger] r@[a])@ == extension_ids(nodes@, builtin@)[a],
{
    let mut out: Vec<String> = Vec::new();
    let mut i: usize = 0;
    while i < nodes.len()
        invariant
            i <= nodes@.len(),
            builtin@.len() == nodes@.len(),
            out@.len() == extension_ids(nodes@.subrange(0, i as int), builtin@.subrange(0, i as int)).len(),
            forall|a: int| 0 <= a < out@.len() ==> (#[trigger] out@[a])@ == extension_ids(
                nodes@.subrange(0, i as int),
                builtin@.subrange(0, i as int),
            )[a],
        decreases nodes@.len() - i,
    {
        let ghost pre = nodes@.subrange(0, i as int);
        let ghost nxt = nodes@.subrange(0, i + 1);
        let ghost bpre = builtin@.subrange(0, i as int);
        let ghost bnxt = builtin@.subrange(0, i + 1);
        assert(nxt.drop_last() =~= pre);
        assert(bnxt.drop_last() =~= bpre);
        assert(nxt.last() == nodes@[i as int]);
        assert(bnxt.last() == builtin@[i as int]);
        if !builtin[i] {
            out.push(nodes[i].id.clone());
        }
        i = i + 1;
    }
    assert(nodes@.subrange(0, nodes@.len() as int) =~= nodes@);
    assert(builtin@.subrange(0, builtin@.len() as int) =~= builtin@);
    out
}

/// The ids of the nodes not flagged built-in, in order.
pub open spec fn extension_ids(nodes: Seq<FlowNode>, builtin: Seq<bool>) -> Seq<Seq<char>>
    decreases nodes.len(),
{
    if nodes.len() == 0 || builtin.len() == 0 {
        Seq::empty()
    } else {
        let rest = extension_ids(nodes.drop_last(), builtin.drop_last());
        if builtin.last() {
            rest
        } else {
            rest.push(nodes.last().id@)
        }
    }
}

/// The status a finished drive reports (its record's status, `failed` when the record is gone) and
/// whether its durable job completes as done (only on `success`; otherwise it completes failed).
pub fn completed_status(status: Option<&str>) -> (r: (String, bool))
    ensures
        r.0@ == match status {
            Some(s) => s@,
            None => "failed"@,
        },
        r.1 == (r.0@ == "success"@),
{
    let st = match status {
        Some(s) => String::from_str(s),
        None => String::from_str("failed"),
    };
    let done = str_eq(st.as_str(), "success");
    (st, done)
}

} // verus!
