//! The save-time lints of a flow's nodes against their type descriptors, checked node by node and
//! refusing the first failure: the type must be installed, the config must satisfy the type's
//! schema, every wire into a named port must land on a declared input port, a node with incoming
//! wires must declare an input port, and two or more wires into an explicit `all` (join) port must
//! bind `payload` explicitly.
use vstd::prelude::*;

use crate::errors::FlowsError;
use crate::json::str_eq;
use crate::run_store::JoinPolicy;
use crate::text::{decimal, push_decimal};

verus! {

/// A node type's descriptor as the lints read it: its declared input ports and the join policy of
/// its primary input.
pub struct NodeDescriptor {
    pub node_type: String,
    pub inputs: Vec<String>,
    pub primary_join: JoinPolicy,
}

/// One wire into a node: its upstream and the input port it names (none: the primary input).
pub struct InputEdge {
    pub from: String,
    pub to_port: Option<String>,
}

/// A node as the lints read it.
pub struct LintNode {
    pub id: String,
    pub node_type: String,
    /// The node's upstreams.
    pub needs: Vec<String>,
    pub edges: Vec<InputEdge>,
    /// Whether the node binds `payload` explicitly.
    pub binds_payload: bool,
}

/// The index of the first descriptor of type `t`.
pub open spec fn desc_index(registry: Seq<NodeDescriptor>, t: Seq<char>) -> Option<int>
    decreases registry.len(),
{
    if registry.len() == 0 {
        None
    } else {
        match desc_index(registry.drop_last(), t) {
            Some(i) => Some(i),
            None => if registry.last().node_type@ == t {
                Some(registry.len() - 1)
            } else {
                None
            },
        }
    }
}

/// `parts` joined by `", "`.
pub open spec fn joined(parts: Seq<Seq<char>>) -> Seq<char>
    decreases parts.len(),
{
    if parts.len() == 0 {
        Seq::empty()
    } else if parts.len() == 1 {
        parts[0]
    } else {
        joined(parts.drop_last()) + ", "@ + parts.last()
    }
}

/// The character views of a list of strings.
pub open spec fn str_views(v: Seq<String>) -> Seq<Seq<char>> {
    Seq::new(v.len(), |i: int| v[i]@)
}

/// The first wire (in order) into a port the descriptor does not declare.
pub open spec fn bad_edge(edges: Seq<InputEdge>, declared: Seq<String>) -> Option<int>
    decreases edges.len(),
{
    if edges.len() == 0 {
        None
    } else {
        match bad_edge(edges.drop_last(), declared) {
            Some(i) => Some(i),
            None => match edges.last().to_port {
                Some(p) => if str_views(declared).contains(p@) {
                    None
                } else {
                    Some(edges.len() - 1)
                },
                None => None,
            },
        }
    }
}

/// Wires that name no port are never bad.
pub proof fn lemma_no_port_edges(edges: Seq<InputEdge>, declared: Seq<String>)
    requires
        forall|j: int| 0 <= j < edges.len() ==> (#[trigger] edges[j]).to_port.is_none(),
    ensures
        bad_edge(edges, declared).is_none(),
    decreases edges.len(),
{
    if edges.len() > 0 {
        let t = edges.drop_last();
        assert forall|j: int| 0 <= j < t.len() implies (#[trigger] t[j]).to_port.is_none() by {
            assert(t[j] == edges[j]);
        }
        lemma_no_port_edges(t, declared);
        assert(edges.last().to_port.is_none());
    }
}

/// The lint refusal of node `n` (with its config's schema refusal `schema`), if any.
pub open spec fn node_lint(n: LintNode, registry: Seq<NodeDescriptor>, schema: Option<String>) -> Option<Seq<char>> {
    match desc_index(registry, n.node_type@) {
        None => Some("node `"@ + n.id@ + "`: unknown type `"@ + n.node_type@ + "` (extension not installed in this workspace)"@),
        Some(d) => {
            let desc = registry[d];
            match schema {
                Some(e) => Some("node `"@ + n.id@ + "` ("@ + n.node_type@ + "): "@ + e@),
                None => match bad_edge(n.edges@, desc.inputs@) {
                    Some(j) => Some(
                        "node `"@ + n.id@ + "` ("@ + n.node_type@ + ") wires upstream `"@ + n.edges@[j].from@
                            + "` to undeclared input port `"@ + n.edges@[j].to_port.unwrap()@ + "` (declared: ["@
                            + joined(str_views(desc.inputs@)) + "])"@,
                    ),
                    None => if n.needs@.len() > 0 && desc.inputs@.len() == 0 {
                        Some(
                            "node `"@ + n.id@ + "` ("@ + n.node_type@ + ") has "@ + decimal(n.needs@.len())
                                + " incoming wire(s) but declares no input port"@,
                        )
                    } else if n.needs@.len() >= 2 && desc.primary_join == JoinPolicy::All && !n.binds_payload {
                        Some(
                            "node `"@ + n.id@ + "` ("@ + n.node_type@ + ") has "@ + decimal(n.needs@.len())
                                + " wires into an explicit `all` (join) input port — bind `payload` explicitly"@,
                        )
                    } else {
                        None
                    },
                },
            }
        },
    }
}

/// The first descriptor of type `t`.
pub(crate) fn find_desc(registry: &Vec<NodeDescriptor>, t: &str) -> (r: Option<usize>)
    ensures
        match r {
            Some(i) => desc_index(registry@, t@) == Some(i as int),
            None => desc_index(registry@, t@).is_none(),
        },
{
    let mut i: usize = 0;
    while i < registry.len()
        invariant
            i <= registry@.len(),
            desc_index(registry@.subrange(0, i as int), t@).is_none(),
        decreases registry@.len() - i,
    {
        let ghost pre = registry@.subrange(0, i as int);
        let ghost nxt = registry@.subrange(0, i + 1);
        assert(nxt.drop_last() =~= pre);
        proof {
            lemma_desc_index_extend(registry@, i as int + 1, t@);
        }
        if str_eq(registry[i].node_type.as_str(), t) {
            return Some(i);
        }
        i = i + 1;
    }
    assert(registry@.subrange(0, registry@.len() as int) =~= registry@);
    None
}

/// A descriptor found among the first `k` is found in the whole registry.
proof fn lemma_desc_index_extend(registry: Seq<NodeDescriptor>, k: int, t: Seq<char>)
    requires
        0 <= k <= registry.len(),
    ensures
        desc_index(registry.subrange(0, k), t) matches Some(i) ==> desc_index(registry, t) == Some(i),
    decreases registry.len() - k,
{
    if k < registry.len() {
        let s = registry.subrange(0, k + 1);
        assert(s.drop_last() =~= registry.subrange(0, k));
        lemma_desc_index_extend(registry, k + 1, t);
    } else {
        assert(registry.subrange(0, k) =~= registry);
    }
}

/// A found descriptor is in range and of the type.
proof fn lemma_desc_index_range(registry: Seq<NodeDescriptor>, t: Seq<char>)
    ensures
        desc_index(registry, t) matches Some(i) ==> 0 <= i < registry.len() && registry[i].node_type@ == t,
    decreases registry.len(),
{
    if registry.len() > 0 {
        lemma_desc_index_range(registry.drop_last(), t);
    }
}

/// `parts` joined by `", "`.
fn join_ports(parts: &Vec<String>) -> (s: String)
    ensures
        s@ == joined(str_views(parts@)),
{
    let mut s = String::new();
    let mut i: usize = 0;
    while i < parts.len()
        invariant
            i <= parts@.len(),
            s@ == joined(str_views(parts@.subrange(0, i as int))),
        decreases parts@.len() - i,
    {
        let ghost pre = str_views(parts@.subrange(0, i as int));
        let ghost nxt = str_views(parts@.subrange(0, i + 1));
        assert(nxt.drop_last() =~= pre);
        if i > 0 {
            s.append(", ");
        } else {
            assert(pre.len() == 0);
        }
        s.append(parts[i].as_str());
        i = i + 1;
    }
    assert(parts@.subrange(0, parts@.len() as int) =~= parts@);
    s
}

/// The first wire into an undeclared port.
fn find_bad_edge(edges: &Vec<InputEdge>, declared: &Vec<String>) -> (r: Option<usize>)
    ensures
        match r {
            Some(j) => bad_edge(edges@, declared@) == Some(j as int),
            None => bad_edge(edges@, declared@).is_none(),
        },
{
    let mut j: usize = 0;
    while j < edges.len()
        invariant
            j <= edges@.len(),
            bad_edge(edges@.subrange(0, j as int), declared@).is_none(),
        decreases edges@.len() - j,
    {
        let ghost pre = edges@.subrange(0, j as int);
        let ghost nxt = edges@.subrange(0, j + 1);
        assert(nxt.drop_last() =~= pre);
        assert(nxt.last() == edges@[j as int]);
        proof {
            lemma_bad_edge_extend(edges@, declared@, j as int + 1);
        }
        match &edges[j].to_port {
            Some(p) => {
                let declared_here = crate::text::contains_str(declared, p.as_str());
                proof {
                    if declared_here {
                        let w = choose|w: int| 0 <= w < declared@.len() && declared@[w]@ == p@;
                        assert(str_views(declared@)[w] == p@);
                    } else {
                        assert forall|w: int| 0 <= w < str_views(declared@).len() implies str_views(declared@)[w] != p@ by {
                            assert(str_views(declared@)[w] == declared@[w]@);
                        }
                    }
                }
                if !declared_here {
                    return Some(j);
                }
            },
            None => {},
        }
        j = j + 1;
    }
    assert(edges@.subrange(0, edges@.len() as int) =~= edges@);
    None
}

/// A bad wire found among the first `k` is the first bad wire of all.
proof fn lemma_bad_edge_extend(edges: Seq<InputEdge>, declared: Seq<String>, k: int)
    requires
        0 <= k <= edges.len(),
    ensures
        bad_edge(edges.subrange(0, k), declared) matches Some(i) ==> bad_edge(edges, declared) == Some(i),
    decreases edges.len() - k,
{
    if k < edges.len() {
        let s = edges.subrange(0, k + 1);
        assert(s.drop_last() =~= edges.subrange(0, k));
        lemma_bad_edge_extend(edges, declared, k + 1);
    } else {
        assert(edges.subrange(0, k) =~= edges);
    }
}

/// The lint refusal of one node (see [`node_lint`]).
fn lint_node(n: &LintNode, registry: &Vec<NodeDescriptor>, schema: &Option<String>) -> (r: Option<String>)
    ensures
        match r {
            Some(m) => node_lint(*n, registry@, *schema) == Some(m@),
            None => node_lint(*n, registry@, *schema).is_none(),
        },
{
    let d = match find_desc(registry, n.node_type.as_str()) {
        Some(d) => d,
        None => {
            let mut m = String::from_str("node `");
            m.append(n.id.as_str());
            m.append("`: unknown type `");
            m.append(n.node_type.as_str());
            m.append("` (extension not installed in this workspace)");
            return Some(m);
        },
    };
    proof {
        lemma_desc_index_range(registry@, n.node_type@);
    }
    let desc = &registry[d];
    match schema {
        Some(e) => {
            let mut m = String::from_str("node `");
            m.append(n.id.as_str());
            m.append("` (");
            m.append(n.node_type.as_str());
            m.append("): ");
            m.append(e.as_str());
            return Some(m);
        },
        None => {},
    }
    match find_bad_edge(&n.edges, &desc.inputs) {
        Some(j) => {
            proof {
                lemma_bad_edge_some(n.edges@, desc.inputs@);
            }
            let edge = &n.edges[j];
            let port = match &edge.to_port {
                Some(p) => p.as_str(),
                None => {
                    proof {
                        reveal_strlit("");
                    }
                    ""
                },
            };
            proof {
                lemma_bad_edge_some(n.edges@, desc.inputs@);
            }
            let mut m = String::from_str("node `");
            m.append(n.id.as_str());
            m.append("` (");
            m.append(n.node_type.as_str());
            m.append(") wires upstream `");
            m.append(edge.from.as_str());
            m.append("` to undeclared input port `");
            m.append(port);
            m.append("` (declared: [");
            let list = join_ports(&desc.inputs);
            m.append(list.as_str());
            m.append("])");
            return Some(m);
        },
        None => {},
    }
    let wires = n.needs.len();
    if wires > 0 && desc.inputs.len() == 0 {
        let mut m = String::from_str("node `");
        m.append(n.id.as_str());
        m.append("` (");
        m.append(n.node_type.as_str());
        m.append(") has ");
        push_decimal(&mut m, wires as u64);
        m.append(" incoming wire(s) but declares no input port");
        return Some(m);
    }
    if wires >= 2 && desc.primary_join == JoinPolicy::All && !n.binds_payload {
        let mut m = String::from_str("node `");
        m.append(n.id.as_str());
        m.append("` (");
        m.append(n.node_type.as_str());
        m.append(") has ");
        push_decimal(&mut m, wires as u64);
        m.append(" wires into an explicit `all` (join) input port — bind `payload` explicitly");
        return Some(m);
    }
    None
}

/// The first bad wire names a port.
proof fn lemma_bad_edge_some(edges: Seq<InputEdge>, declared: Seq<String>)
    ensures
        bad_edge(edges, declared) matches Some(j) ==> 0 <= j < edges.len() && edges[j].to_port is Some,
    decreases edges.len(),
{
    if edges.len() > 0 {
        lemma_bad_edge_some(edges.drop_last(), declared);
    }
}

/// Refuse the first node (in order) that fails its lints; `schema[i]` is node `i`'s config refusal
/// by its type's schema, if any.
pub fn validate_node_topology(nodes: &Vec<LintNode>, registry: &Vec<NodeDescriptor>, schema: &Vec<Option<String>>) -> (r: Result<(), FlowsError>)
    requires
        schema@.len() == nodes@.len(),
    ensures
        r is Ok ==> forall|i: int|
            0 <= i < nodes@.len() && (desc_index(registry@, (#[trigger] nodes@[i]).node_type@) matches Some(d)
                && registry@[d].inputs@.len() == 0) ==> nodes@[i].needs@.len() == 0,
        match r {
            Ok(()) => forall|i: int| 0 <= i < nodes@.len() ==> node_lint(#[trigger] nodes@[i], registry@, schema@[i]).is_none(),
            Err(e) => exists|i: int|
                0 <= i < nodes@.len() && (forall|j: int| 0 <= j < i ==> node_lint(#[trigger] nodes@[j], registry@, schema@[j]).is_none())
                    && (#[trigger] node_lint(nodes@[i], registry@, schema@[i]) matches Some(m) && (e matches FlowsError::BadInput(x) && x@ == m)),
        },
{
    let mut i: usize = 0;
    while i < nodes.len()
        invariant
            i <= nodes@.len(),
            schema@.len() == nodes@.len(),
            forall|j: int| 0 <= j < i ==> node_lint(#[trigger] nodes@[j], registry@, schema@[j]).is_none(),
        decreases nodes@.len() - i,
    {
        match lint_node(&nodes[i], registry, &schema[i]) {
            Some(m) => {
                return Err(FlowsError::BadInput(m));
            },
            None => {},
        }
        i = i + 1;
    }
    proof {
        assert forall|i: int|
            0 <= i < nodes@.len() && (desc_index(registry@, (#[trigger] nodes@[i]).node_type@) matches Some(d)
                && registry@[d].inputs@.len() == 0) implies nodes@[i].needs@.len() == 0 by {
            if nodes@[i].needs@.len() > 0 {
                crate::laws::law_wired_node_needs_an_input_port(nodes@[i], registry@, schema@[i]);
            }
        }
    }
    Ok(())
}

} // verus!
