//! `flows.node.update`: replace one node's config in place. The node must exist (never a silent
//! create), its kind must be installed, and the new config must satisfy the kind's schema; the
//! flow's version then bumps, since a config change is a structural edit.
use vstd::prelude::*;

use crate::errors::FlowsError;
use crate::json::{str_eq, Json};
use crate::save_lints::{desc_index, find_desc, NodeDescriptor};
use crate::trigger_store::{lemma_node_index_extend, node_index, FlowNode};

verus! {

/// The position of the first node with id `node_id`.
fn find_node(nodes: &Vec<FlowNode>, node_id: &str) -> (r: Option<usize>)
    ensures
        match r {
            Some(i) => node_index(nodes@, node_id@) == Some(i as int),
            None => node_index(nodes@, node_id@).is_none(),
        },
{
    let mut i: usize = 0;
    while i < nodes.len()
        invariant
            i <= nodes@.len(),
            node_index(nodes@.subrange(0, i as int), node_id@).is_none(),
        decreases nodes@.len() - i,
    {
        let ghost pre = nodes@.subrange(0, i as int);
        let ghost nxt = nodes@.subrange(0, i + 1);
        assert(nxt.drop_last() =~= pre);
        assert(nxt.last() == nodes@[i as int]);
        proof {
            lemma_node_index_extend(nodes@, i as int + 1, node_id@);
        }
        if str_eq(nodes[i].id.as_str(), node_id) {
            return Some(i);
        }
        i = i + 1;
    }
    assert(nodes@.subrange(0, nodes@.len() as int) =~= nodes@);
    None
}

/// A found node is in range and has the id.
proof fn lemma_node_index_range(nodes: Seq<FlowNode>, id: Seq<char>)
    ensures
        node_index(nodes, id) matches Some(i) ==> 0 <= i < nodes.len() && nodes[i].id@ == id,
    decreases nodes.len(),
{
    if nodes.len() > 0 {
        lemma_node_index_range(nodes.drop_last(), id);
    }
}

/// Replace the config of node `node_id` of a flow at `version` with `config`, returning the bumped
/// version (saturating). `schema` is the new config's refusal by the node kind's schema, if any.
/// A missing node is `NotFound`; an uninstalled kind or a schema refusal is `BadInput`; on any
/// refusal the nodes are untouched.
pub fn node_update(
    nodes: &mut Vec<FlowNode>,
    version: u32,
    node_id: &str,
    config: Json,
    registry: &Vec<NodeDescriptor>,
    schema: Option<String>,
) -> (r: Result<u32, FlowsError>)
    ensures
        match node_index(old(nodes)@, node_id@) {
            None => r matches Err(FlowsError::NotFound) && final(nodes)@ == old(nodes)@,
            Some(i) => {
                let t = old(nodes)@[i].node_type@;
                if desc_index(registry@, t).is_none() {
                    r matches Err(FlowsError::BadInput(m)) && m@ == "node `"@ + node_id@ + "`: unknown type `"@ + t
                        + "` (extension not installed in this workspace)"@ && final(nodes)@ == old(nodes)@
                } else if schema.is_some() {
                    r matches Err(FlowsError::BadInput(m)) && m@ == "node `"@ + node_id@ + "` ("@ + t + "): "@
                        + schema.unwrap()@ && final(nodes)@ == old(nodes)@
                } else {
                    &&& r == Ok::<u32, FlowsError>(if version == u32::MAX {
                        u32::MAX
                    } else {
                        (version + 1) as u32
                    })
                    &&& final(nodes)@.len() == old(nodes)@.len()
                    &&& final(nodes)@[i].id == old(nodes)@[i].id
                    &&& final(nodes)@[i].node_type == old(nodes)@[i].node_type
                    &&& final(nodes)@[i].config == config
                    &&& forall|j: int| 0 <= j < old(nodes)@.len() && j != i ==> #[trigger] final(nodes)@[j] == old(nodes)@[j]
                }
            },
        },
{
    let i = match find_node(nodes, node_id) {
        Some(i) => i,
        None => {
            return Err(FlowsError::NotFound);
        },
    };
    proof {
        lemma_node_index_range(nodes@, node_id@);
    }
    if find_desc(registry, nodes[i].node_type.as_str()).is_none() {
        let mut m = String::from_str("node `");
        m.append(node_id);
        m.append("`: unknown type `");
        m.append(nodes[i].node_type.as_str());
        m.append("` (extension not installed in this workspace)");
        return Err(FlowsError::BadInput(m));
    }
    match schema {
        Some(e) => {
            let mut m = String::from_str("node `");
            m.append(node_id);
            m.append("` (");
            m.append(nodes[i].node_type.as_str());
            m.append("): ");
            m.append(e.as_str());
            return Err(FlowsError::BadInput(m));
        },
        None => {},
    }
    let mut n = nodes.remove(i);
    n.config = config;
    nodes.insert(i, n);
    Ok(version.saturating_add(1))
}

} // verus!
