//! Save-time checks of a flow: the version bump of an edit, the cron triggers' schedules, and the
//! binding lineage (a `${steps.X}` binding must name the node itself or one of its graph ancestors,
//! or it could never resolve under per-message firing).
use vstd::prelude::*;

use crate::errors::FlowsError;
use crate::json::{get_str, str_eq, Json};
use crate::run_debug::{is_ws, ws};
use crate::text::{contains_str, seq_has};
use crate::trigger_store::FlowNode;

verus! {

/// The version a save writes: one past the stored version when the flow exists (saturating), else
/// the given version, with 0 read as 1.
pub fn next_version(existing: Option<u32>, version: u32) -> (v: u32)
    ensures
        v == match existing {
            Some(e) => if e == u32::MAX {
                u32::MAX
            } else {
                (e + 1) as u32
            },
            None => if version == 0 {
                1
            } else {
                version
            },
        },
{
    match existing {
        Some(e) => e.saturating_add(1),
        None => if version == 0 {
            1
        } else {
            version
        },
    }
}

/// The number of trailing whitespace characters of `s`.
pub open spec fn trailing_ws(s: Seq<char>) -> nat
    decreases s.len(),
{
    if s.len() > 0 && is_ws(s.last()) {
        1 + trailing_ws(s.drop_last())
    } else {
        0
    }
}

/// `str::trim`: without leading and trailing whitespace.
pub open spec fn trim(s: Seq<char>) -> Seq<char> {
    let t = crate::run_debug::trim_start(s);
    t.subrange(0, t.len() - trailing_ws(t))
}

proof fn lemma_trailing_ws(s: Seq<char>)
    ensures
        trailing_ws(s) <= s.len(),
    decreases s.len(),
{
    if s.len() > 0 && is_ws(s.last()) {
        lemma_trailing_ws(s.drop_last());
    }
}

/// `str::trim`.
pub fn trim_str(s: &str) -> (t: &str)
    ensures
        t@ == trim(s@),
{
    let n = s.unicode_len();
    let mut a: usize = 0;
    proof {
        crate::run_debug::lemma_leading_ws_pub(s@);
    }
    while a < n && ws(s.get_char(a))
        invariant
            a <= n,
            n == s@.len(),
            a <= crate::run_debug::leading_ws(s@),
            crate::run_debug::leading_ws(s@) <= n,
            forall|i: int| 0 <= i < crate::run_debug::leading_ws(s@) ==> is_ws(s@[i]),
            crate::run_debug::leading_ws(s@) < n ==> !is_ws(s@[crate::run_debug::leading_ws(s@) as int]),
        decreases n - a,
    {
        a = a + 1;
    }
    let t1 = s.substring_char(a, n);
    let m = t1.unicode_len();
    let mut b = m;
    proof {
        lemma_trailing_ws(t1@);
        assert(t1@.subrange(0, m as int) =~= t1@);
    }
    while b > 0 && ws(t1.get_char(b - 1))
        invariant
            b <= m,
            m == t1@.len(),
            trailing_ws(t1@) == (m - b) + trailing_ws(t1@.subrange(0, b as int)),
        decreases b,
    {
        let ghost sb = t1@.subrange(0, b as int);
        assert(sb.drop_last() =~= t1@.subrange(0, b - 1));
        assert(sb.last() == t1@[b - 1]);
        b = b - 1;
    }
    proof {
        if b > 0 {
            let sb = t1@.subrange(0, b as int);
            assert(sb.last() == t1@[b - 1]);
        }
        assert(trailing_ws(t1@.subrange(0, b as int)) == 0);
        assert(t1@ =~= crate::run_debug::trim_start(s@));
    }
    t1.substring_char(0, b)
}

/// The cron check of one node: `None` when the node is not a cron trigger or its (trimmed)
/// schedule is non-empty and valid; otherwise the refusal naming the node.
pub open spec fn cron_check(n: FlowNode, valid: bool) -> Option<Seq<char>> {
    if n.node_type@ == "trigger"@ && crate::json::str_field(n.config, "mode"@) == Some("cron"@) {
        let spec = trim(match crate::json::str_field(n.config, "cron"@) {
            Some(c) => c,
            None => Seq::empty(),
        });
        if spec.len() == 0 {
            Some("node `"@ + n.id@ + "`: a cron trigger needs a non-empty `config.cron` schedule"@)
        } else if !valid {
            Some("node `"@ + n.id@ + "`: invalid cron schedule `"@ + spec + "` (expected a 5-field spec)"@)
        } else {
            None
        }
    } else {
        None
    }
}

/// The trimmed cron schedule text of a cron trigger node (empty for any other node): what the
/// validity flags below are computed over.
pub fn cron_spec_of(n: &FlowNode) -> (s: &str)
    ensures
        s@ == if n.node_type@ == "trigger"@ && crate::json::str_field(n.config, "mode"@) == Some("cron"@) {
            trim(match crate::json::str_field(n.config, "cron"@) {
                Some(c) => c,
                None => Seq::empty(),
            })
        } else {
            Seq::empty()
        },
{
    let is_cron = str_eq(n.node_type.as_str(), "trigger") && match get_str(&n.config, "mode") {
        Some(m) => str_eq(m, "cron"),
        None => false,
    };
    if !is_cron {
        proof {
            reveal_strlit("");
            assert(""@ =~= Seq::<char>::empty());
        }
        return "";
    }
    let raw = match get_str(&n.config, "cron") {
        Some(c) => c,
        None => {
            proof {
                reveal_strlit("");
                assert(""@ =~= Seq::<char>::empty());
            }
            ""
        },
    };
    trim_str(raw)
}

/// Refuse the first cron trigger (in node order) whose schedule is empty or invalid; `valid[i]` says
/// whether node `i`'s trimmed schedule is a well-formed five-field spec.
pub fn validate_cron_triggers(nodes: &Vec<FlowNode>, valid: &Vec<bool>) -> (r: Result<(), FlowsError>)
    requires
        valid@.len() == nodes@.len(),
    ensures
        match r {
            Ok(()) => forall|i: int| 0 <= i < nodes@.len() ==> cron_check(#[trigger] nodes@[i], valid@[i]).is_none(),
            Err(e) => exists|i: int| 0 <= i < nodes@.len() && (forall|j: int| 0 <= j < i ==> cron_check(#[trigger] nodes@[j], valid@[j]).is_none()) && (#[trigger] cron_check(nodes@[i], valid@[i]) matches Some(m) && (e matches FlowsError::BadInput(x) && x@ == m)),
        },
{
    let mut i: usize = 0;
    while i < nodes.len()
        invariant
            i <= nodes@.len(),
            valid@.len() == nodes@.len(),
            forall|j: int| 0 <= j < i ==> cron_check(#[trigger] nodes@[j], valid@[j]).is_none(),
        decreases nodes@.len() - i,
    {
        let n = &nodes[i];
        let spec = cron_spec_of(n);
        let is_cron = str_eq(n.node_type.as_str(), "trigger") && match get_str(&n.config, "mode") {
            Some(m) => str_eq(m, "cron"),
            None => false,
        };
        if is_cron {
            if spec.unicode_len() == 0 {
                let mut m = String::from_str("node `");
                m.append(n.id.as_str());
                m.append("`: a cron trigger needs a non-empty `config.cron` schedule");
                proof {
                    assert(cron_check(nodes@[i as int], valid@[i as int]) == Some(m@));
                }
                return Err(FlowsError::BadInput(m));
            }
            if !valid[i] {
                let mut m = String::from_str("node `");
                m.append(n.id.as_str());
                m.append("`: invalid cron schedule `");
                m.append(spec);
                m.append("` (expected a 5-field spec)");
                proof {
                    assert(cron_check(nodes@[i as int], valid@[i as int]) == Some(m@));
                }
                return Err(FlowsError::BadInput(m));
            }
        }
        i = i + 1;
    }
    Ok(())
}

/// `n` is reached from `root` through `needs` edges in at most `k + 1` steps (an ancestor).
pub open spec fn upstream_in(graph: Seq<(String, Vec<String>)>, root: Seq<char>, n: Seq<char>, k: nat) -> bool
    decreases k,
{
    crate::run_store::is_dep(graph, root, n) || (k > 0 && exists|m: Seq<char>|
        upstream_in(graph, root, m, (k - 1) as nat) && #[trigger] crate::run_store::is_dep(graph, m, n))
}

/// `n` is a transitive upstream (graph ancestor) of `root`.
pub open spec fn is_ancestor(graph: Seq<(String, Vec<String>)>, root: Seq<char>, n: Seq<char>) -> bool {
    exists|k: nat| upstream_in(graph, root, n, k)
}

/// The nodes reached from `root` through the graph's edges (each entry of `graph` names a node and
/// the nodes its edges lead to): one flag per node of `nodes`, whether that node is reached.
pub fn reach_marks(nodes: &Vec<String>, graph: &Vec<(String, Vec<String>)>, root: &str) -> (marked: Vec<bool>)
    requires
        crate::run_store::deps_keys_unique(graph@),
        crate::run_store::deps_within(graph@, nodes@),
    ensures
        marked@.len() == nodes@.len(),
        forall|i: int| 0 <= i < nodes@.len() ==> (marked@[i] <==> is_ancestor(graph@, root@, #[trigger] nodes@[i]@)),
{
    let n = nodes.len();
    let mut marked: Vec<bool> = Vec::new();
    let mut z: usize = 0;
    while z < n
        invariant
            z <= n,
            n == nodes@.len(),
            marked@.len() == z,
            forall|j: int| 0 <= j < z ==> !marked@[j],
        decreases n - z,
    {
        marked.push(false);
        z = z + 1;
    }
    proof {
        lemma_count_zero_all(marked@);
    }
    let mut changed = true;
    while changed
        invariant
            n == nodes@.len(),
            marked@.len() == n,
            crate::run_store::deps_keys_unique(graph@),
            crate::run_store::deps_within(graph@, nodes@),
            forall|j: int| 0 <= j < n && #[trigger] marked@[j] ==> is_ancestor(graph@, root@, nodes@[j]@),
            !changed ==> forall|j: int| 0 <= j < n && !#[trigger] marked@[j] ==> !joins(nodes@, graph@, root@, marked@, j),
        decreases n - crate::run_store::count_true_pub(marked@), if changed { 1int } else { 0int },
    {
        proof {
            crate::run_store::lemma_count_true_bound_pub(marked@);
        }
        let ghost start_count = crate::run_store::count_true_pub(marked@);
        changed = false;
        let mut i: usize = 0;
        while i < n
            invariant
                n == nodes@.len(),
                marked@.len() == n,
                i <= n,
                crate::run_store::deps_keys_unique(graph@),
                forall|j: int| 0 <= j < n && #[trigger] marked@[j] ==> is_ancestor(graph@, root@, nodes@[j]@),
                changed ==> crate::run_store::count_true_pub(marked@) > start_count,
                !changed ==> crate::run_store::count_true_pub(marked@) == start_count,
                !changed ==> forall|j: int| 0 <= j < i && !#[trigger] marked@[j] ==> !joins(nodes@, graph@, root@, marked@, j),
            decreases n - i,
        {
            if !marked[i] {
                let ni = nodes[i].as_str();
                let mut hit = crate::run_store::is_dep_exec(graph, root, ni);
                let mut j: usize = 0;
                while j < n && !hit
                    invariant
                        j <= n,
                        n == nodes@.len(),
                        marked@.len() == n,
                        i < n,
                        ni@ == nodes@[i as int]@,
                        crate::run_store::deps_keys_unique(graph@),
                        hit ==> joins(nodes@, graph@, root@, marked@, i as int),
                        !hit ==> !crate::run_store::is_dep(graph@, root@, ni@),
                        !hit ==> forall|q: int| 0 <= q < j && marked@[q] ==> !#[trigger] crate::run_store::is_dep(graph@, nodes@[q]@, ni@),
                    decreases n - j,
                {
                    if marked[j] && crate::run_store::is_dep_exec(graph, nodes[j].as_str(), ni) {
                        hit = true;
                    }
                    j = j + 1;
                }
                if hit {
                    proof {
                        let nn = nodes@[i as int]@;
                        if crate::run_store::is_dep(graph@, root@, nn) {
                            assert(upstream_in(graph@, root@, nn, 0));
                        } else {
                            let q = choose|q: int| 0 <= q < n && marked@[q] && #[trigger] crate::run_store::is_dep(graph@, nodes@[q]@, nn);
                            assert(is_ancestor(graph@, root@, nodes@[q]@));
                            let kq = choose|kq: nat| upstream_in(graph@, root@, nodes@[q]@, kq);
                            assert(upstream_in(graph@, root@, nn, kq + 1));
                        }
                        crate::run_store::lemma_count_true_set_pub(marked@, i as int);
                    }
                    marked.set(i, true);
                    changed = true;
                }
            }
            i = i + 1;
        }
        proof {
            crate::run_store::lemma_count_true_bound_pub(marked@);
        }
    }
    proof {
        assert forall|i: int| 0 <= i < nodes@.len() implies (marked@[i] <==> is_ancestor(graph@, root@, #[trigger] nodes@[i]@)) by {
            if is_ancestor(graph@, root@, nodes@[i]@) {
                let k = choose|k: nat| upstream_in(graph@, root@, nodes@[i]@, k);
                lemma_reached_marked(nodes@, graph@, root@, marked@, nodes@[i]@, k);
            }
        }
    }
    marked
}

/// The transitive upstream closure of `node_id` through `needs` (the graph: each node with the
/// nodes it needs). Returns one flag per node of `graph`: whether that node is an ancestor.
pub fn graph_ancestors(graph: &Vec<(String, Vec<String>)>, node_id: &str) -> (marked: Vec<bool>)
    requires
        crate::run_store::deps_keys_unique(graph@),
        crate::run_store::deps_within(graph@, graph@.map_values(|e: (String, Vec<String>)| e.0)),
    ensures
        marked@.len() == graph@.len(),
        forall|i: int| 0 <= i < graph@.len() ==> (marked@[i] <==> is_ancestor(graph@, node_id@, #[trigger] graph@[i].0@)),
{
    let mut keys: Vec<String> = Vec::new();
    let mut i: usize = 0;
    while i < graph.len()
        invariant
            i <= graph@.len(),
            keys@.len() == i,
            forall|j: int| 0 <= j < i ==> (#[trigger] keys@[j])@ == graph@[j].0@,
        decreases graph@.len() - i,
    {
        keys.push(graph[i].0.clone());
        i = i + 1;
    }
    proof {
        let ids = graph@.map_values(|e: (String, Vec<String>)| e.0);
        assert forall|m: Seq<char>, nn: Seq<char>| #[trigger] crate::run_store::is_dep(graph@, m, nn) implies seq_has(keys@, nn) by {
            assert(seq_has(ids, nn));
            let q = choose|q: int| 0 <= q < ids.len() && #[trigger] ids[q]@ == nn;
            assert(keys@[q]@ == nn);
        }
        assert forall|a: int, b: int| 0 <= a < b < keys@.len() implies keys@[a]@ != keys@[b]@ by {
            assert(graph@[a].0@ != graph@[b].0@);
        }
    }
    let marked = reach_marks(&keys, graph, node_id);
    proof {
        assert forall|i: int| 0 <= i < graph@.len() implies (marked@[i] <==> is_ancestor(graph@, node_id@, #[trigger] graph@[i].0@)) by {
            assert(keys@[i]@ == graph@[i].0@);
        }
    }
    marked
}

/// The closure step: node `i` is not yet marked and reached from the root or a marked node.
pub open spec fn joins(nodes: Seq<String>, graph: Seq<(String, Vec<String>)>, root: Seq<char>, marked: Seq<bool>, i: int) -> bool {
    crate::run_store::is_dep(graph, root, nodes[i]@) || exists|j: int|
        0 <= j < nodes.len() && marked[j] && #[trigger] crate::run_store::is_dep(graph, nodes[j]@, nodes[i]@)
}

proof fn lemma_count_zero_all(s: Seq<bool>)
    requires
        forall|j: int| 0 <= j < s.len() ==> !s[j],
    ensures
        crate::run_store::count_true_pub(s) == 0,
    decreases s.len(),
{
    if s.len() > 0 {
        lemma_count_zero_all(s.drop_last());
    }
}

proof fn lemma_reached_marked(
    nodes: Seq<String>,
    graph: Seq<(String, Vec<String>)>,
    root: Seq<char>,
    marked: Seq<bool>,
    n: Seq<char>,
    k: nat,
)
    requires
        marked.len() == nodes.len(),
        crate::run_store::deps_within(graph, nodes),
        upstream_in(graph, root, n, k),
        forall|j: int| 0 <= j < nodes.len() && !#[trigger] marked[j] ==> !joins(nodes, graph, root, marked, j),
    ensures
        forall|q: int| 0 <= q < nodes.len() && #[trigger] nodes[q]@ == n ==> marked[q],
    decreases k,
{
    assert forall|i: int| 0 <= i < nodes.len() && #[trigger] nodes[i]@ == n implies marked[i] by {
        if !marked[i] {
            assert(!joins(nodes, graph, root, marked, i));
            if !crate::run_store::is_dep(graph, root, n) {
                let m0 = choose|m: Seq<char>| upstream_in(graph, root, m, (k - 1) as nat) && #[trigger] crate::run_store::is_dep(graph, m, n);
                lemma_reached_marked(nodes, graph, root, marked, m0, (k - 1) as nat);
                let m1 = if crate::run_store::is_dep(graph, root, m0) {
                    root
                } else {
                    choose|m: Seq<char>| upstream_in(graph, root, m, (k - 2) as nat) && #[trigger] crate::run_store::is_dep(graph, m, m0)
                };
                assert(crate::run_store::is_dep(graph, m1, m0));
                assert(seq_has(nodes, m0));
                let q = choose|q: int| 0 <= q < nodes.len() && #[trigger] nodes[q]@ == m0;
                assert(marked[q]);
                assert(crate::run_store::is_dep(graph, nodes[q]@, nodes[i]@));
            }
        }
    }
}


/// One `${steps.X}` binding of a node: the node, the binding key, and the step it references.
pub struct BindingRef {
    pub node_id: String,
    pub key: String,
    pub target: String,
}

/// A binding is sound when it names its own node or one of its graph ancestors.
pub open spec fn binding_ok(graph: Seq<(String, Vec<String>)>, b: BindingRef) -> bool {
    b.target@ == b.node_id@ || is_ancestor(graph, b.node_id@, b.target@)
}

/// Refuse the first binding (in order) that references neither its own node nor an ancestor: under
/// per-message firing it could never resolve and would silently bind null.
pub fn validate_binding_lineage(graph: &Vec<(String, Vec<String>)>, refs: &Vec<BindingRef>) -> (r: Result<(), FlowsError>)
    requires
        crate::run_store::deps_keys_unique(graph@),
        crate::run_store::deps_within(graph@, graph@.map_values(|e: (String, Vec<String>)| e.0)),
    ensures
        match r {
            Ok(()) => forall|i: int| 0 <= i < refs@.len() ==> binding_ok(graph@, #[trigger] refs@[i]),
            Err(e) => exists|i: int| 0 <= i < refs@.len() && (forall|j: int| 0 <= j < i ==> binding_ok(graph@, #[trigger] refs@[j])) && !binding_ok(graph@, #[trigger] refs@[i]) && (e matches FlowsError::BadInput(m) && m@ == lineage_error(refs@[i])),
        },
{
    let mut i: usize = 0;
    while i < refs.len()
        invariant
            i <= refs@.len(),
            crate::run_store::deps_keys_unique(graph@),
            crate::run_store::deps_within(graph@, graph@.map_values(|e: (String, Vec<String>)| e.0)),
            forall|j: int| 0 <= j < i ==> binding_ok(graph@, #[trigger] refs@[j]),
        decreases refs@.len() - i,
    {
        let b = &refs[i];
        let mut ok = str_eq(b.target.as_str(), b.node_id.as_str());
        if !ok {
            let flags = graph_ancestors(graph, b.node_id.as_str());
            let mut k: usize = 0;
            while k < graph.len() && !ok
                invariant
                    k <= graph@.len(),
                    flags@.len() == graph@.len(),
                    i < refs@.len(),
                    b == refs@[i as int],
                    forall|q: int| 0 <= q < graph@.len() ==> (flags@[q] <==> is_ancestor(graph@, b.node_id@, #[trigger] graph@[q].0@)),
                    ok ==> binding_ok(graph@, *b),
                    !ok ==> b.target@ != b.node_id@ && forall|q: int| 0 <= q < k ==> !(flags@[q] && #[trigger] graph@[q].0@ == b.target@),
                decreases graph@.len() - k,
            {
                if flags[k] && str_eq(graph[k].0.as_str(), b.target.as_str()) {
                    ok = true;
                }
                k = k + 1;
            }
            proof {
                if !ok && is_ancestor(graph@, b.node_id@, b.target@) {
                    let kk = choose|kk: nat| upstream_in(graph@, b.node_id@, b.target@, kk);
                    let m0 = if crate::run_store::is_dep(graph@, b.node_id@, b.target@) {
                        b.node_id@
                    } else {
                        choose|m: Seq<char>| upstream_in(graph@, b.node_id@, m, (kk - 1) as nat) && #[trigger] crate::run_store::is_dep(graph@, m, b.target@)
                    };
                    assert(crate::run_store::is_dep(graph@, m0, b.target@));
                    let ids = graph@.map_values(|e: (String, Vec<String>)| e.0);
                    assert(seq_has(ids, b.target@));
                    let q = choose|q: int| 0 <= q < ids.len() && #[trigger] ids[q]@ == b.target@;
                    assert(graph@[q].0@ == b.target@);
                    assert(flags@[q]);
                }
            }
        }
        if !ok {
            let mut m = String::from_str("node `");
            m.append(b.node_id.as_str());
            m.append("` binds `");
            m.append(b.key.as_str());
            m.append("` to `${steps.");
            m.append(b.target.as_str());
            m.append("}` but `");
            m.append(b.target.as_str());
            m.append("` is not an upstream of `");
            m.append(b.node_id.as_str());
            m.append("` — under per-message firing it can never be in the firing's lineage and would silently bind null (wire it upstream, or reference an actual ancestor)");
            return Err(FlowsError::BadInput(m));
        }
        i = i + 1;
    }
    Ok(())
}

/// The refusal of an unsound binding.
pub open spec fn lineage_error(b: BindingRef) -> Seq<char> {
    "node `"@ + b.node_id@ + "` binds `"@ + b.key@ + "` to `${steps."@ + b.target@ + "}` but `"@ + b.target@ + "` is not an upstream of `"@ + b.node_id@ + "` — under per-message firing it can never be in the firing's lineage and would silently bind null (wire it upstream, or reference an actual ancestor)"@
}

} // verus!
