//! The persistent runtime view of a flow: every node's current last value (one record per node,
//! updated in place), each node's retained inputs, and each cron trigger's armed schedule, plus a
//! flow-level summary of the soonest upcoming fire. A node that has never produced a value still
//! appears, with a null value.
use vstd::prelude::*;

use crate::execute_node::lemma_take_other;
use crate::json::{entries_get, entries_insert, entries_insert_exec, entries_take, lookup, str_eq, Json};
use crate::text::{has_prefix, starts_with};
use crate::trigger_store::CronTrigger;

verus! {

/// A cron trigger's armed schedule, shown on its node's entry.
pub struct ArmedCron {
    pub cron: String,
    pub next_attempt_ts: u64,
    pub armed: bool,
}

/// One node's entry in the runtime view.
pub struct NodeView {
    pub node: String,
    pub value: Json,
    /// The optimistic token of the node's value record (bumps on each in-place update).
    pub rev: Json,
    /// The node-level retained input (its `payload`), when one is retained.
    pub input: Option<Json>,
    /// The per-port retained inputs, when any is retained.
    pub inputs: Option<Vec<(String, Json)>>,
    pub cron: Option<ArmedCron>,
}

/// The whole runtime view of a flow.
pub struct NodeStateView {
    pub flow_id: String,
    pub enabled: bool,
    /// The schedule of the soonest-firing cron trigger.
    pub cron: Option<String>,
    /// The soonest upcoming fire across the cron triggers (0: none).
    pub next_attempt_ts: u64,
    pub nodes: Vec<NodeView>,
}

/// The value a stored record holds: its `data` envelope (`null` without one) for an object, else
/// the record itself.
pub open spec fn record_value(data: Json) -> Json {
    match data {
        Json::Object(_) => match data.field("data"@) {
            Some(v) => v,
            None => Json::Null,
        },
        _ => data,
    }
}

/// The optimistic token of a stored record: its `rev` (`null` without one, or for a non-object).
pub open spec fn record_rev(data: Json) -> Json {
    match data {
        Json::Object(_) => match data.field("rev"@) {
            Some(v) => v,
            None => Json::Null,
        },
        _ => Json::Null,
    }
}

/// The `(node, value, rev)` a scanned value row `(row_id, data)` holds for the flow whose rows start
/// with `prefix`.
pub open spec fn row_view(row_id: Seq<char>, data: Json, prefix: Seq<char>) -> Option<(Seq<char>, Json, Json)> {
    if has_prefix(row_id, prefix) {
        Some((row_id.subrange(prefix.len() as int, row_id.len() as int), record_value(data), record_rev(data)))
    } else {
        None
    }
}

/// The value rows' views, in row order.
pub open spec fn row_views(rows: Seq<(String, Json)>, prefix: Seq<char>) -> Seq<(Seq<char>, Json, Json)>
    decreases rows.len(),
{
    if rows.len() == 0 {
        Seq::empty()
    } else {
        let rest = row_views(rows.drop_last(), prefix);
        match row_view(rows.last().0@, rows.last().1, prefix) {
            Some(v) => rest.push(v),
            None => rest,
        }
    }
}

/// The node ids of the view: `ids`, then each of `nodes` not already present, in order.
pub open spec fn with_missing(ids: Seq<Seq<char>>, nodes: Seq<String>) -> Seq<Seq<char>>
    decreases nodes.len(),
{
    if nodes.len() == 0 {
        ids
    } else {
        let acc = with_missing(ids, nodes.drop_last());
        if acc.contains(nodes.last()@) {
            acc
        } else {
            acc.push(nodes.last()@)
        }
    }
}

/// Appending the missing nodes keeps the given ids in front.
pub proof fn lemma_with_missing_prefix(ids: Seq<Seq<char>>, nodes: Seq<String>)
    ensures
        with_missing(ids, nodes).len() >= ids.len(),
        forall|i: int| 0 <= i < ids.len() ==> #[trigger] with_missing(ids, nodes)[i] == ids[i],
    decreases nodes.len(),
{
    if nodes.len() > 0 {
        lemma_with_missing_prefix(ids, nodes.drop_last());
    }
}

/// A fresh entry for `node` with the given value and token and nothing retained or armed.
pub open spec fn fresh_view(v: NodeView, node: Seq<char>, value: Json, rev: Json) -> bool {
    v.node@ == node && v.value == value && v.rev == rev && v.input is None && v.inputs is None && v.cron is None
}

/// The value and token of a scanned value row.
fn value_and_rev(data: Json) -> (r: (Json, Json))
    ensures
        r.0 == record_value(data),
        r.1 == record_rev(data),
{
    match data {
        Json::Object(mut o) => {
            let ghost e = o@;
            let v = entries_take(&mut o, "data");
            proof {
                reveal_strlit("data");
                reveal_strlit("rev");
                assert("data"@.len() != "rev"@.len());
                lemma_take_other(e, "data"@, "rev"@);
            }
            let r = entries_take(&mut o, "rev");
            (
                match v {
                    Some(x) => x,
                    None => Json::Null,
                },
                match r {
                    Some(x) => x,
                    None => Json::Null,
                },
            )
        },
        other => (other, Json::Null),
    }
}

/// Is `node` among the views' nodes?
fn has_view(views: &Vec<NodeView>, node: &str) -> (b: bool)
    ensures
        b == exists|i: int| 0 <= i < views@.len() && (#[trigger] views@[i]).node@ == node@,
{
    let mut i: usize = 0;
    while i < views.len()
        invariant
            i <= views@.len(),
            forall|j: int| 0 <= j < i ==> (#[trigger] views@[j]).node@ != node@,
        decreases views@.len() - i,
    {
        if str_eq(views[i].node.as_str(), node) {
            return true;
        }
        i = i + 1;
    }
    false
}

/// The node entries of the view: one per value row of the flow (rows whose id starts with
/// `prefix`, the node id being the rest), in row order, then one with a null value for each flow
/// node that has no row yet.
pub fn state_views(rows: Vec<(String, Json)>, prefix: &str, flow_nodes: &Vec<String>) -> (r: Vec<NodeView>)
    ensures
        r@.len() == with_missing(row_views(rows@, prefix@).map_values(|v: (Seq<char>, Json, Json)| v.0), flow_nodes@).len(),
        forall|i: int|
            0 <= i < row_views(rows@, prefix@).len() ==> fresh_view(
                #[trigger] r@[i],
                row_views(rows@, prefix@)[i].0,
                row_views(rows@, prefix@)[i].1,
                row_views(rows@, prefix@)[i].2,
            ),
        forall|i: int|
            row_views(rows@, prefix@).len() <= i < r@.len() ==> fresh_view(
                #[trigger] r@[i],
                with_missing(row_views(rows@, prefix@).map_values(|v: (Seq<char>, Json, Json)| v.0), flow_nodes@)[i],
                Json::Null,
                Json::Null,
            ),
{
    let ghost all = rows@;
    assert(all.len() == rows.len());
    let mut rest = rows;
    let mut views: Vec<NodeView> = Vec::new();
    let mut k: usize = 0;
    while rest.len() > 0
        invariant
            all.len() <= usize::MAX,
            k + rest@.len() == all.len(),
            rest@ == all.subrange(k as int, all.len() as int),
            views@.len() == row_views(all.subrange(0, k as int), prefix@).len(),
            forall|i: int|
                0 <= i < views@.len() ==> fresh_view(
                    #[trigger] views@[i],
                    row_views(all.subrange(0, k as int), prefix@)[i].0,
                    row_views(all.subrange(0, k as int), prefix@)[i].1,
                    row_views(all.subrange(0, k as int), prefix@)[i].2,
                ),
        decreases rest@.len(),
    {
        let (id, data) = rest.remove(0);
        assert(rest@ =~= all.subrange(k + 1, all.len() as int));
        let ghost pre = all.subrange(0, k as int);
        let ghost nxt = all.subrange(0, k + 1);
        assert(nxt.drop_last() =~= pre);
        assert(nxt.last() == (id, data));
        if starts_with(id.as_str(), prefix) {
            let n = id.unicode_len();
            let p = prefix.unicode_len();
            let node = String::from_str(id.as_str().substring_char(p, n));
            let (value, rev) = value_and_rev(data);
            views.push(NodeView { node, value, rev, input: None, inputs: None, cron: None });
        }
        k = k + 1;
    }
    assert(all.subrange(0, all.len() as int) =~= all);
    let ghost base = views@;
    let ghost rv = row_views(all, prefix@);
    let ghost ids0 = rv.map_values(|v: (Seq<char>, Json, Json)| v.0);
    assert(base.len() == rv.len());
    let mut j: usize = 0;
    while j < flow_nodes.len()
        invariant
            j <= flow_nodes@.len(),
            base.len() == rv.len(),
            ids0 == rv.map_values(|v: (Seq<char>, Json, Json)| v.0),
            views@.len() == with_missing(ids0, flow_nodes@.subrange(0, j as int)).len(),
            views@.len() >= base.len(),
            forall|i: int| 0 <= i < base.len() ==> #[trigger] views@[i] == base[i],
            forall|i: int|
                0 <= i < views@.len() ==> (#[trigger] views@[i]).node@ == with_missing(ids0, flow_nodes@.subrange(0, j as int))[i],
            forall|i: int|
                base.len() <= i < views@.len() ==> fresh_view(
                    #[trigger] views@[i],
                    with_missing(ids0, flow_nodes@.subrange(0, j as int))[i],
                    Json::Null,
                    Json::Null,
                ),
        decreases flow_nodes@.len() - j,
    {
        let ghost pre = flow_nodes@.subrange(0, j as int);
        let ghost nxt = flow_nodes@.subrange(0, j + 1);
        assert(nxt.drop_last() =~= pre);
        assert(nxt.last() == flow_nodes@[j as int]);
        let ghost acc = with_missing(ids0, pre);
        let present = has_view(&views, flow_nodes[j].as_str());
        proof {
            if present {
                let i = choose|i: int| 0 <= i < views@.len() && (#[trigger] views@[i]).node@ == flow_nodes@[j as int]@;
                assert(acc[i] == flow_nodes@[j as int]@);
                assert(acc.contains(flow_nodes@[j as int]@));
            } else {
                assert forall|i: int| 0 <= i < acc.len() implies acc[i] != flow_nodes@[j as int]@ by {
                    assert(views@[i].node@ == acc[i]);
                }
            }
        }
        if !present {
            views.push(
                NodeView {
                    node: flow_nodes[j].clone(),
                    value: Json::Null,
                    rev: Json::Null,
                    input: None,
                    inputs: None,
                    cron: None,
                },
            );
        }
        j = j + 1;
    }
    assert(flow_nodes@.subrange(0, flow_nodes@.len() as int) =~= flow_nodes@);
    views
}

/// What a scanned retained-input row says for flow `flow`: the node, the port (a string `port`
/// field; none for a node-level input) and the value (`null` when absent).
pub open spec fn input_row(data: Json, flow: Seq<char>) -> Option<(Seq<char>, Option<String>, Json)> {
    let body = record_value(data);
    match body.field("flow"@) {
        Some(Json::Str(f)) => if f@ == flow {
            match body.field("node"@) {
                Some(Json::Str(n)) => Some(
                    (
                        n@,
                        match body.field("port"@) {
                            Some(Json::Str(p)) => Some(p),
                            _ => None,
                        },
                        match body.field("value"@) {
                            Some(v) => v,
                            None => Json::Null,
                        },
                    ),
                ),
                _ => None,
            }
        } else {
            None
        },
        _ => None,
    }
}

/// The node-level values the rows retain for `node`, in row order.
pub open spec fn node_inputs(rows: Seq<Json>, flow: Seq<char>, node: Seq<char>) -> Seq<Json>
    decreases rows.len(),
{
    if rows.len() == 0 {
        Seq::empty()
    } else {
        let rest = node_inputs(rows.drop_last(), flow, node);
        match input_row(rows.last(), flow) {
            Some((n, None, v)) => if n == node {
                rest.push(v)
            } else {
                rest
            },
            _ => rest,
        }
    }
}

/// The per-port `(port, value)` pairs the rows retain for `node`, in row order.
pub open spec fn port_inputs(rows: Seq<Json>, flow: Seq<char>, node: Seq<char>) -> Seq<(String, Json)>
    decreases rows.len(),
{
    if rows.len() == 0 {
        Seq::empty()
    } else {
        let rest = port_inputs(rows.drop_last(), flow, node);
        match input_row(rows.last(), flow) {
            Some((n, Some(p), v)) => if n == node {
                rest.push((p, v))
            } else {
                rest
            },
            _ => rest,
        }
    }
}

/// No entry before `i` is for the same node (the entry a node's updates land on).
pub open spec fn first_of(views: Seq<NodeView>, i: int) -> bool {
    forall|j: int| 0 <= j < i ==> (#[trigger] views[j]).node@ != views[i].node@
}

/// The entries of an optional per-port map.
pub open spec fn opt_entries(o: Option<Vec<(String, Json)>>) -> Seq<(String, Json)> {
    match o {
        Some(m) => m@,
        None => Seq::empty(),
    }
}

/// Entry `v` is entry `b` with the retained inputs of `rows` folded in (`first`: whether `b` is the
/// entry its node's updates land on).
pub open spec fn folded(v: NodeView, b: NodeView, first: bool, rows: Seq<Json>, flow: Seq<char>) -> bool {
    &&& v.node == b.node
    &&& v.value == b.value
    &&& v.rev == b.rev
    &&& v.cron == b.cron
    &&& v.input == if first && node_inputs(rows, flow, b.node@).len() > 0 {
        Some(node_inputs(rows, flow, b.node@).last())
    } else {
        b.input
    }
    &&& if first && port_inputs(rows, flow, b.node@).len() > 0 {
        v.inputs matches Some(m) && m@ == crate::run_store::insert_all(opt_entries(b.inputs), port_inputs(rows, flow, b.node@))
    } else {
        v.inputs == b.inputs
    }
}

/// Classify a retained-input row (see [`input_row`]).
fn read_input_row(data: Json, flow_id: &str) -> (r: Option<(String, Option<String>, Json)>)
    ensures
        match r {
            Some((n, p, v)) => input_row(data, flow_id@) == Some((n@, p, v)),
            None => input_row(data, flow_id@).is_none(),
        },
{
    let ghost g_data = data;
    let body = match data {
        Json::Object(mut o) => match entries_take(&mut o, "data") {
            Some(b) => b,
            None => Json::Null,
        },
        other => other,
    };
    assert(body == record_value(g_data));
    match body {
        Json::Object(mut m) => {
            let same_flow = match entries_get(&m, "flow") {
                Some(Json::Str(f)) => str_eq(f.as_str(), flow_id),
                _ => false,
            };
            if !same_flow {
                return None;
            }
            let node = match entries_get(&m, "node") {
                Some(Json::Str(n)) => n.clone(),
                _ => {
                    return None;
                },
            };
            let port = match entries_get(&m, "port") {
                Some(Json::Str(p)) => Some(p.clone()),
                _ => None,
            };
            let value = match entries_take(&mut m, "value") {
                Some(v) => v,
                None => Json::Null,
            };
            Some((node, port, value))
        },
        _ => None,
    }
}

/// The first entry for `node`.
fn find_view(views: &Vec<NodeView>, node: &str) -> (r: Option<usize>)
    ensures
        match r {
            Some(i) => i < views@.len() && views@[i as int].node@ == node@ && forall|j: int|
                0 <= j < i ==> (#[trigger] views@[j]).node@ != node@,
            None => forall|j: int| 0 <= j < views@.len() ==> (#[trigger] views@[j]).node@ != node@,
        },
{
    let mut i: usize = 0;
    while i < views.len()
        invariant
            i <= views@.len(),
            forall|j: int| 0 <= j < i ==> (#[trigger] views@[j]).node@ != node@,
        decreases views@.len() - i,
    {
        if str_eq(views[i].node.as_str(), node) {
            return Some(i);
        }
        i = i + 1;
    }
    None
}

/// Fold the flow's retained inputs into the entries, in row order: a node-level input sets the
/// first entry of its node's `input`, a per-port one inserts into its `inputs`. Rows of other flows
/// or of nodes without an entry change nothing.
pub fn fold_retained_inputs(views: &mut Vec<NodeView>, rows: Vec<Json>, flow_id: &str)
    ensures
        final(views)@.len() == old(views)@.len(),
        forall|i: int|
            0 <= i < final(views)@.len() ==> folded(
                #[trigger] final(views)@[i],
                old(views)@[i],
                first_of(old(views)@, i),
                rows@,
                flow_id@,
            ),
{
    let ghost base = views@;
    let ghost all = rows@;
    assert(all.len() == rows.len());
    let mut rest = rows;
    let mut k: usize = 0;
    assert forall|i: int| 0 <= i < views@.len() implies folded(
        #[trigger] views@[i],
        base[i],
        first_of(base, i),
        all.subrange(0, 0),
        flow_id@,
    ) by {
        assert(all.subrange(0, 0).len() == 0);
    }
    while rest.len() > 0
        invariant
            all.len() <= usize::MAX,
            k + rest@.len() == all.len(),
            rest@ == all.subrange(k as int, all.len() as int),
            views@.len() == base.len(),
            forall|i: int|
                0 <= i < views@.len() ==> folded(
                    #[trigger] views@[i],
                    base[i],
                    first_of(base, i),
                    all.subrange(0, k as int),
                    flow_id@,
                ),
        decreases rest@.len(),
    {
        let data = rest.remove(0);
        assert(rest@ =~= all.subrange(k + 1, all.len() as int));
        let ghost pre = all.subrange(0, k as int);
        let ghost nxt = all.subrange(0, k + 1);
        assert(nxt.drop_last() =~= pre);
        assert(nxt.last() == data);
        let ghost g_data = data;
        let ghost before = views@;
        match read_input_row(data, flow_id) {
            Some((node, port, value)) => {
                match find_view(views, node.as_str()) {
                    Some(f) => {
                        let mut e = views.remove(f);
                        let ghost ge = e;
                        match port {
                            Some(p) => {
                                let mut m = match e.inputs {
                                    Some(m) => m,
                                    None => Vec::new(),
                                };
                                let ghost m0 = m@;
                                let ghost gp = p;
                                let ghost gv = value;
                                entries_insert_exec(&mut m, p, value);
                                proof {
                                    crate::bindings::lemma_insert_all_push(
                                        opt_entries(base[f as int].inputs),
                                        port_inputs(pre, flow_id@, base[f as int].node@),
                                        (gp, gv),
                                    );
                                }
                                e.inputs = Some(m);
                            },
                            None => {
                                e.input = Some(value);
                            },
                        }
                        views.insert(f, e);
                        proof {
                            assert forall|i: int| 0 <= i < views@.len() implies folded(
                                #[trigger] views@[i],
                                base[i],
                                first_of(base, i),
                                nxt,
                                flow_id@,
                            ) by {
                                if i == f {
                                    assert(first_of(base, i)) by {
                                        assert forall|j: int| 0 <= j < i implies (#[trigger] base[j]).node@ != base[i].node@ by {
                                            assert(before[j].node@ != node@);
                                            assert(folded(before[j], base[j], first_of(base, j), pre, flow_id@));
                                            assert(folded(before[i], base[i], first_of(base, i), pre, flow_id@));
                                        }
                                    }
                                } else {
                                    assert(views@[i] == before[i]);
                                    if base[i].node@ == node@ {
                                        assert(i > f);
                                        assert(!first_of(base, i)) by {
                                            assert(base[f as int].node@ == base[i].node@);
                                        }
                                    }
                                }
                            }
                        }
                    },
                    None => {
                        proof {
                            assert forall|i: int| 0 <= i < views@.len() implies folded(
                                #[trigger] views@[i],
                                base[i],
                                first_of(base, i),
                                nxt,
                                flow_id@,
                            ) by {
                                assert(views@[i].node@ != node@);
                            }
                        }
                    },
                }
            },
            None => {},
        }
        k = k + 1;
    }
    assert(all.subrange(0, all.len() as int) =~= all);
}

/// The soonest upcoming fire of the cron triggers (each with its cursor's next attempt, 0 when it
/// has none) of a flow: none unless the flow is enabled; else the earliest positive next attempt,
/// the first trigger holding it winning, with that trigger's schedule.
pub open spec fn soonest(triggers: Seq<(CronTrigger, u64)>, enabled: bool) -> Option<(u64, Seq<char>)>
    decreases triggers.len(),
{
    if triggers.len() == 0 {
        None
    } else {
        let s = soonest(triggers.drop_last(), enabled);
        let t = triggers.last();
        if enabled && t.1 > 0 && match s {
            None => true,
            Some((ts, _)) => t.1 < ts,
        } {
            Some((t.1, t.0.cron@))
        } else {
            s
        }
    }
}

/// The schedule and next attempt of the last trigger on `node`.
pub open spec fn last_trigger(triggers: Seq<(CronTrigger, u64)>, node: Seq<char>) -> Option<(Seq<char>, u64)>
    decreases triggers.len(),
{
    if triggers.len() == 0 {
        None
    } else if triggers.last().0.node_id@ == node {
        Some((triggers.last().0.cron@, triggers.last().1))
    } else {
        last_trigger(triggers.drop_last(), node)
    }
}

/// Entry `v` is entry `b` with the armed schedule of its node's last trigger (when `b` is the entry
/// its node's updates land on).
pub open spec fn armed_as(v: NodeView, b: NodeView, first: bool, triggers: Seq<(CronTrigger, u64)>, enabled: bool) -> bool {
    &&& v.node == b.node
    &&& v.value == b.value
    &&& v.rev == b.rev
    &&& v.input == b.input
    &&& v.inputs == b.inputs
    &&& match (if first {
        last_trigger(triggers, b.node@)
    } else {
        None
    }) {
        Some((c, ts)) => v.cron matches Some(a) && a.cron@ == c && a.next_attempt_ts == ts && a.armed == enabled,
        None => v.cron == b.cron,
    }
}

/// Attach each cron trigger's armed schedule to its node's entry, and summarize the soonest
/// upcoming fire: its schedule and instant (0 when none).
pub fn attach_crons(views: &mut Vec<NodeView>, triggers: &Vec<(CronTrigger, u64)>, enabled: bool) -> (r: (Option<String>, u64))
    ensures
        final(views)@.len() == old(views)@.len(),
        forall|i: int|
            0 <= i < final(views)@.len() ==> armed_as(
                #[trigger] final(views)@[i],
                old(views)@[i],
                first_of(old(views)@, i),
                triggers@,
                enabled,
            ),
        match soonest(triggers@, enabled) {
            Some((ts, c)) => r.0 matches Some(s) && s@ == c && r.1 == ts,
            None => r.0.is_none() && r.1 == 0,
        },
{
    let ghost base = views@;
    let mut best: Option<u64> = None;
    let mut summary: Option<String> = None;
    let mut k: usize = 0;
    while k < triggers.len()
        invariant
            k <= triggers@.len(),
            views@.len() == base.len(),
            match soonest(triggers@.subrange(0, k as int), enabled) {
                Some((ts, c)) => best == Some(ts) && (summary matches Some(s) && s@ == c),
                None => best.is_none() && summary.is_none(),
            },
            forall|i: int|
                0 <= i < views@.len() ==> armed_as(
                    #[trigger] views@[i],
                    base[i],
                    first_of(base, i),
                    triggers@.subrange(0, k as int),
                    enabled,
                ),
        decreases triggers@.len() - k,
    {
        let ghost pre = triggers@.subrange(0, k as int);
        let ghost nxt = triggers@.subrange(0, k + 1);
        assert(nxt.drop_last() =~= pre);
        assert(nxt.last() == triggers@[k as int]);
        let next_ts = triggers[k].1;
        let sooner = match best {
            None => true,
            Some(s) => next_ts < s,
        };
        if enabled && next_ts > 0 && sooner {
            best = Some(next_ts);
            summary = Some(triggers[k].0.cron.clone());
        }
        let ghost before = views@;
        match find_view(views, triggers[k].0.node_id.as_str()) {
            Some(f) => {
                let mut e = views.remove(f);
                e.cron = Some(ArmedCron { cron: triggers[k].0.cron.clone(), next_attempt_ts: next_ts, armed: enabled });
                views.insert(f, e);
                proof {
                    assert forall|i: int| 0 <= i < views@.len() implies armed_as(
                        #[trigger] views@[i],
                        base[i],
                        first_of(base, i),
                        nxt,
                        enabled,
                    ) by {
                        assert(armed_as(before[i], base[i], first_of(base, i), pre, enabled));
                        if i == f {
                            assert(first_of(base, i)) by {
                                assert forall|j: int| 0 <= j < i implies (#[trigger] base[j]).node@ != base[i].node@ by {
                                    assert(before[j].node@ != triggers@[k as int].0.node_id@);
                                    assert(armed_as(before[j], base[j], first_of(base, j), pre, enabled));
                                }
                            }
                        } else {
                            assert(views@[i] == before[i]);
                            if base[i].node@ == triggers@[k as int].0.node_id@ {
                                assert(i > f);
                                assert(!first_of(base, i)) by {
                                    assert(base[f as int].node@ == base[i].node@);
                                }
                            }
                        }
                    }
                }
            },
            None => {
                proof {
                    assert forall|i: int| 0 <= i < views@.len() implies armed_as(
                        #[trigger] views@[i],
                        base[i],
                        first_of(base, i),
                        nxt,
                        enabled,
                    ) by {
                        assert(armed_as(before[i], base[i], first_of(base, i), pre, enabled));
                        assert(views@[i].node@ != triggers@[k as int].0.node_id@);
                    }
                }
            },
        }
        k = k + 1;
    }
    assert(triggers@.subrange(0, triggers@.len() as int) =~= triggers@);
    let ts = match best {
        Some(s) => s,
        None => 0,
    };
    (summary, ts)
}

/// The node ids of the view: the value rows' nodes, then the flow's nodes without a row.
pub open spec fn view_ids(rows: Seq<(String, Json)>, prefix: Seq<char>, flow_nodes: Seq<String>) -> Seq<Seq<char>> {
    with_missing(row_views(rows, prefix).map_values(|r: (Seq<char>, Json, Json)| r.0), flow_nodes)
}

/// Entry `v` is the view's entry at position `i`: its node and its value and token (from its value
/// row, or null for a node without one), with (when `first`, the entry its node's updates land on)
/// the retained inputs of `input_rows` and the armed schedule of its node's last cron trigger.
pub open spec fn entry_of(
    v: NodeView,
    i: int,
    first: bool,
    rows: Seq<(String, Json)>,
    prefix: Seq<char>,
    flow_nodes: Seq<String>,
    input_rows: Seq<Json>,
    flow: Seq<char>,
    triggers: Seq<(CronTrigger, u64)>,
    enabled: bool,
) -> bool {
    let rv = row_views(rows, prefix);
    let node = view_ids(rows, prefix, flow_nodes)[i];
    &&& v.node@ == node
    &&& if i < rv.len() {
        v.value == rv[i].1 && v.rev == rv[i].2
    } else {
        v.value is Null && v.rev is Null
    }
    &&& v.input == if first && node_inputs(input_rows, flow, node).len() > 0 {
        Some(node_inputs(input_rows, flow, node).last())
    } else {
        None
    }
    &&& if first && port_inputs(input_rows, flow, node).len() > 0 {
        v.inputs matches Some(m) && m@ == crate::run_store::insert_all(Seq::empty(), port_inputs(input_rows, flow, node))
    } else {
        v.inputs is None
    }
    &&& match (if first {
        last_trigger(triggers, node)
    } else {
        None
    }) {
        Some((c, ts)) => v.cron matches Some(a) && a.cron@ == c && a.next_attempt_ts == ts && a.armed == enabled,
        None => v.cron is None,
    }
}

/// The runtime view of flow `flow_id`: the entries of the value rows (ids starting with
/// `state_prefix`) and of the flow's other nodes, with the retained inputs of `input_rows` and the
/// armed cron `triggers` folded in, and the soonest-fire summary.
pub fn node_state(
    flow_id: &str,
    enabled: bool,
    flow_nodes: &Vec<String>,
    state_rows: Vec<(String, Json)>,
    state_prefix: &str,
    input_rows: Vec<Json>,
    triggers: &Vec<(CronTrigger, u64)>,
) -> (v: NodeStateView)
    ensures
        v.flow_id@ == flow_id@,
        v.enabled == enabled,
        match soonest(triggers@, enabled) {
            Some((ts, c)) => v.cron matches Some(s) && s@ == c && v.next_attempt_ts == ts,
            None => v.cron.is_none() && v.next_attempt_ts == 0,
        },
        v.nodes@.len() == view_ids(state_rows@, state_prefix@, flow_nodes@).len(),
        forall|i: int|
            0 <= i < v.nodes@.len() ==> entry_of(
                #[trigger] v.nodes@[i],
                i,
                first_of(v.nodes@, i),
                state_rows@,
                state_prefix@,
                flow_nodes@,
                input_rows@,
                flow_id@,
                triggers@,
                enabled,
            ),
{
    let ghost g_rows = state_rows@;
    let ghost g_inputs = input_rows@;
    let mut nodes = state_views(state_rows, state_prefix, flow_nodes);
    let ghost n0 = nodes@;
    fold_retained_inputs(&mut nodes, input_rows, flow_id);
    let ghost n1 = nodes@;
    let (cron, next) = attach_crons(&mut nodes, triggers, enabled);
    proof {
        assert forall|i: int| 0 <= i < nodes@.len() implies entry_of(
            #[trigger] nodes@[i],
            i,
            first_of(nodes@, i),
            g_rows,
            state_prefix@,
            flow_nodes@,
            g_inputs,
            flow_id@,
            triggers@,
            enabled,
        ) by {
            let rv = row_views(g_rows, state_prefix@);
            let ids0 = rv.map_values(|r: (Seq<char>, Json, Json)| r.0);
            lemma_with_missing_prefix(ids0, flow_nodes@);
            if i < rv.len() {
                assert(fresh_view(n0[i], rv[i].0, rv[i].1, rv[i].2));
                assert(ids0[i] == rv[i].0);
            } else {
                assert(fresh_view(n0[i], view_ids(g_rows, state_prefix@, flow_nodes@)[i], Json::Null, Json::Null));
            }
            assert(folded(n1[i], n0[i], first_of(n0, i), g_inputs, flow_id@));
            assert(armed_as(nodes@[i], n1[i], first_of(n1, i), triggers@, enabled));
            assert(first_of(n0, i) == first_of(nodes@, i)) by {
                assert forall|j: int| 0 <= j < i implies (#[trigger] n0[j]).node@ == nodes@[j].node@ by {
                    assert(folded(n1[j], n0[j], first_of(n0, j), g_inputs, flow_id@));
                    assert(armed_as(nodes@[j], n1[j], first_of(n1, j), triggers@, enabled));
                }
            }
            assert(first_of(n1, i) == first_of(nodes@, i)) by {
                assert forall|j: int| 0 <= j < i implies (#[trigger] n1[j]).node@ == nodes@[j].node@ by {
                    assert(armed_as(nodes@[j], n1[j], first_of(n1, j), triggers@, enabled));
                }
            }
        }
    }
    NodeStateView { flow_id: String::from_str(flow_id), enabled, cron, next_attempt_ts: next, nodes }
}

} // verus!
