//! Resolving a firing's incoming message. A `${steps.X}` binding reads X's settle from the firing's
//! lineage: every done-and-succeeded slot whose firing context is an ancestor of this firing's,
//! the nearest (deepest) one winning. An `any` firing auto-wires the envelope of the upstream that
//! triggered it; a barrier or frontier firing with one upstream and no explicit `payload` binding
//! auto-wires that upstream's recorded envelope; any other firing is built from its explicit
//! bindings. Retained inputs then overlay the message (per-port over node-level over wiring), and
//! every field but `payload` carries forward, except at a join of two or more upstreams.
use vstd::prelude::*;

use crate::json::{
    entries_insert, entries_insert_exec, entries_take, key_index, lemma_key_index, lookup, same_json, str_eq, Json,
};
use crate::records::{ClaimState, FlowStepRecord, SlotOutcome};
use crate::run_store::insert_all;
use crate::text::{has_prefix, starts_with};

verus! {

/// A slot whose settle a binding may read: done and succeeded.
pub open spec fn settled_ok(r: FlowStepRecord) -> bool {
    r.claim == ClaimState::Done && r.outcome == SlotOutcome::Succeeded
}

/// The depth of a firing context: its length (the contexts of one lineage are prefixes of each
/// other, so a longer one is a nearer ancestor).
pub open spec fn fctx_depth(f: Seq<char>) -> nat {
    f.len()
}

/// Slot `i` settled ok for node `k` within the firing's lineage (`in_lineage[i]`: its context is an
/// ancestor of the firing's).
pub open spec fn candidate(slots: Seq<FlowStepRecord>, in_lineage: Seq<bool>, i: int, k: Seq<char>) -> bool {
    0 <= i < slots.len() && i < in_lineage.len() && settled_ok(slots[i]) && in_lineage[i] && slots[i].node_id@ == k
}

/// Slot `i` is at least as near as slot `j`: deeper, or as deep and not later.
pub open spec fn at_least_as_near(slots: Seq<FlowStepRecord>, i: int, j: int) -> bool {
    fctx_depth(slots[j].fctx@) < fctx_depth(slots[i].fctx@) || (fctx_depth(slots[j].fctx@) == fctx_depth(
        slots[i].fctx@,
    ) && i <= j)
}

/// Slot `i` is the settle a binding to its node reads: a lineage candidate at least as near as every
/// other candidate of that node.
pub open spec fn nearest(slots: Seq<FlowStepRecord>, in_lineage: Seq<bool>, i: int) -> bool {
    &&& candidate(slots, in_lineage, i, slots[i].node_id@)
    &&& forall|j: int| #[trigger]
        candidate(slots, in_lineage, j, slots[i].node_id@) ==> at_least_as_near(slots, i, j)
}

/// No key occurs twice.
pub open spec fn keys_distinct(e: Seq<(String, Json)>) -> bool {
    forall|a: int, b: int| 0 <= a < b < e.len() ==> e[a].0@ != e[b].0@
}

/// Entry `e` holds the output of the nearest lineage candidate of its node.
pub open spec fn recorded_from(slots: Seq<FlowStepRecord>, in_lineage: Seq<bool>, e: (String, Json)) -> bool {
    exists|i: int| nearest(slots, in_lineage, i) && slots[i].node_id@ == e.0@ && slots[i].output == e.1
}

/// Some entry has key `k`.
pub open spec fn has_key(e: Seq<(String, Json)>, k: Seq<char>) -> bool {
    exists|a: int| 0 <= a < e.len() && e[a].0@ == k
}

/// The position of the entry with key `k`.
fn key_position(entries: &Vec<(String, Json)>, k: &str) -> (r: Option<usize>)
    ensures
        match r {
            Some(a) => a < entries@.len() && entries@[a as int].0@ == k@,
            None => forall|a: int| 0 <= a < entries@.len() ==> entries@[a].0@ != k@,
        },
{
    let mut i: usize = 0;
    while i < entries.len()
        invariant
            i <= entries@.len(),
            forall|a: int| 0 <= a < i ==> entries@[a].0@ != k@,
        decreases entries@.len() - i,
    {
        if str_eq(entries[i].0.as_str(), k) {
            return Some(i);
        }
        i = i + 1;
    }
    None
}

/// The loop state of [`lineage_recorded`] after the slots from `n` on were read: `out` maps each
/// node with a candidate among them to its nearest one (slot `wit[a]`, at depth `depths[a]`).
pub open spec fn lineage_inv(
    s0: Seq<FlowStepRecord>,
    f0: Seq<bool>,
    n: int,
    out: Seq<(String, Json)>,
    depths: Seq<usize>,
    wit: Seq<int>,
) -> bool {
    &&& out.len() == depths.len()
    &&& out.len() == wit.len()
    &&& keys_distinct(out)
    &&& forall|a: int|
        #![trigger out[a]]
        0 <= a < out.len() ==> {
            &&& n <= wit[a] < s0.len()
            &&& candidate(s0, f0, wit[a], out[a].0@)
            &&& out[a].1 == s0[wit[a]].output
            &&& depths[a] == fctx_depth(s0[wit[a]].fctx@)
            &&& forall|j: int| n <= j && #[trigger] candidate(s0, f0, j, out[a].0@) ==> at_least_as_near(s0, wit[a], j)
        }
    &&& forall|j: int| n <= j && #[trigger] candidate(s0, f0, j, s0[j].node_id@) ==> has_key(out, s0[j].node_id@)
}

/// Reading slot `i` when it is no lineage candidate leaves the map as it was.
proof fn lemma_step_skip(s0: Seq<FlowStepRecord>, f0: Seq<bool>, i: int, out: Seq<(String, Json)>, depths: Seq<usize>, wit: Seq<int>)
    requires
        0 <= i < s0.len(),
        f0.len() == s0.len(),
        lineage_inv(s0, f0, i + 1, out, depths, wit),
        !(settled_ok(s0[i]) && f0[i]),
    ensures
        lineage_inv(s0, f0, i, out, depths, wit),
{
    assert forall|x: int| #![trigger out[x]] 0 <= x < out.len() implies forall|j: int|
        i <= j && #[trigger] candidate(s0, f0, j, out[x].0@) ==> at_least_as_near(s0, wit[x], j) by {
        assert forall|j: int| i <= j && #[trigger] candidate(s0, f0, j, out[x].0@) implies at_least_as_near(s0, wit[x], j) by {
            assert(j != i);
        }
    }
    assert forall|j: int| i <= j && #[trigger] candidate(s0, f0, j, s0[j].node_id@) implies has_key(out, s0[j].node_id@) by {
        assert(j != i);
    }
}

/// Reading candidate slot `i` whose node is at `a` with a nearer (or as near, later) settle: keep.
proof fn lemma_step_keep(s0: Seq<FlowStepRecord>, f0: Seq<bool>, i: int, out: Seq<(String, Json)>, depths: Seq<usize>, wit: Seq<int>, a: int)
    requires
        0 <= i < s0.len(),
        f0.len() == s0.len(),
        lineage_inv(s0, f0, i + 1, out, depths, wit),
        settled_ok(s0[i]) && f0[i],
        0 <= a < out.len(),
        out[a].0@ == s0[i].node_id@,
        (fctx_depth(s0[i].fctx@) as int) < depths[a],
    ensures
        lineage_inv(s0, f0, i, out, depths, wit),
{
    assert forall|x: int| #![trigger out[x]] 0 <= x < out.len() implies forall|j: int|
        i <= j && #[trigger] candidate(s0, f0, j, out[x].0@) ==> at_least_as_near(s0, wit[x], j) by {
        assert forall|j: int| i <= j && #[trigger] candidate(s0, f0, j, out[x].0@) implies at_least_as_near(s0, wit[x], j) by {
            if j == i && x != a {
                assert(out[x].0@ != out[a].0@);
            }
        }
    }
    assert forall|j: int| i <= j && #[trigger] candidate(s0, f0, j, s0[j].node_id@) implies has_key(out, s0[j].node_id@) by {
        if j == i {
            assert(out[a].0@ == s0[j].node_id@);
        }
    }
}

/// Reading candidate slot `i` whose node is at `a` with a settle no nearer: slot `i` replaces it.
proof fn lemma_step_replace(
    s0: Seq<FlowStepRecord>,
    f0: Seq<bool>,
    i: int,
    out: Seq<(String, Json)>,
    depths: Seq<usize>,
    wit: Seq<int>,
    a: int,
    e: (String, Json),
    d: usize,
)
    requires
        0 <= i < s0.len(),
        f0.len() == s0.len(),
        lineage_inv(s0, f0, i + 1, out, depths, wit),
        settled_ok(s0[i]) && f0[i],
        0 <= a < out.len(),
        out[a].0@ == s0[i].node_id@,
        e.0@ == s0[i].node_id@,
        e.1 == s0[i].output,
        d == fctx_depth(s0[i].fctx@),
        d >= depths[a],
    ensures
        lineage_inv(s0, f0, i, out.update(a, e), depths.update(a, d), wit.update(a, i)),
{
    let out2 = out.update(a, e);
    let wit2 = wit.update(a, i);
    assert forall|x: int, y: int| 0 <= x < y < out2.len() implies out2[x].0@ != out2[y].0@ by {
        assert(out[x].0@ != out[y].0@);
    }
    assert forall|x: int| #![trigger out2[x]] 0 <= x < out2.len() implies forall|j: int|
        i <= j && #[trigger] candidate(s0, f0, j, out2[x].0@) ==> at_least_as_near(s0, wit2[x], j) by {
        assert forall|j: int| i <= j && #[trigger] candidate(s0, f0, j, out2[x].0@) implies at_least_as_near(s0, wit2[x], j) by {
            if x != a {
                if j == i {
                    assert(out[x].0@ != out[a].0@);
                }
            } else if j > i {
                assert(candidate(s0, f0, j, out[a].0@));
                assert(at_least_as_near(s0, wit[a], j));
            }
        }
    }
    assert forall|j: int| i <= j && #[trigger] candidate(s0, f0, j, s0[j].node_id@) implies has_key(out2, s0[j].node_id@) by {
        if j == i {
            assert(out2[a].0@ == s0[j].node_id@);
        } else {
            let y = choose|y: int| 0 <= y < out.len() && out[y].0@ == s0[j].node_id@;
            if y == a {
                assert(out2[a].0@ == s0[j].node_id@);
            } else {
                assert(out2[y].0@ == s0[j].node_id@);
            }
        }
    }
}

/// Reading candidate slot `i` whose node has no entry yet: it is appended.
proof fn lemma_step_push(
    s0: Seq<FlowStepRecord>,
    f0: Seq<bool>,
    i: int,
    out: Seq<(String, Json)>,
    depths: Seq<usize>,
    wit: Seq<int>,
    e: (String, Json),
    d: usize,
)
    requires
        0 <= i < s0.len(),
        f0.len() == s0.len(),
        lineage_inv(s0, f0, i + 1, out, depths, wit),
        settled_ok(s0[i]) && f0[i],
        forall|a: int| 0 <= a < out.len() ==> out[a].0@ != s0[i].node_id@,
        e.0@ == s0[i].node_id@,
        e.1 == s0[i].output,
        d == fctx_depth(s0[i].fctx@),
    ensures
        lineage_inv(s0, f0, i, out.push(e), depths.push(d), wit.push(i)),
{
    let out2 = out.push(e);
    let wit2 = wit.push(i);
    let n = out.len() as int;
    assert forall|x: int, y: int| 0 <= x < y < out2.len() implies out2[x].0@ != out2[y].0@ by {
        if y == n {
            assert(out[x].0@ != s0[i].node_id@);
        } else {
            assert(out[x].0@ != out[y].0@);
        }
    }
    assert forall|x: int| #![trigger out2[x]] 0 <= x < out2.len() implies forall|j: int|
        i <= j && #[trigger] candidate(s0, f0, j, out2[x].0@) ==> at_least_as_near(s0, wit2[x], j) by {
        assert forall|j: int| i <= j && #[trigger] candidate(s0, f0, j, out2[x].0@) implies at_least_as_near(s0, wit2[x], j) by {
            if x < n {
                if j == i {
                    assert(out[x].0@ != s0[i].node_id@);
                }
            } else if j > i {
                assert(candidate(s0, f0, j, s0[j].node_id@));
                let y = choose|y: int| 0 <= y < out.len() && out[y].0@ == s0[j].node_id@;
                assert(out[y].0@ != s0[i].node_id@);
            }
        }
    }
    assert forall|j: int| i <= j && #[trigger] candidate(s0, f0, j, s0[j].node_id@) implies has_key(out2, s0[j].node_id@) by {
        if j == i {
            assert(out2[n].0@ == s0[j].node_id@);
        } else {
            let y = choose|y: int| 0 <= y < out.len() && out[y].0@ == s0[j].node_id@;
            assert(out2[y].0@ == s0[j].node_id@);
        }
    }
}

/// The `${steps.X}` resolution map of a firing: for each node with a lineage candidate, the output
/// of its nearest one. `in_lineage[i]` says whether slot `i`'s context is an ancestor of the
/// firing's.
pub fn lineage_recorded(slots: Vec<FlowStepRecord>, in_lineage: &Vec<bool>) -> (r: Vec<(String, Json)>)
    requires
        in_lineage@.len() == slots@.len(),
    ensures
        keys_distinct(r@),
        forall|a: int| 0 <= a < r@.len() ==> recorded_from(slots@, in_lineage@, #[trigger] r@[a]),
        forall|i: int| #[trigger] candidate(slots@, in_lineage@, i, slots@[i].node_id@) ==> has_key(r@, slots@[i].node_id@),
{
    let ghost s0 = slots@;
    let ghost f0 = in_lineage@;
    let mut pending = slots;
    let mut out: Vec<(String, Json)> = Vec::new();
    let mut depths: Vec<usize> = Vec::new();
    let ghost mut wit: Seq<int> = Seq::empty();
    while pending.len() > 0
        invariant
            f0 == in_lineage@,
            f0.len() == s0.len(),
            pending@.len() <= s0.len(),
            pending@ == s0.subrange(0, pending@.len() as int),
            lineage_inv(s0, f0, pending@.len() as int, out@, depths@, wit),
        decreases pending@.len(),
    {
        let rec = pending.pop().unwrap();
        let i = pending.len();
        assert(rec == s0[i as int]);
        assert(pending@ =~= s0.subrange(0, i as int));
        let ok = rec.claim == ClaimState::Done && rec.outcome == SlotOutcome::Succeeded && in_lineage[i];
        if ok {
            let d = rec.fctx.as_str().unicode_len();
            let FlowStepRecord { node_id, output, .. } = rec;
            match key_position(&out, node_id.as_str()) {
                Some(a) => {
                    if d >= depths[a] {
                        proof {
                            lemma_step_replace(s0, f0, i as int, out@, depths@, wit, a as int, (node_id, output), d);
                            wit = wit.update(a as int, i as int);
                        }
                        out.set(a, (node_id, output));
                        depths.set(a, d);
                    } else {
                        proof {
                            lemma_step_keep(s0, f0, i as int, out@, depths@, wit, a as int);
                        }
                    }
                },
                None => {
                    proof {
                        lemma_step_push(s0, f0, i as int, out@, depths@, wit, (node_id, output), d);
                        wit = wit.push(i as int);
                    }
                    out.push((node_id, output));
                    depths.push(d);
                },
            }
        } else {
            proof {
                lemma_step_skip(s0, f0, i as int, out@, depths@, wit);
            }
        }
    }
    proof {
        assert forall|a: int| 0 <= a < out@.len() implies recorded_from(slots@, in_lineage@, #[trigger] out@[a]) by {
            let w = wit[a];
            assert(candidate(s0, f0, w, out@[a].0@));
            assert forall|j: int| #[trigger] candidate(s0, f0, j, s0[w].node_id@) implies at_least_as_near(s0, w, j) by {
                assert(candidate(s0, f0, j, out@[a].0@));
            }
            assert(nearest(s0, f0, w));
        }
        assert forall|i: int| #[trigger] candidate(slots@, in_lineage@, i, slots@[i].node_id@) implies has_key(out@, slots@[i].node_id@) by {
            assert(candidate(s0, f0, i, s0[i].node_id@));
        }
    }
    out
}

/// The settled envelope of a triggering upstream's slot: its output when done and succeeded, else
/// `null`.
pub fn settled_envelope(rec: Option<FlowStepRecord>) -> (e: Json)
    ensures
        e == match rec {
            Some(r) => if settled_ok(r) {
                r.output
            } else {
                Json::Null
            },
            None => Json::Null,
        },
{
    match rec {
        Some(r) => {
            if r.claim == ClaimState::Done && r.outcome == SlotOutcome::Succeeded {
                r.output
            } else {
                Json::Null
            }
        },
        None => Json::Null,
    }
}

/// The message an envelope wires in: an object's own entries; any other value as its `payload`.
pub fn message_of(envelope: Json) -> (m: Vec<(String, Json)>)
    ensures
        match envelope {
            Json::Object(o) => m@ == o@,
            _ => m@.len() == 1 && m@[0].0@ == "payload"@ && m@[0].1 == envelope,
        },
{
    match envelope {
        Json::Object(o) => o,
        other => {
            let mut m: Vec<(String, Json)> = Vec::new();
            m.push((String::from_str("payload"), other));
            m
        },
    }
}

/// How a firing's incoming message is wired.
pub enum Wiring {
    /// An `any` firing: the envelope of the upstream that triggered it.
    Triggered(String),
    /// One upstream and no explicit `payload` binding: that upstream's recorded envelope.
    SingleUpstream(String),
    /// Only the explicit bindings; `join` when the node has two or more upstreams.
    Explicit { join: bool },
}

/// The wiring of a firing of a node with upstreams `needs` and explicit bindings `with`.
pub fn wiring(triggered_by: Option<&str>, needs: &Vec<String>, with: &Vec<(String, Json)>) -> (w: Wiring)
    ensures
        match triggered_by {
            Some(up) => w matches Wiring::Triggered(u) && u@ == up@,
            None => if needs@.len() == 1 && lookup(with@, "payload"@).is_none() {
                w matches Wiring::SingleUpstream(u) && u@ == needs@[0]@
            } else {
                w matches Wiring::Explicit { join } && join == (needs@.len() >= 2)
            },
        },
{
    match triggered_by {
        Some(up) => Wiring::Triggered(String::from_str(up)),
        None => {
            let binds_payload = crate::json::entries_get(with, "payload").is_some();
            if needs.len() == 1 && !binds_payload {
                Wiring::SingleUpstream(needs[0].clone())
            } else {
                Wiring::Explicit { join: needs.len() >= 2 }
            }
        },
    }
}

/// The recorded envelope of upstream `up` (a copy), or `null` when it has none.
pub fn recorded_envelope(recorded: &Vec<(String, Json)>, up: &str) -> (e: Json)
    ensures
        match lookup(recorded@, up@) {
            Some(v) => same_json(v, e),
            None => e is Null,
        },
{
    match crate::json::entries_get(recorded, up) {
        Some(v) => v.duplicate(),
        None => Json::Null,
    }
}

/// A copy of an object's entries.
pub fn copy_entries(entries: &Vec<(String, Json)>) -> (c: Vec<(String, Json)>)
    ensures
        same_json(Json::Object(*entries), Json::Object(c)),
{
    let mut c: Vec<(String, Json)> = Vec::new();
    let mut i: usize = 0;
    while i < entries.len()
        invariant
            i <= entries@.len(),
            c@.len() == i,
            forall|k: int| 0 <= k < i ==> (#[trigger] entries@[k]).0@ == c@[k].0@ && same_json(entries@[k].1, c@[k].1),
        decreases entries@.len() - i,
    {
        c.push((entries[i].0.clone(), entries[i].1.duplicate()));
        i = i + 1;
    }
    c
}

/// Record the triggering upstream `up` as having settled the message `inputs` (a copy), over
/// whatever the lineage recorded for it; every other node reads as before.
pub fn record_trigger(recorded: &mut Vec<(String, Json)>, up: &str, inputs: &Vec<(String, Json)>)
    ensures
        lookup(final(recorded)@, up@) matches Some(v) && same_json(Json::Object(*inputs), v),
        forall|k: Seq<char>| k != up@ ==> #[trigger] lookup(final(recorded)@, k) == lookup(old(recorded)@, k),
{
    let copy = Json::Object(copy_entries(inputs));
    let key = String::from_str(up);
    let ghost before = recorded@;
    let ghost g_copy = copy;
    let ghost g_key = key;
    entries_insert_exec(recorded, key, copy);
    proof {
        crate::json::lemma_insert_lookup(before, g_key, g_copy, up@);
        assert forall|k: Seq<char>| k != up@ implies #[trigger] lookup(recorded@, k) == lookup(before, k) by {
            crate::json::lemma_insert_lookup(before, g_key, g_copy, k);
        }
    }
}

/// Insert each of `adds` in order.
pub fn insert_each(entries: &mut Vec<(String, Json)>, adds: Vec<(String, Json)>)
    ensures
        final(entries)@ == insert_all(old(entries)@, adds@),
{
    let ghost all = adds@;
    let mut adds = adds;
    while adds.len() > 0
        invariant
            insert_all(entries@, adds@) == insert_all(old(entries)@, all),
        decreases adds@.len(),
    {
        let ghost before = adds@;
        let (k, v) = adds.remove(0);
        assert(adds@ =~= before.drop_first());
        entries_insert_exec(entries, k, v);
    }
}

/// The body of a node-level retained record: its `data` envelope when it has one, else itself.
pub open spec fn retained_body(rec: Json) -> Json {
    match rec.field("data"@) {
        Some(b) => b,
        None => rec,
    }
}

/// The retained `value` of a node-level retained record.
pub fn retained_value(rec: Json) -> (v: Option<Json>)
    ensures
        v == retained_body(rec).field("value"@),
{
    match rec {
        Json::Object(mut m) => {
            let ghost m0 = m@;
            match entries_take(&mut m, "data") {
                Some(b) => b.take_field("value"),
                None => {
                    proof {
                        lemma_key_index(m0, "data"@);
                    }
                    entries_take(&mut m, "value")
                },
            }
        },
        _ => None,
    }
}

/// Overlay a node's retained node-level record (if any) onto its message: a retained `value`
/// becomes the `payload`; every other field reads as before.
pub fn overlay_node_level(inputs: &mut Vec<(String, Json)>, node_level: Option<Json>)
    ensures
        crate::json::unique_keys(old(inputs)@) ==> crate::json::unique_keys(final(inputs)@),
        match node_level {
            Some(rec) => match retained_body(rec).field("value"@) {
                Some(v) => lookup(final(inputs)@, "payload"@) == Some(v) && forall|k: Seq<char>|
                    k != "payload"@ ==> #[trigger] lookup(final(inputs)@, k) == lookup(old(inputs)@, k),
                None => final(inputs)@ == old(inputs)@,
            },
            None => final(inputs)@ == old(inputs)@,
        },
{
    match node_level {
        Some(rec) => {
            match retained_value(rec) {
                Some(v) => {
                    let key = String::from_str("payload");
                    let ghost before = inputs@;
                    let ghost g_key = key;
                    let ghost g_v = v;
                    entries_insert_exec(inputs, key, v);
                    proof {
                        if crate::json::unique_keys(before) {
                            crate::json::lemma_insert_unique(before, g_key, g_v);
                        }
                        crate::json::lemma_insert_lookup(before, g_key, g_v, "payload"@);
                        assert forall|k: Seq<char>| k != "payload"@ implies #[trigger] lookup(inputs@, k) == lookup(before, k) by {
                            crate::json::lemma_insert_lookup(before, g_key, g_v, k);
                        }
                    }
                },
                None => {},
            }
        },
        None => {},
    }
}

/// The id prefix of a node's per-port retained records: `{table}:{flow}:{node}:`.
pub fn retained_port_prefix(table: &str, flow_id: &str, node_id: &str) -> (p: String)
    ensures
        p@ == table@ + ":"@ + flow_id@ + ":"@ + node_id@ + ":"@,
{
    let mut p = String::from_str(table);
    p.append(":");
    p.append(flow_id);
    p.append(":");
    p.append(node_id);
    p.append(":");
    p
}

/// The body of a scanned per-port retained row: the `data` envelope of an object (`null` without
/// one); any other value as it is.
pub open spec fn port_body(data: Json) -> Json {
    match data {
        Json::Object(_) => match data.field("data"@) {
            Some(b) => b,
            None => Json::Null,
        },
        _ => data,
    }
}

/// The `(port, value)` a scanned row retains for the node whose rows start with `prefix`.
pub open spec fn port_entry_spec(row_id: Seq<char>, data: Json, prefix: Seq<char>) -> Option<(String, Json)> {
    if !has_prefix(row_id, prefix) {
        None
    } else {
        let body = port_body(data);
        match body.field("port"@) {
            Some(Json::Str(p)) => match body.field("value"@) {
                Some(v) => Some((p, v)),
                None => None,
            },
            _ => None,
        }
    }
}

/// The `(port, value)` a scanned row `(row_id, data)` retains (see [`port_entry_spec`]).
pub fn port_entry(row_id: &str, data: Json, prefix: &str) -> (r: Option<(String, Json)>)
    ensures
        r == port_entry_spec(row_id@, data, prefix@),
{
    if !starts_with(row_id, prefix) {
        return None;
    }
    let ghost g_data = data;
    let body = match data {
        Json::Object(mut o) => match entries_take(&mut o, "data") {
            Some(b) => b,
            None => Json::Null,
        },
        other => other,
    };
    assert(body == port_body(g_data));
    match body {
        Json::Object(mut m) => {
            let port = match crate::json::entries_get(&m, "port") {
                Some(Json::Str(p)) => Some(p.clone()),
                _ => None,
            };
            match port {
                Some(p) => match entries_take(&mut m, "value") {
                    Some(v) => Some((p, v)),
                    None => None,
                },
                None => None,
            }
        },
        _ => None,
    }
}

/// The `(port, value)` pairs the rows retain, in row order.
pub open spec fn port_entries(rows: Seq<(String, Json)>, prefix: Seq<char>) -> Seq<(String, Json)>
    decreases rows.len(),
{
    if rows.len() == 0 {
        Seq::empty()
    } else {
        let rest = port_entries(rows.drop_last(), prefix);
        match port_entry_spec(rows.last().0@, rows.last().1, prefix) {
            Some(e) => rest.push(e),
            None => rest,
        }
    }
}

/// The value of the last entry with key `k`: what inserting the entries in order leaves for `k`.
pub open spec fn last_lookup(adds: Seq<(String, Json)>, k: Seq<char>) -> Option<Json>
    decreases adds.len(),
{
    if adds.len() == 0 {
        None
    } else if adds.last().0@ == k {
        Some(adds.last().1)
    } else {
        last_lookup(adds.drop_last(), k)
    }
}

/// Inserting one more entry at the end.
pub proof fn lemma_insert_all_push(base: Seq<(String, Json)>, adds: Seq<(String, Json)>, e: (String, Json))
    ensures
        insert_all(base, adds.push(e)) == entries_insert(insert_all(base, adds), e.0, e.1),
    decreases adds.len(),
{
    let ext = adds.push(e);
    if adds.len() > 0 {
        assert(ext[0] == adds[0]);
        assert(ext.drop_first() =~= adds.drop_first().push(e));
        lemma_insert_all_push(entries_insert(base, adds[0].0, adds[0].1), adds.drop_first(), e);
    } else {
        assert(ext.drop_first() =~= Seq::<(String, Json)>::empty());
        assert(ext[0] == e);
        assert(insert_all(base, ext) == insert_all(entries_insert(base, e.0, e.1), ext.drop_first()));
    }
}

/// After inserting entries in order, a key reads the last inserted value for it, else the base's.
pub proof fn lemma_insert_all_lookup(base: Seq<(String, Json)>, adds: Seq<(String, Json)>, k: Seq<char>)
    ensures
        lookup(insert_all(base, adds), k) == match last_lookup(adds, k) {
            Some(v) => Some(v),
            None => lookup(base, k),
        },
    decreases adds.len(),
{
    if adds.len() > 0 {
        let init = adds.drop_last();
        let e = adds.last();
        assert(init.push(e) =~= adds);
        lemma_insert_all_push(base, init, e);
        lemma_insert_all_lookup(base, init, k);
        crate::json::lemma_insert_lookup(insert_all(base, init), e.0, e.1, k);
    }
}

/// Insert the `(port, value)` pairs the scanned rows retain for the node (rows whose id starts with
/// `prefix`), in row order.
pub fn overlay_ports(inputs: &mut Vec<(String, Json)>, rows: Vec<(String, Json)>, prefix: &str)
    ensures
        final(inputs)@ == insert_all(old(inputs)@, port_entries(rows@, prefix@)),
{
    let ghost all = rows@;
    assert(all.len() == rows.len());
    let mut rest = rows;
    let mut k: usize = 0;
    while rest.len() > 0
        invariant
            all.len() <= usize::MAX,
            k + rest@.len() == all.len(),
            rest@ == all.subrange(k as int, all.len() as int),
            inputs@ == insert_all(old(inputs)@, port_entries(all.subrange(0, k as int), prefix@)),
        decreases rest@.len(),
    {
        let ghost before = rest@;
        let (id, data) = rest.remove(0);
        assert(rest@ =~= all.subrange(k + 1, all.len() as int));
        let ghost row = all[k as int];
        assert(row == (id, data));
        let ghost pre = all.subrange(0, k as int);
        let ghost nxt = all.subrange(0, k + 1);
        assert(nxt.drop_last() =~= pre);
        assert(nxt.last() == row);
        match port_entry(id.as_str(), data, prefix) {
            Some((p, v)) => {
                proof {
                    lemma_insert_all_push(old(inputs)@, port_entries(pre, prefix@), (p, v));
                }
                entries_insert_exec(inputs, p, v);
            },
            None => {},
        }
        k = k + 1;
    }
    assert(all.subrange(0, all.len() as int) =~= all);
}

/// The entries without `payload`, order kept.
pub open spec fn strip_payload(e: Seq<(String, Json)>) -> Seq<(String, Json)>
    decreases e.len(),
{
    if e.len() == 0 {
        Seq::empty()
    } else {
        let rest = strip_payload(e.drop_last());
        if e.last().0@ == "payload"@ {
            rest
        } else {
            rest.push(e.last())
        }
    }
}

/// Stripping `payload` keeps what every other key reads, and drops `payload`.
pub proof fn lemma_strip_lookup(e: Seq<(String, Json)>, k: Seq<char>)
    ensures
        lookup(strip_payload(e), k) == if k == "payload"@ {
            None
        } else {
            lookup(e, k)
        },
    decreases e.len(),
{
    if e.len() > 0 {
        let init = e.drop_last();
        assert(init.push(e.last()) =~= e);
        lemma_strip_lookup(init, k);
        crate::json::lemma_lookup_push(init, e.last(), k);
        if e.last().0@ != "payload"@ {
            crate::json::lemma_lookup_push(strip_payload(init), e.last(), k);
        }
    }
}

/// A copy of a message without its `payload`: the fields that carry forward.
pub fn without_payload(inputs: &Vec<(String, Json)>) -> (c: Vec<(String, Json)>)
    ensures
        c@.len() == strip_payload(inputs@).len(),
        forall|i: int|
            0 <= i < c@.len() ==> (#[trigger] c@[i]).0@ == strip_payload(inputs@)[i].0@ && same_json(
                strip_payload(inputs@)[i].1,
                c@[i].1,
            ),
{
    let mut c: Vec<(String, Json)> = Vec::new();
    let mut i: usize = 0;
    while i < inputs.len()
        invariant
            i <= inputs@.len(),
            c@.len() == strip_payload(inputs@.subrange(0, i as int)).len(),
            forall|j: int|
                0 <= j < c@.len() ==> (#[trigger] c@[j]).0@ == strip_payload(inputs@.subrange(0, i as int))[j].0@
                    && same_json(strip_payload(inputs@.subrange(0, i as int))[j].1, c@[j].1),
        decreases inputs@.len() - i,
    {
        let ghost pre = inputs@.subrange(0, i as int);
        let ghost nxt = inputs@.subrange(0, i + 1);
        assert(nxt.drop_last() =~= pre);
        assert(nxt.last() == inputs@[i as int]);
        if !str_eq(inputs[i].0.as_str(), "payload") {
            c.push((inputs[i].0.clone(), inputs[i].1.duplicate()));
        }
        i = i + 1;
    }
    assert(inputs@.subrange(0, inputs@.len() as int) =~= inputs@);
    c
}

/// Two entry lists with the same keys in the same places and the same values read alike.
proof fn lemma_lookup_same(a: Seq<(String, Json)>, b: Seq<(String, Json)>, k: Seq<char>)
    requires
        a.len() == b.len(),
        forall|i: int| 0 <= i < a.len() ==> (#[trigger] b[i]).0@ == a[i].0@ && same_json(a[i].1, b[i].1),
    ensures
        match lookup(a, k) {
            Some(v) => lookup(b, k) matches Some(c) && same_json(v, c),
            None => lookup(b, k).is_none(),
        },
    decreases a.len(),
{
    if a.len() > 0 {
        let (ta, tb) = (a.drop_first(), b.drop_first());
        assert forall|i: int| 0 <= i < ta.len() implies (#[trigger] tb[i]).0@ == ta[i].0@ && same_json(ta[i].1, tb[i].1) by {
            assert(tb[i] == b[i + 1]);
            assert(ta[i] == a[i + 1]);
        }
        assert(b[0].0@ == a[0].0@);
        lemma_lookup_same(ta, tb, k);
    }
}

/// `carry` carries every field of `inputs` but `payload` (as copies), and no `payload`.
pub open spec fn carries(inputs: Seq<(String, Json)>, carry: Seq<(String, Json)>) -> bool {
    forall|k: Seq<char>|
        #![trigger lookup(carry, k)]
        if k == "payload"@ {
            lookup(carry, k).is_none()
        } else {
            match lookup(inputs, k) {
                Some(v) => lookup(carry, k) matches Some(c) && same_json(v, c),
                None => lookup(carry, k).is_none(),
            }
        }
}

/// What key `k` of the wired message reads: the envelope's field for an auto-wired firing (a
/// non-object envelope is its `payload`), nothing for an explicit one.
pub open spec fn wired_lookup(wiring: Wiring, envelope: Json, k: Seq<char>) -> Option<Json> {
    match wiring {
        Wiring::Explicit { .. } => None,
        _ => match envelope {
            Json::Object(o) => lookup(o@, k),
            _ => if k == "payload"@ {
                Some(envelope)
            } else {
                None
            },
        },
    }
}

/// What key `k` of a resolved message reads: a retained port first, then (for `payload`) the
/// retained node-level value, then the last explicit binding of `k`, then the wiring.
pub open spec fn resolved_lookup(
    wiring: Wiring,
    envelope: Json,
    bound: Seq<(String, Json)>,
    node_level: Option<Json>,
    ports: Seq<(String, Json)>,
    k: Seq<char>,
) -> Option<Json> {
    match last_lookup(ports, k) {
        Some(v) => Some(v),
        None => {
            let retained = match node_level {
                Some(rec) => if k == "payload"@ {
                    retained_body(rec).field("value"@)
                } else {
                    None
                },
                None => None,
            };
            match retained {
                Some(v) => Some(v),
                None => match last_lookup(bound, k) {
                    Some(v) => Some(v),
                    None => wired_lookup(wiring, envelope, k),
                },
            }
        },
    }
}

/// Inserting each of `adds` keeps distinct keys distinct.
pub proof fn lemma_insert_all_unique(base: Seq<(String, Json)>, adds: Seq<(String, Json)>)
    requires
        crate::json::unique_keys(base),
    ensures
        crate::json::unique_keys(insert_all(base, adds)),
    decreases adds.len(),
{
    if adds.len() > 0 {
        crate::json::lemma_insert_unique(base, adds[0].0, adds[0].1);
        lemma_insert_all_unique(entries_insert(base, adds[0].0, adds[0].1), adds.drop_first());
    }
}

/// Stripping `payload` keeps entries of `e` only, in order, so distinct keys stay distinct.
pub proof fn lemma_strip_unique(e: Seq<(String, Json)>)
    ensures
        forall|x: int| 0 <= x < strip_payload(e).len() ==> exists|j: int| 0 <= j < e.len() && #[trigger] strip_payload(e)[x] == e[j],
        crate::json::unique_keys(e) ==> crate::json::unique_keys(strip_payload(e)),
    decreases e.len(),
{
    if e.len() > 0 {
        let init = e.drop_last();
        lemma_strip_unique(init);
        let si = strip_payload(init);
        let se = strip_payload(e);
        assert forall|x: int| 0 <= x < se.len() implies exists|j: int| 0 <= j < e.len() && #[trigger] se[x] == e[j] by {
            if x < si.len() {
                assert(se[x] == si[x]);
                let j = choose|j: int| 0 <= j < init.len() && #[trigger] si[x] == init[j];
                assert(init[j] == e[j]);
            } else {
                assert(se[x] == e[e.len() - 1]);
            }
        }
        if crate::json::unique_keys(e) {
            assert forall|a: int, b: int| 0 <= a < b < init.len() implies init[a].0@ != init[b].0@ by {
                assert(init[a] == e[a] && init[b] == e[b]);
            }
            assert forall|a: int, b: int| 0 <= a < b < se.len() implies se[a].0@ != se[b].0@ by {
                if b < si.len() {
                    assert(se[a] == si[a] && se[b] == si[b]);
                } else {
                    assert(se[b] == e[e.len() - 1]);
                    assert(se[a] == si[a]);
                    let j = choose|j: int| 0 <= j < init.len() && #[trigger] si[a] == init[j];
                    assert(init[j] == e[j]);
                }
            }
        }
    }
}

/// A node's resolved incoming message and the fields it carries forward.
pub struct ResolvedInputs {
    pub inputs: Vec<(String, Json)>,
    pub carry: Vec<(String, Json)>,
}

/// Assemble a firing's message once its explicit bindings were resolved into `bound`: the wired
/// `envelope`'s message (for an auto-wired firing), overlaid by `bound` in order, then by the
/// node's retained node-level record and its retained per-port rows (ids starting with
/// `port_prefix`). Every field but `payload` carries forward, except at a join.
pub fn resolve_inputs(
    wiring: &Wiring,
    envelope: Json,
    bound: Vec<(String, Json)>,
    node_level: Option<Json>,
    port_rows: Vec<(String, Json)>,
    port_prefix: &str,
) -> (r: ResolvedInputs)
    ensures
        forall|k: Seq<char>|
            #[trigger] lookup(r.inputs@, k) == resolved_lookup(
                *wiring,
                envelope,
                bound@,
                node_level,
                port_entries(port_rows@, port_prefix@),
                k,
            ),
        crate::json::unique_keys(r.inputs@),
        crate::json::unique_keys(r.carry@),
        (*wiring matches Wiring::Explicit { join } && join) ==> r.carry@.len() == 0,
        !(*wiring matches Wiring::Explicit { join } && join) ==> carries(r.inputs@, r.carry@),
{
    let ghost g_env = envelope;
    let ghost g_bound = bound@;
    let ghost g_rows = port_rows@;
    let is_explicit = match wiring {
        Wiring::Explicit { .. } => true,
        _ => false,
    };
    let mut inputs: Vec<(String, Json)> = if is_explicit {
        Vec::new()
    } else {
        let m = message_of(envelope);
        let ghost gm = m@;
        proof {
            assert forall|k: Seq<char>| #[trigger] lookup(gm, k) == wired_lookup(*wiring, g_env, k) by {
                match g_env {
                    Json::Object(o) => {
                        assert(gm == o@);
                    },
                    _ => {
                        assert(gm.len() == 1);
                        assert(gm[0].0@ == "payload"@);
                        assert(gm.drop_first().len() == 0);
                        assert(lookup(gm.drop_first(), k).is_none());
                    },
                }
            }
        }
        crate::json::first_entries(m)
    };
    proof {
        assert forall|k: Seq<char>| #[trigger] lookup(inputs@, k) == wired_lookup(*wiring, g_env, k) by {
            if is_explicit {
                assert(lookup(inputs@, k).is_none());
            }
        }
    }
    let ghost wired = inputs@;
    proof {
        lemma_insert_all_unique(wired, g_bound);
    }
    insert_each(&mut inputs, bound);
    let ghost bound_in = inputs@;
    proof {
        assert forall|k: Seq<char>| #[trigger] lookup(bound_in, k) == match last_lookup(g_bound, k) {
            Some(v) => Some(v),
            None => wired_lookup(*wiring, g_env, k),
        } by {
            lemma_insert_all_lookup(wired, g_bound, k);
        }
    }
    overlay_node_level(&mut inputs, node_level);
    let ghost with_node = inputs@;
    proof {
        lemma_insert_all_unique(with_node, port_entries(g_rows, port_prefix@));
    }
    overlay_ports(&mut inputs, port_rows, port_prefix);
    proof {
        assert forall|k: Seq<char>| #[trigger] lookup(inputs@, k) == resolved_lookup(
            *wiring,
            g_env,
            g_bound,
            node_level,
            port_entries(g_rows, port_prefix@),
            k,
        ) by {
            lemma_insert_all_lookup(with_node, port_entries(g_rows, port_prefix@), k);
            assert(lookup(bound_in, k) == match last_lookup(g_bound, k) {
                Some(v) => Some(v),
                None => wired_lookup(*wiring, g_env, k),
            });
        }
    }
    let join = match wiring {
        Wiring::Explicit { join } => *join,
        _ => false,
    };
    let carry = if join {
        Vec::new()
    } else {
        let c = without_payload(&inputs);
        proof {
            lemma_strip_unique(inputs@);
            assert forall|a: int, b: int| 0 <= a < b < c@.len() implies c@[a].0@ != c@[b].0@ by {
                assert(c@[a].0@ == strip_payload(inputs@)[a].0@);
                assert(c@[b].0@ == strip_payload(inputs@)[b].0@);
            }
            assert forall|k: Seq<char>| #![trigger lookup(c@, k)] if k == "payload"@ {
                lookup(c@, k).is_none()
            } else {
                match lookup(inputs@, k) {
                    Some(v) => lookup(c@, k) matches Some(x) && same_json(v, x),
                    None => lookup(c@, k).is_none(),
                }
            } by {
                lemma_strip_lookup(inputs@, k);
                lemma_lookup_same(strip_payload(inputs@), c@, k);
            }
        }
        c
    };
    ResolvedInputs { inputs, carry }
}

/// The `(node, value)` a scanned retained-input row holds for flow `flow`: its body (see
/// [`port_body`]) names the flow, the node and the value.
pub open spec fn retained_param_spec(data: Json, flow: Seq<char>) -> Option<(String, Json)> {
    let body = port_body(data);
    match body.field("flow"@) {
        Some(Json::Str(f)) => if f@ == flow {
            match body.field("node"@) {
                Some(Json::Str(n)) => match body.field("value"@) {
                    Some(v) => Some((n, v)),
                    None => None,
                },
                _ => None,
            }
        } else {
            None
        },
        _ => None,
    }
}

/// The `(node, value)` a scanned retained-input row holds for flow `flow_id`.
pub fn retained_param(data: Json, flow_id: &str) -> (r: Option<(String, Json)>)
    ensures
        r == retained_param_spec(data, flow_id@),
{
    let ghost g_data = data;
    let body = match data {
        Json::Object(mut o) => match entries_take(&mut o, "data") {
            Some(b) => b,
            None => Json::Null,
        },
        other => other,
    };
    assert(body == port_body(g_data));
    match body {
        Json::Object(mut m) => {
            let same_flow = match crate::json::entries_get(&m, "flow") {
                Some(Json::Str(f)) => str_eq(f.as_str(), flow_id),
                _ => false,
            };
            if !same_flow {
                return None;
            }
            let node = match crate::json::entries_get(&m, "node") {
                Some(Json::Str(n)) => Some(n.clone()),
                _ => None,
            };
            match node {
                Some(n) => match entries_take(&mut m, "value") {
                    Some(v) => Some((n, v)),
                    None => None,
                },
                None => None,
            }
        },
        _ => None,
    }
}

/// The `(node, value)` pairs the scanned rows retain for flow `flow`, in row order.
pub open spec fn retained_params(rows: Seq<Json>, flow: Seq<char>) -> Seq<(String, Json)>
    decreases rows.len(),
{
    if rows.len() == 0 {
        Seq::empty()
    } else {
        let rest = retained_params(rows.drop_last(), flow);
        match retained_param_spec(rows.last(), flow) {
            Some(e) => rest.push(e),
            None => rest,
        }
    }
}

/// Merge a flow's retained inputs into a run's params, keyed by node id, in row order (a run reads
/// the current retained values).
pub fn merge_retained_params(params: &mut Vec<(String, Json)>, rows: Vec<Json>, flow_id: &str)
    ensures
        final(params)@ == insert_all(old(params)@, retained_params(rows@, flow_id@)),
{
    let ghost all = rows@;
    assert(all.len() == rows.len());
    let mut rest = rows;
    let mut k: usize = 0;
    while rest.len() > 0
        invariant
            all.len() <= usize::MAX,
            k + rest@.len() == all.len(),
            rest@ == all.subrange(k as int, all.len() as int),
            params@ == insert_all(old(params)@, retained_params(all.subrange(0, k as int), flow_id@)),
        decreases rest@.len(),
    {
        let data = rest.remove(0);
        assert(rest@ =~= all.subrange(k + 1, all.len() as int));
        let ghost pre = all.subrange(0, k as int);
        let ghost nxt = all.subrange(0, k + 1);
        assert(nxt.drop_last() =~= pre);
        assert(nxt.last() == data);
        match retained_param(data, flow_id) {
            Some((n, v)) => {
                proof {
                    lemma_insert_all_push(old(params)@, retained_params(pre, flow_id@), (n, v));
                }
                entries_insert_exec(params, n, v);
            },
            None => {},
        }
        k = k + 1;
    }
    assert(all.subrange(0, all.len() as int) =~= all);
}

} // verus!
