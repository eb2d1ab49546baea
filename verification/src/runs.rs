//! Run inspection reads: the runs of a flow (optionally of one status), newest first, and the
//! per-node snapshot of one run rebuilt from its slot records.
use vstd::prelude::*;

use crate::execute_node::lemma_take_other;
use crate::json::{entries_get, entries_take, lookup, str_eq, Json};
use crate::node_state::record_value;
use crate::records::claim_for_display;

verus! {

/// One run of a flow as the listing shows it.
pub struct RunSummary {
    pub run_id: Json,
    pub flow_version: Json,
    pub status: String,
    /// The run's logical start instant.
    pub ts: Json,
}

/// A field of a record body, `null` when absent.
pub open spec fn field_or_null(body: Json, k: Seq<char>) -> Json {
    match body.field(k) {
        Some(v) => v,
        None => Json::Null,
    }
}

/// The string at a field of a record body, empty when absent or not a string.
pub open spec fn text_or_empty(body: Json, k: Seq<char>) -> Seq<char> {
    match body.field(k) {
        Some(Json::Str(s)) => s@,
        _ => Seq::empty(),
    }
}

/// The listing entry of a scanned run row, when the run is of flow `flow` and (if asked) of status
/// `status`.
pub open spec fn summary_of(data: Json, flow: Seq<char>, status: Option<Seq<char>>) -> Option<(Json, Json, Seq<char>, Json)> {
    let body = record_value(data);
    match body.field("flow_id"@) {
        Some(Json::Str(f)) => if f@ == flow && match status {
            Some(w) => text_or_empty(body, "status"@) == w,
            None => true,
        } {
            Some(
                (
                    field_or_null(body, "run_id"@),
                    field_or_null(body, "flow_version"@),
                    text_or_empty(body, "status"@),
                    field_or_null(body, "ts"@),
                ),
            )
        } else {
            None
        },
        _ => None,
    }
}

/// The sort key of a listed run: its start instant (0 when it has none).
pub open spec fn start_key(r: RunSummary) -> u64 {
    match r.ts {
        Json::UInt(t) => t,
        _ => 0,
    }
}

/// Entry `r` shows the tuple `t`.
pub open spec fn shows(r: RunSummary, t: (Json, Json, Seq<char>, Json)) -> bool {
    r.run_id == t.0 && r.flow_version == t.1 && r.status@ == t.2 && r.ts == t.3
}

/// Insert `x` after every entry that started no earlier (newest first; equal instants keep their
/// order).
pub open spec fn insert_desc(s: Seq<RunSummary>, x: RunSummary) -> Seq<RunSummary>
    decreases s.len(),
{
    if s.len() == 0 {
        seq![x]
    } else if start_key(s.last()) >= start_key(x) {
        s.push(x)
    } else {
        insert_desc(s.drop_last(), x).push(s.last())
    }
}

/// `s` sorted newest first, stably.
pub open spec fn sort_desc(s: Seq<RunSummary>) -> Seq<RunSummary>
    decreases s.len(),
{
    if s.len() == 0 {
        Seq::empty()
    } else {
        insert_desc(sort_desc(s.drop_last()), s.last())
    }
}

/// Newest first.
pub open spec fn newest_first(s: Seq<RunSummary>) -> bool {
    forall|i: int, j: int| 0 <= i < j < s.len() ==> start_key(s[i]) >= start_key(s[j])
}

/// Inserting keeps a newest-first list newest first.
pub proof fn lemma_insert_desc_sorted(s: Seq<RunSummary>, x: RunSummary)
    requires
        newest_first(s),
    ensures
        newest_first(insert_desc(s, x)),
        insert_desc(s, x).len() == s.len() + 1,
    decreases s.len(),
{
    if s.len() > 0 && start_key(s.last()) < start_key(x) {
        let init = s.drop_last();
        lemma_insert_desc_sorted(init, x);
        lemma_insert_desc_bound(init, x, start_key(s.last()));
    }
}

/// Every entry of an insertion is the inserted one or an entry of `s`, so a bound on both bounds it.
proof fn lemma_insert_desc_bound(s: Seq<RunSummary>, x: RunSummary, b: u64)
    requires
        forall|i: int| 0 <= i < s.len() ==> start_key(#[trigger] s[i]) >= b,
        start_key(x) >= b,
    ensures
        forall|i: int| 0 <= i < insert_desc(s, x).len() ==> start_key(#[trigger] insert_desc(s, x)[i]) >= b,
    decreases s.len(),
{
    if s.len() == 0 {
        assert(insert_desc(s, x) =~= seq![x]);
    } else if start_key(s.last()) >= start_key(x) {
        assert(insert_desc(s, x) == s.push(x));
    } else {
        let init = s.drop_last();
        assert forall|i: int| 0 <= i < init.len() implies start_key(#[trigger] init[i]) >= b by {
            assert(init[i] == s[i]);
        }
        lemma_insert_desc_bound(init, x, b);
        let r = insert_desc(init, x);
        assert(insert_desc(s, x) == r.push(s.last()));
        assert forall|i: int| 0 <= i < r.push(s.last()).len() implies start_key(#[trigger] r.push(s.last())[i]) >= b by {
            if i < r.len() {
                assert(r.push(s.last())[i] == r[i]);
            }
        }
    }
}

/// A sorted list is newest first.
pub proof fn lemma_sort_desc_sorted(s: Seq<RunSummary>)
    ensures
        newest_first(sort_desc(s)),
        sort_desc(s).len() == s.len(),
    decreases s.len(),
{
    if s.len() > 0 {
        lemma_sort_desc_sorted(s.drop_last());
        lemma_insert_desc_sorted(sort_desc(s.drop_last()), s.last());
    }
}

/// The listing entry of one scanned run row (see [`summary_of`]).
fn summarize(data: Json, flow_id: &str, status: Option<&str>) -> (r: Option<RunSummary>)
    ensures
        match r {
            Some(x) => summary_of(data, flow_id@, match status {
                Some(w) => Some(w@),
                None => None,
            }) matches Some(t) && shows(x, t),
            None => summary_of(data, flow_id@, match status {
                Some(w) => Some(w@),
                None => None,
            }).is_none(),
        },
{
    let ghost g_data = data;
    let body = match data {
        Json::Object(mut o) => match entries_take(&mut o, "data") {
            Some(b) => b,
            None => Json::Null,
        },
        other => other,
    };
    assert(body == record_value(g_data));
    let mut m = match body {
        Json::Object(m) => m,
        _ => {
            return None;
        },
    };
    let same_flow = match entries_get(&m, "flow_id") {
        Some(Json::Str(f)) => str_eq(f.as_str(), flow_id),
        _ => false,
    };
    if !same_flow {
        return None;
    }
    let st = match entries_get(&m, "status") {
        Some(Json::Str(s)) => s.clone(),
        _ => String::new(),
    };
    match status {
        Some(w) => {
            if !str_eq(st.as_str(), w) {
                return None;
            }
        },
        None => {},
    }
    let ghost e0 = m@;
    proof {
        reveal_strlit("run_id");
        reveal_strlit("flow_version");
        reveal_strlit("ts");
        assert("run_id"@ != "flow_version"@) by {
            assert("run_id"@.len() != "flow_version"@.len());
        }
        assert("run_id"@ != "ts"@) by {
            assert("run_id"@.len() != "ts"@.len());
        }
        assert("flow_version"@ != "ts"@) by {
            assert("flow_version"@.len() != "ts"@.len());
        }
        lemma_take_other(e0, "run_id"@, "flow_version"@);
        lemma_take_other(e0, "run_id"@, "ts"@);
    }
    let run_id = match entries_take(&mut m, "run_id") {
        Some(v) => v,
        None => Json::Null,
    };
    let ghost e1 = m@;
    proof {
        lemma_take_other(e1, "flow_version"@, "ts"@);
    }
    let flow_version = match entries_take(&mut m, "flow_version") {
        Some(v) => v,
        None => Json::Null,
    };
    let ts = match entries_take(&mut m, "ts") {
        Some(v) => v,
        None => Json::Null,
    };
    Some(RunSummary { run_id, flow_version, status: st, ts })
}

/// The listing entries of the scanned rows, in row order.
pub open spec fn summaries(rows: Seq<Json>, flow: Seq<char>, status: Option<Seq<char>>) -> Seq<(Json, Json, Seq<char>, Json)>
    decreases rows.len(),
{
    if rows.len() == 0 {
        Seq::empty()
    } else {
        let rest = summaries(rows.drop_last(), flow, status);
        match summary_of(rows.last(), flow, status) {
            Some(t) => rest.push(t),
            None => rest,
        }
    }
}

/// The key of a shown tuple.
pub open spec fn tuple_key(t: (Json, Json, Seq<char>, Json)) -> u64 {
    match t.3 {
        Json::UInt(u) => u,
        _ => 0,
    }
}

/// Insert `x` into the newest-first list `out` (see [`insert_desc`]).
fn insert_newest_first(out: &mut Vec<RunSummary>, x: RunSummary)
    ensures
        final(out)@ == insert_desc(old(out)@, x),
{
    let key = match &x.ts {
        Json::UInt(t) => *t,
        _ => 0,
    };
    let ghost o = out@;
    let mut p = out.len();
    assert(o.subrange(0, p as int) =~= o);
    assert(insert_desc(o, x) =~= insert_desc(o.subrange(0, p as int), x) + o.subrange(p as int, o.len() as int));
    while p > 0
        invariant
            p <= o.len(),
            out@ == o,
            key == start_key(x),
            insert_desc(o, x) == insert_desc(o.subrange(0, p as int), x) + o.subrange(p as int, o.len() as int),
        ensures
            p <= o.len(),
            out@ == o,
            insert_desc(o, x) == insert_desc(o.subrange(0, p as int), x) + o.subrange(p as int, o.len() as int),
            p == 0 || start_key(o[p - 1]) >= start_key(x),
        decreases p,
    {
        let k = match &out[p - 1].ts {
            Json::UInt(t) => *t,
            _ => 0,
        };
        let ghost pre = o.subrange(0, p as int);
        assert(k == start_key(pre.last()));
        assert(pre.last() == o[p - 1]);
        if k >= key {
            break;
        }
        proof {
            assert(pre.drop_last() =~= o.subrange(0, p - 1));
            assert(insert_desc(pre, x) == insert_desc(o.subrange(0, p - 1), x).push(pre.last()));
            assert(insert_desc(o.subrange(0, p - 1), x).push(pre.last()) + o.subrange(p as int, o.len() as int)
                =~= insert_desc(o.subrange(0, p - 1), x) + o.subrange(p - 1, o.len() as int));
        }
        p = p - 1;
    }
    proof {
        let pre = o.subrange(0, p as int);
        if p > 0 {
            assert(pre.last() == o[p - 1]);
            assert(start_key(pre.last()) >= start_key(x));
            assert(insert_desc(pre, x) == pre.push(x));
        } else {
            assert(insert_desc(pre, x) =~= pre.push(x));
        }
    }
    out.insert(p, x);
    proof {
        assert(out@ =~= o.subrange(0, p as int).push(x) + o.subrange(p as int, o.len() as int));
    }
}

/// The runs of flow `flow_id` among the scanned run rows (only those of status `status`, when
/// asked), newest first (runs without a start instant last; equal instants in row order).
pub fn runs_list(rows: Vec<Json>, flow_id: &str, status: Option<&str>) -> (r: Vec<RunSummary>)
    ensures
        r@.len() == summaries(rows@, flow_id@, match status {
            Some(w) => Some(w@),
            None => None,
        }).len(),
        exists|listed: Seq<RunSummary>|
            #![trigger sort_desc(listed)]
            listed.len() == summaries(rows@, flow_id@, match status {
                Some(w) => Some(w@),
                None => None,
            }).len() && (forall|i: int| 0 <= i < listed.len() ==> shows(#[trigger] listed[i], summaries(rows@, flow_id@, match status {
                Some(w) => Some(w@),
                None => None,
            })[i])) && r@ == sort_desc(listed),
        newest_first(r@),
{
    let ghost st = match status {
        Some(w) => Some(w@),
        None => None,
    };
    let ghost all = rows@;
    assert(all.len() == rows.len());
    let mut rest = rows;
    let mut k: usize = 0;
    let mut out: Vec<RunSummary> = Vec::new();
    let ghost mut listed: Seq<RunSummary> = Seq::empty();
    while rest.len() > 0
        invariant
            all.len() <= usize::MAX,
            k + rest@.len() == all.len(),
            rest@ == all.subrange(k as int, all.len() as int),
            st == match status {
                Some(w) => Some(w@),
                None => None::<Seq<char>>,
            },
            listed.len() == summaries(all.subrange(0, k as int), flow_id@, st).len(),
            forall|i: int| 0 <= i < listed.len() ==> shows(#[trigger] listed[i], summaries(all.subrange(0, k as int), flow_id@, st)[i]),
            out@ == sort_desc(listed),
        decreases rest@.len(),
    {
        let data = rest.remove(0);
        assert(rest@ =~= all.subrange(k + 1, all.len() as int));
        let ghost pre = all.subrange(0, k as int);
        let ghost nxt = all.subrange(0, k + 1);
        assert(nxt.drop_last() =~= pre);
        assert(nxt.last() == data);
        match summarize(data, flow_id, status) {
            Some(x) => {
                proof {
                    let l2 = listed.push(x);
                    assert(l2.drop_last() =~= listed);
                    listed = l2;
                }
                insert_newest_first(&mut out, x);
            },
            None => {},
        }
        k = k + 1;
    }
    assert(all.subrange(0, all.len() as int) =~= all);
    proof {
        lemma_sort_desc_sorted(listed);
    }
    out
}

/// One node's entry in a run's snapshot.
pub struct StepSnapshot {
    pub id: Json,
    /// The slot's claim state for display (`pending` when unknown).
    pub claim: String,
    /// Whether the slot is done.
    pub terminal: bool,
    pub outcome: Json,
    pub output: Json,
    pub error: Json,
}

/// The claim text of a slot record body (`pending` when absent).
pub open spec fn claim_text(body: Json) -> Seq<char> {
    match body.field("claim"@) {
        Some(Json::Str(c)) => c@,
        _ => "pending"@,
    }
}

/// The snapshot entry of a scanned slot row, when the slot is of run `run`.
pub open spec fn snapshot_of(data: Json, run: Seq<char>) -> Option<(Json, Seq<char>, bool, Json, Json, Json)> {
    let body = record_value(data);
    match body.field("run_id"@) {
        Some(Json::Str(r)) => if r@ == run {
            let c = claim_text(body);
            Some(
                (
                    field_or_null(body, "node_id"@),
                    if c == "pending"@ || c == "enqueued"@ || c == "running"@ || c == "done"@ {
                        c
                    } else {
                        "pending"@
                    },
                    c == "done"@,
                    field_or_null(body, "outcome"@),
                    field_or_null(body, "output"@),
                    field_or_null(body, "error"@),
                ),
            )
        } else {
            None
        },
        _ => None,
    }
}

/// Entry `s` shows the tuple `t`.
pub open spec fn snapshot_shows(s: StepSnapshot, t: (Json, Seq<char>, bool, Json, Json, Json)) -> bool {
    s.id == t.0 && s.claim@ == t.1 && s.terminal == t.2 && s.outcome == t.3 && s.output == t.4 && s.error == t.5
}

/// Take field `k` of an object's entries (`null` when absent).
fn take_or_null(m: &mut Vec<(String, Json)>, k: &str) -> (r: Json)
    ensures
        r == match lookup(old(m)@, k@) {
            Some(v) => v,
            None => Json::Null,
        },
        forall|k2: Seq<char>| k2 != k@ ==> #[trigger] lookup(final(m)@, k2) == lookup(old(m)@, k2),
{
    let ghost e = m@;
    let r = match entries_take(m, k) {
        Some(v) => v,
        None => Json::Null,
    };
    proof {
        assert forall|k2: Seq<char>| k2 != k@ implies #[trigger] lookup(m@, k2) == lookup(e, k2) by {
            lemma_take_other(e, k@, k2);
        }
    }
    r
}

/// The snapshot entry of one scanned slot row (see [`snapshot_of`]).
fn snapshot_entry(data: Json, run_id: &str) -> (r: Option<StepSnapshot>)
    ensures
        match r {
            Some(s) => snapshot_of(data, run_id@) matches Some(t) && snapshot_shows(s, t),
            None => snapshot_of(data, run_id@).is_none(),
        },
{
    let ghost g_data = data;
    let body = match data {
        Json::Object(mut o) => match entries_take(&mut o, "data") {
            Some(b) => b,
            None => Json::Null,
        },
        other => other,
    };
    assert(body == record_value(g_data));
    let mut m = match body {
        Json::Object(m) => m,
        _ => {
            return None;
        },
    };
    let same_run = match entries_get(&m, "run_id") {
        Some(Json::Str(r)) => str_eq(r.as_str(), run_id),
        _ => false,
    };
    if !same_run {
        return None;
    }
    let claim_raw = match entries_get(&m, "claim") {
        Some(Json::Str(c)) => c.clone(),
        _ => String::from_str("pending"),
    };
    let terminal = str_eq(claim_raw.as_str(), "done");
    let claim = String::from_str(claim_for_display(claim_raw.as_str()));
    let ghost e0 = m@;
    proof {
        reveal_strlit("node_id");
        reveal_strlit("outcome");
        reveal_strlit("output");
        reveal_strlit("error");
        assert("node_id"@ != "outcome"@ && "node_id"@ != "output"@ && "node_id"@ != "error"@) by {
            assert("node_id"@[0] != "outcome"@[0]);
            assert("node_id"@[0] != "output"@[0]);
            assert("node_id"@[0] != "error"@[0]);
        }
        assert("outcome"@ != "output"@ && "outcome"@ != "error"@) by {
            assert("outcome"@.len() != "output"@.len());
            assert("outcome"@[0] != "error"@[0]);
        }
        assert("output"@ != "error"@) by {
            assert("output"@.len() != "error"@.len());
        }
    }
    let id = take_or_null(&mut m, "node_id");
    let outcome = take_or_null(&mut m, "outcome");
    let output = take_or_null(&mut m, "output");
    let error = take_or_null(&mut m, "error");
    Some(StepSnapshot { id, claim, terminal, outcome, output, error })
}

/// The snapshot entries of the scanned slot rows of one run, in row order.
pub open spec fn snapshots(rows: Seq<Json>, run: Seq<char>) -> Seq<(Json, Seq<char>, bool, Json, Json, Json)>
    decreases rows.len(),
{
    if rows.len() == 0 {
        Seq::empty()
    } else {
        let rest = snapshots(rows.drop_last(), run);
        match snapshot_of(rows.last(), run) {
            Some(t) => rest.push(t),
            None => rest,
        }
    }
}

/// The per-node snapshot of run `run_id` from the scanned slot rows (see [`snapshot_of`]).
pub fn node_snapshot(rows: Vec<Json>, run_id: &str) -> (r: Vec<StepSnapshot>)
    ensures
        r@.len() == snapshots(rows@, run_id@).len(),
        forall|i: int| 0 <= i < r@.len() ==> snapshot_shows(#[trigger] r@[i], snapshots(rows@, run_id@)[i]),
{
    let ghost all = rows@;
    assert(all.len() == rows.len());
    let mut rest = rows;
    let mut k: usize = 0;
    let mut out: Vec<StepSnapshot> = Vec::new();
    while rest.len() > 0
        invariant
            all.len() <= usize::MAX,
            k + rest@.len() == all.len(),
            rest@ == all.subrange(k as int, all.len() as int),
            out@.len() == snapshots(all.subrange(0, k as int), run_id@).len(),
            forall|i: int| 0 <= i < out@.len() ==> snapshot_shows(#[trigger] out@[i], snapshots(all.subrange(0, k as int), run_id@)[i]),
        decreases rest@.len(),
    {
        let data = rest.remove(0);
        assert(rest@ =~= all.subrange(k + 1, all.len() as int));
        let ghost pre = all.subrange(0, k as int);
        let ghost nxt = all.subrange(0, k + 1);
        assert(nxt.drop_last() =~= pre);
        assert(nxt.last() == data);
        match snapshot_entry(data, run_id) {
            Some(s) => out.push(s),
            None => {},
        }
        k = k + 1;
    }
    assert(all.subrange(0, all.len() as int) =~= all);
    out
}

} // verus!
