//! Deterministic record ids, run ids and bus subjects. Every id is a pure function of its inputs, so
//! a redelivered firing or a re-driven run re-derives exactly the same key (the idempotency spine).
use vstd::prelude::*;

use crate::text::{decimal, has_prefix, push_decimal, starts_with};

verus! {

/// The firing-context part of a slot key: empty for the empty context, else `@` and the context.
pub open spec fn slot_suffix_spec(fctx: Seq<char>) -> Seq<char> {
    if fctx.len() == 0 {
        Seq::empty()
    } else {
        "@"@ + fctx
    }
}

/// The slot-key suffix for a firing context.
pub fn slot_suffix(fctx: &str) -> (s: String)
    ensures
        s@ == slot_suffix_spec(fctx@),
{
    if fctx.unicode_len() == 0 {
        String::new()
    } else {
        let mut s = String::from_str("@");
        s.append(fctx);
        s
    }
}

/// The id of a `(node, fctx)` slot record within a run: `{run}:{node}` for the empty context,
/// `{run}:{node}@{fctx}` otherwise.
pub fn step_record_id(run_id: &str, node_id: &str, fctx: &str) -> (s: String)
    ensures
        s@ == run_id@ + ":"@ + node_id@ + slot_suffix_spec(fctx@),
{
    let mut s = String::from_str(run_id);
    s.append(":");
    s.append(node_id);
    let suffix = slot_suffix(fctx);
    s.append(suffix.as_str());
    s
}

/// The id of a per-node record within a flow (trigger cursor, node memory, buffer): `{flow}:{node}`.
pub fn node_scoped_id(flow_id: &str, node_id: &str) -> (s: String)
    ensures
        s@ == flow_id@ + ":"@ + node_id@,
{
    let mut s = String::from_str(flow_id);
    s.append(":");
    s.append(node_id);
    s
}

/// The inbox item id an approval gate parks on: `flow-approval:{run}:{node}`.
pub fn gate_item_id(run_id: &str, node_id: &str) -> (s: String)
    ensures
        s@ == "flow-approval:"@ + run_id@ + ":"@ + node_id@,
{
    let mut s = String::from_str("flow-approval:");
    s.append(run_id);
    s.append(":");
    s.append(node_id);
    s
}

/// The run id of a cron firing: `{flow}-cron-{scheduled_ts}`.
pub fn cron_run_id(flow_id: &str, scheduled_ts: u64) -> (s: String)
    ensures
        s@ == flow_id@ + "-cron-"@ + decimal(scheduled_ts as nat),
{
    let mut s = String::from_str(flow_id);
    s.append("-cron-");
    push_decimal(&mut s, scheduled_ts);
    s
}

/// `{flow}{infix}{node}-{n}`: the shape shared by the per-node firing ids.
fn node_firing_id(flow_id: &str, infix: &str, node_id: &str, n: u64) -> (s: String)
    ensures
        s@ == flow_id@ + infix@ + node_id@ + "-"@ + decimal(n as nat),
{
    let mut s = String::from_str(flow_id);
    s.append(infix);
    s.append(node_id);
    s.append("-");
    push_decimal(&mut s, n);
    s
}

/// The run id of a flip-flop firing: `{flow}-flip-{node}-{scheduled_ts}`.
pub fn flipflop_run_id(flow_id: &str, node_id: &str, scheduled_ts: u64) -> (s: String)
    ensures
        s@ == flow_id@ + "-flip-"@ + node_id@ + "-"@ + decimal(scheduled_ts as nat),
{
    node_firing_id(flow_id, "-flip-", node_id, scheduled_ts)
}

/// The run id of a schedule firing: `{flow}-sched-{node}-{scheduled_ts}`.
pub fn schedule_run_id(flow_id: &str, node_id: &str, scheduled_ts: u64) -> (s: String)
    ensures
        s@ == flow_id@ + "-sched-"@ + node_id@ + "-"@ + decimal(scheduled_ts as nat),
{
    node_firing_id(flow_id, "-sched-", node_id, scheduled_ts)
}

/// The run id of a webhook-source firing: `{flow}-hook-{node}-{seq}`.
pub fn source_run_id(flow_id: &str, node_id: &str, seq: u64) -> (s: String)
    ensures
        s@ == flow_id@ + "-hook-"@ + node_id@ + "-"@ + decimal(seq as nat),
{
    node_firing_id(flow_id, "-hook-", node_id, seq)
}

/// The child run id of a subflow: `subflow:{spec}:{now}`.
pub fn child_run_id(spec: &str, now: u64) -> (s: String)
    ensures
        s@ == "subflow:"@ + spec@ + ":"@ + decimal(now as nat),
{
    let mut s = String::from_str("subflow:");
    s.append(spec);
    s.append(":");
    push_decimal(&mut s, now);
    s
}

/// A default run id from a flow id and the logical time: `{flow}-run-{now}`.
pub fn default_run_id(flow_id: &str, now: u64) -> (s: String)
    ensures
        s@ == flow_id@ + "-run-"@ + decimal(now as nat),
{
    let mut s = String::from_str(flow_id);
    s.append("-run-");
    push_decimal(&mut s, now);
    s
}

/// The workspace-relative subject of a flow's debug stream: `flow/{flow}/debug`.
pub fn flow_debug_subject(flow_id: &str) -> (s: String)
    ensures
        s@ == "flow/"@ + flow_id@ + "/debug"@,
{
    let mut s = String::from_str("flow/");
    s.append(flow_id);
    s.append("/debug");
    s
}

/// The workspace-relative subject of a run's settle feed: `flow/{run}/events`.
pub fn flow_run_subject(run_id: &str) -> (s: String)
    ensures
        s@ == "flow/"@ + run_id@ + "/events"@,
{
    let mut s = String::from_str("flow/");
    s.append(run_id);
    s.append("/events");
    s
}

/// The series a source node's events land on: `flow:{ws}:{flow}:{node}`.
pub fn source_series(ws: &str, flow_id: &str, node_id: &str) -> (s: String)
    ensures
        s@ == "flow:"@ + ws@ + ":"@ + flow_id@ + ":"@ + node_id@,
{
    let mut s = String::from_str("flow:");
    s.append(ws);
    s.append(":");
    s.append(flow_id);
    s.append(":");
    s.append(node_id);
    s
}

/// The index of the last `c` in `s`, if any.
pub open spec fn last_index_of(s: Seq<char>, c: char) -> Option<int>
    decreases s.len(),
{
    if s.len() == 0 {
        None
    } else if s.last() == c {
        Some(s.len() - 1)
    } else {
        last_index_of(s.drop_last(), c)
    }
}

proof fn lemma_last_index_of(s: Seq<char>, c: char)
    ensures
        match last_index_of(s, c) {
            Some(i) => 0 <= i < s.len() && s[i] == c && forall|j: int| i < j < s.len() ==> s[j] != c,
            None => forall|j: int| 0 <= j < s.len() ==> s[j] != c,
        },
    decreases s.len(),
{
    if s.len() > 0 && s.last() != c {
        let t = s.drop_last();
        lemma_last_index_of(t, c);
        assert forall|j: int| 0 <= j < t.len() implies t[j] == s[j] by {}
    }
}

/// The run id an approval gate item belongs to: strip the `flow-approval:` prefix, then take
/// everything before the LAST colon (a run id may itself hold colons; a node id never does).
/// `None` when the prefix is absent or no colon follows it.
pub open spec fn run_of_spec(item_id: Seq<char>) -> Option<Seq<char>> {
    let p = "flow-approval:"@;
    if !has_prefix(item_id, p) {
        None
    } else {
        let rest = item_id.subrange(p.len() as int, item_id.len() as int);
        match last_index_of(rest, ':') {
            Some(i) => Some(rest.subrange(0, i)),
            None => None,
        }
    }
}

/// Recover the run id from an approval gate item id (see [`run_of_spec`]).
pub fn run_of(item_id: &str) -> (r: Option<String>)
    ensures
        match r {
            Some(s) => run_of_spec(item_id@) == Some(s@),
            None => run_of_spec(item_id@).is_none(),
        },
{
    let p = "flow-approval:";
    if !starts_with(item_id, p) {
        return None;
    }
    let n = item_id.unicode_len();
    let start = p.unicode_len();
    let ghost rest = item_id@.subrange(start as int, n as int);
    let mut i = n;
    while i > start
        invariant
            start <= i <= n,
            n == item_id@.len(),
            start == p@.len(),
            p@ == "flow-approval:"@,
            has_prefix(item_id@, p@),
            rest == item_id@.subrange(start as int, n as int),
            forall|j: int| i <= j < n ==> item_id@[j] != ':',
        decreases i,
    {
        if item_id.get_char(i - 1) == ':' {
            let r = item_id.substring_char(start, i - 1);
            proof {
                lemma_last_index_of(rest, ':');
                let k = (i - 1 - start) as int;
                assert(rest[k] == ':');
                assert forall|j: int| k < j < rest.len() implies rest[j] != ':' by {
                    assert(rest[j] == item_id@[start + j]);
                }
                match last_index_of(rest, ':') {
                    Some(m) => {
                        assert(m == k);
                    },
                    None => {
                        assert(false);
                    },
                }
                assert(r@ =~= rest.subrange(0, k));
                assert(has_prefix(item_id@, "flow-approval:"@));
                assert(run_of_spec(item_id@) == Some(rest.subrange(0, k)));
            }
            return Some(String::from_str(r));
        }
        i = i - 1;
    }
    proof {
        lemma_last_index_of(rest, ':');
        assert forall|j: int| 0 <= j < rest.len() implies rest[j] != ':' by {
            assert(rest[j] == item_id@[start + j]);
        }
        match last_index_of(rest, ':') {
            Some(m) => {
                assert(rest[m] == ':');
                assert(false);
            },
            None => {},
        }
    }
    None
}

} // verus!
