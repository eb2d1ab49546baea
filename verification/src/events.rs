//! The motion events a watcher tails: a debug message (or the `dropped` sentinel that replaces a
//! throttled burst), a node settling, and a run finishing.
use vstd::prelude::*;

use crate::json::{get_str, get_u64, Json};

verus! {

/// `j` is the string `s`.
pub open spec fn str_is(j: Json, s: Seq<char>) -> bool {
    j.str_view() == Some(s)
}

fn entry(m: &mut Vec<(String, Json)>, k: &str, v: Json)
    ensures
        final(m)@.len() == old(m)@.len() + 1,
        forall|i: int| 0 <= i < old(m)@.len() ==> final(m)@[i] == old(m)@[i],
        final(m)@[old(m)@.len() as int].0@ == k@,
        final(m)@[old(m)@.len() as int].1 == v,
{
    m.push((String::from_str(k), v));
}

/// A debug message: `kind: debug`, the attribution (`node`, `runId`, `ts`), the resolved `format`,
/// the `value`, the `label` and the `collapseBytes` hint.
pub fn debug_message(node_id: &str, run_id: &str, ts: u64, format: &str, value: Json, label: &str, collapse_bytes: u64) -> (e: Json)
    ensures
        e matches Json::Object(m) && (m@.len() == 8
            && m@[0].0@ == "kind"@ && str_is(m@[0].1, "debug"@)
            && m@[1].0@ == "node"@ && str_is(m@[1].1, node_id@)
            && m@[2].0@ == "runId"@ && str_is(m@[2].1, run_id@)
            && m@[3].0@ == "ts"@ && m@[3].1 == Json::UInt(ts)
            && m@[4].0@ == "format"@ && str_is(m@[4].1, format@)
            && m@[5].0@ == "value"@ && m@[5].1 == value
            && m@[6].0@ == "label"@ && str_is(m@[6].1, label@)
            && m@[7].0@ == "collapseBytes"@ && m@[7].1 == Json::UInt(collapse_bytes)),
{
    let mut m: Vec<(String, Json)> = Vec::new();
    entry(&mut m, "kind", Json::string("debug"));
    entry(&mut m, "node", Json::string(node_id));
    entry(&mut m, "runId", Json::string(run_id));
    entry(&mut m, "ts", Json::UInt(ts));
    entry(&mut m, "format", Json::string(format));
    entry(&mut m, "value", value);
    entry(&mut m, "label", Json::string(label));
    entry(&mut m, "collapseBytes", Json::UInt(collapse_bytes));
    Json::Object(m)
}

/// A `dropped` sentinel: the same attribution and label, and the count of dropped messages in place
/// of a value.
pub fn dropped_event(node_id: &str, run_id: &str, ts: u64, label: &str, dropped: u64) -> (e: Json)
    ensures
        e matches Json::Object(m) && (m@.len() == 6
            && m@[0].0@ == "kind"@ && str_is(m@[0].1, "dropped"@)
            && m@[1].0@ == "node"@ && str_is(m@[1].1, node_id@)
            && m@[2].0@ == "runId"@ && str_is(m@[2].1, run_id@)
            && m@[3].0@ == "ts"@ && m@[3].1 == Json::UInt(ts)
            && m@[4].0@ == "label"@ && str_is(m@[4].1, label@)
            && m@[5].0@ == "dropped"@ && m@[5].1 == Json::UInt(dropped)),
{
    let mut m: Vec<(String, Json)> = Vec::new();
    entry(&mut m, "kind", Json::string("dropped"));
    entry(&mut m, "node", Json::string(node_id));
    entry(&mut m, "runId", Json::string(run_id));
    entry(&mut m, "ts", Json::UInt(ts));
    entry(&mut m, "label", Json::string(label));
    entry(&mut m, "dropped", Json::UInt(dropped));
    Json::Object(m)
}

/// A node-settled event: `kind: node-settled`, the node `id`, its `outcome`, its `output`, and its
/// `error` (null when none).
pub fn node_settled_event(node_id: &str, outcome: &str, output: Json, error: Option<&str>) -> (e: Json)
    ensures
        e matches Json::Object(m) && (m@.len() == 5
            && m@[0].0@ == "kind"@ && str_is(m@[0].1, "node-settled"@)
            && m@[1].0@ == "id"@ && str_is(m@[1].1, node_id@)
            && m@[2].0@ == "outcome"@ && str_is(m@[2].1, outcome@)
            && m@[3].0@ == "output"@ && m@[3].1 == output
            && m@[4].0@ == "error"@ && match error {
                Some(x) => str_is(m@[4].1, x@),
                None => m@[4].1 == Json::Null,
            }),
{
    let mut m: Vec<(String, Json)> = Vec::new();
    entry(&mut m, "kind", Json::string("node-settled"));
    entry(&mut m, "id", Json::string(node_id));
    entry(&mut m, "outcome", Json::string(outcome));
    entry(&mut m, "output", output);
    let err = match error {
        Some(x) => Json::string(x),
        None => Json::Null,
    };
    entry(&mut m, "error", err);
    Json::Object(m)
}

/// A run-finished event: `kind: run-finished` and the terminal `status`.
pub fn run_finished_event(status: &str) -> (e: Json)
    ensures
        e matches Json::Object(m) && (m@.len() == 2
            && m@[0].0@ == "kind"@ && str_is(m@[0].1, "run-finished"@)
            && m@[1].0@ == "status"@ && str_is(m@[1].1, status@)),
{
    let mut m: Vec<(String, Json)> = Vec::new();
    entry(&mut m, "kind", Json::string("run-finished"));
    entry(&mut m, "status", Json::string(status));
    Json::Object(m)
}

/// The debug node's settings: the label (the configured non-empty label, else the node id), the
/// collapse hint (configured, else the default), and the rate limit (configured and positive, else
/// the default).
pub fn debug_settings(config: &Json, node_id: &str, default_collapse: u64, default_rate: u64) -> (r: (String, u64, u64))
    ensures
        r.0@ == match crate::json::str_field(*config, "label"@) {
            Some(l) if l.len() > 0 => l,
            _ => node_id@,
        },
        r.1 == match crate::json::u64_field(*config, "collapse_bytes"@) {
            Some(c) => c,
            None => default_collapse,
        },
        r.2 == match crate::json::u64_field(*config, "rate_limit"@) {
            Some(v) if v > 0 => v,
            _ => default_rate,
        },
{
    let label = match get_str(config, "label") {
        Some(l) if l.unicode_len() > 0 => String::from_str(l),
        _ => String::from_str(node_id),
    };
    let collapse = match get_u64(config, "collapse_bytes") {
        Some(c) => c,
        None => default_collapse,
    };
    let rate = match get_u64(config, "rate_limit") {
        Some(v) if v > 0 => v,
        _ => default_rate,
    };
    (label, collapse, rate)
}

} // verus!
