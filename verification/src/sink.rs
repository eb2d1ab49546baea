//! The `sink` node: which delivery a target names, the destination (the message topic wins over
//! the configured name), the idempotency key of a delivery (scoped by the firing context so each
//! funnel firing is its own delivery), the request each delivery hands its destination, and what a
//! delivered sink emits.
use vstd::prelude::*;

use crate::ids::{slot_suffix, slot_suffix_spec};
use crate::json::{lookup, str_eq, Json};
use crate::json_text::json_compact_of;
use crate::run_store::NodeOutcome;

verus! {

/// Where a sink delivers.
#[derive(Clone, Copy, Debug, PartialEq, Eq, Structural)]
pub enum SinkTarget {
    /// A series point through `ingest.write`.
    Series,
    /// A must-deliver outbox effect.
    Outbox,
    /// An inbox record on a channel.
    Inbox,
}

/// A sink delivery: its target, its destination name, and its idempotency key.
pub struct SinkPlan {
    pub target: SinkTarget,
    pub name: String,
    pub key: String,
}

/// The destination: the message topic when present and non-empty, else the configured name.
pub open spec fn sink_name(config_name: Seq<char>, topic: Option<Seq<char>>) -> Seq<char> {
    match topic {
        Some(t) if t.len() > 0 => t,
        _ => config_name,
    }
}

/// Plan a sink delivery. `series` writes a point, `outbox` stages an effect, `channel`/`inbox`
/// records an inbox item; any other target fails. The key is `{run}:{node}` plus the slot suffix of
/// the firing context.
pub fn sink_plan(
    target: &str,
    config_name: &str,
    topic: Option<&str>,
    run_id: &str,
    node_id: &str,
    fctx: &str,
) -> (r: Result<SinkPlan, String>)
    ensures
        match r {
            Ok(p) => {
                &&& (target@ == "series"@ ==> p.target == SinkTarget::Series)
                &&& (target@ == "outbox"@ ==> p.target == SinkTarget::Outbox)
                &&& (target@ == "channel"@ || target@ == "inbox"@ ==> p.target == SinkTarget::Inbox)
                &&& (target@ == "series"@ || target@ == "outbox"@ || target@ == "channel"@
                    || target@ == "inbox"@)
                &&& p.name@ == sink_name(
                    config_name@,
                    match topic {
                        Some(t) => Some(t@),
                        None => None,
                    },
                )
                &&& p.key@ == run_id@ + ":"@ + node_id@ + slot_suffix_spec(fctx@)
            },
            Err(e) => {
                &&& !(target@ == "series"@ || target@ == "outbox"@ || target@ == "channel"@
                    || target@ == "inbox"@)
                &&& e@ == "sink node has unknown target: "@ + target@
            },
        },
{
    proof {
        reveal_strlit("series");
        reveal_strlit("outbox");
        reveal_strlit("channel");
        reveal_strlit("inbox");
        assert("series"@[0] != "outbox"@[0]);
        assert("series"@.len() != "channel"@.len());
        assert("series"@.len() != "inbox"@.len());
        assert("outbox"@.len() != "channel"@.len());
        assert("outbox"@.len() != "inbox"@.len());
    }
    let t = if str_eq(target, "series") {
        SinkTarget::Series
    } else if str_eq(target, "outbox") {
        SinkTarget::Outbox
    } else if str_eq(target, "channel") || str_eq(target, "inbox") {
        SinkTarget::Inbox
    } else {
        return Err(crate::text::concat2("sink node has unknown target: ", target));
    };
    let name = match topic {
        Some(tp) if tp.unicode_len() > 0 => String::from_str(tp),
        _ => String::from_str(config_name),
    };
    let mut key = String::from_str(run_id);
    key.append(":");
    key.append(node_id);
    let suffix = slot_suffix(fctx);
    key.append(suffix.as_str());
    Ok(SinkPlan { target: t, name, key })
}

/// What a sink hands its destination.
pub enum SinkDelivery {
    /// Call tool `tool` with `request` (its JSON text is the call's argument).
    Tool { tool: String, request: Json },
    /// Stage the outbox effect `id` for `destination` (operation `write`) with `body`.
    Outbox { id: String, destination: String, body: String },
}

/// `j` is the `ingest.write` request for one sample of series `name` at `now` carrying (the same
/// JSON as) `payload`: `{samples: [{series: name, producer: "", ts: now, seq: now, payload}]}`.
pub open spec fn series_request(j: Json, name: Seq<char>, now: u64, payload: Json) -> bool {
    &&& j matches Json::Object(top)
    &&& top@.len() == 1
    &&& top@[0].0@ == "samples"@
    &&& top@[0].1 matches Json::Array(a)
    &&& a@.len() == 1
    &&& a@[0] matches Json::Object(m)
    &&& m@.len() == 5
    &&& m@[0].0@ == "series"@
    &&& m@[0].1 matches Json::Str(s) && s@ == name
    &&& m@[1].0@ == "producer"@
    &&& m@[1].1 matches Json::Str(p) && p@ == ""@
    &&& m@[2].0@ == "ts"@
    &&& m@[2].1 == Json::UInt(now)
    &&& m@[3].0@ == "seq"@
    &&& m@[3].1 == Json::UInt(now)
    &&& m@[4].0@ == "payload"@
    &&& crate::json::same_json(payload, m@[4].1)
}

/// The body of an inbox record: a string payload as it is, anything else as its compact JSON text.
pub open spec fn inbox_body(payload: Json) -> Seq<char> {
    match payload {
        Json::Str(s) => s@,
        _ => json_compact_of(payload),
    }
}

/// `j` is the `inbox.record` request `{channel: name, id: key, body, ts: now}`, the body being the
/// inbox body of `payload`.
pub open spec fn inbox_request(j: Json, name: Seq<char>, key: Seq<char>, payload: Json, now: u64) -> bool {
    &&& j matches Json::Object(m)
    &&& m@.len() == 4
    &&& m@[0].0@ == "channel"@
    &&& m@[0].1 matches Json::Str(c) && c@ == name
    &&& m@[1].0@ == "id"@
    &&& m@[1].1 matches Json::Str(i) && i@ == key
    &&& m@[2].0@ == "body"@
    &&& m@[2].1 matches Json::Str(b) && b@ == inbox_body(payload)
    &&& m@[3].0@ == "ts"@
    &&& m@[3].1 == Json::UInt(now)
}

/// `d` is the delivery of `payload` to `target` under destination `name` and key `key` at `now`:
/// a series sample through `ingest.write`, an outbox effect keyed `key` whose body is the
/// payload's compact JSON text, or an inbox record through `inbox.record`.
pub open spec fn delivery_of(d: SinkDelivery, target: SinkTarget, name: Seq<char>, key: Seq<char>, payload: Json, now: u64) -> bool {
    match target {
        SinkTarget::Series => d matches SinkDelivery::Tool { tool, request } && tool@ == "ingest.write"@
            && series_request(request, name, now, payload),
        SinkTarget::Outbox => d matches SinkDelivery::Outbox { id, destination, body } && id@ == key
            && destination@ == name && body@ == json_compact_of(payload),
        SinkTarget::Inbox => d matches SinkDelivery::Tool { tool, request } && tool@ == "inbox.record"@
            && inbox_request(request, name, key, payload, now),
    }
}

/// Build the delivery a sink plan makes of `payload` at `now` (see [`delivery_of`]).
pub fn sink_delivery(plan: &SinkPlan, payload: &Json, now: u64) -> (d: SinkDelivery)
    ensures
        delivery_of(d, plan.target, plan.name@, plan.key@, *payload, now),
{
    match plan.target {
        SinkTarget::Series => {
            let mut m: Vec<(String, Json)> = Vec::new();
            m.push((String::from_str("series"), Json::Str(plan.name.clone())));
            m.push((String::from_str("producer"), Json::Str(String::from_str(""))));
            m.push((String::from_str("ts"), Json::UInt(now)));
            m.push((String::from_str("seq"), Json::UInt(now)));
            m.push((String::from_str("payload"), payload.duplicate()));
            let mut a: Vec<Json> = Vec::new();
            a.push(Json::Object(m));
            let request = crate::json::object1("samples", Json::Array(a));
            SinkDelivery::Tool { tool: String::from_str("ingest.write"), request }
        },
        SinkTarget::Outbox => {
            let body = crate::json_text::compact_json_text(payload);
            SinkDelivery::Outbox { id: plan.key.clone(), destination: plan.name.clone(), body }
        },
        SinkTarget::Inbox => {
            let body = match payload {
                Json::Str(s) => s.clone(),
                _ => crate::json_text::compact_json_text(payload),
            };
            let mut m: Vec<(String, Json)> = Vec::new();
            m.push((String::from_str("channel"), Json::Str(plan.name.clone())));
            m.push((String::from_str("id"), Json::Str(plan.key.clone())));
            m.push((String::from_str("body"), Json::Str(body)));
            m.push((String::from_str("ts"), Json::UInt(now)));
            SinkDelivery::Tool { tool: String::from_str("inbox.record"), request: Json::Object(m) }
        },
    }
}

/// A delivered sink emits exactly `{payload: p}`, with no carry.
pub fn sink_outcome(payload: Json) -> (o: NodeOutcome)
    ensures
        crate::execute_node::emits_payload(o, payload),
{
    NodeOutcome::ok(crate::json::object1("payload", payload))
}

/// The delivery a target names (`None`: an unknown target).
pub open spec fn target_of(target: Seq<char>) -> Option<SinkTarget> {
    if target == "series"@ {
        Some(SinkTarget::Series)
    } else if target == "outbox"@ {
        Some(SinkTarget::Outbox)
    } else if target == "channel"@ || target == "inbox"@ {
        Some(SinkTarget::Inbox)
    } else {
        None
    }
}

/// A string config field, `""` when absent or not a string.
pub open spec fn str_or_empty(config: Json, k: Seq<char>) -> Seq<char> {
    match crate::json::str_field(config, k) {
        Some(s) => s,
        None => ""@,
    }
}

/// The `sink` node over its config and incoming message: the target and configured name are read
/// from the config (`""` when absent), the topic from the message when it is a string, the payload
/// from the message (null when absent). An unknown target fails; otherwise the delivery is built
/// (see [`delivery_of`]) and, once delivered, the node emits `{payload}`.
pub fn sink_step(
    config: &Json,
    mut inputs: Vec<(String, Json)>,
    run_id: &str,
    node_id: &str,
    fctx: &str,
    now: u64,
) -> (r: Result<(SinkDelivery, NodeOutcome), String>)
    ensures
        ({
            let target = str_or_empty(*config, "target"@);
            let name = sink_name(
                str_or_empty(*config, "name"@),
                match lookup(inputs@, "topic"@) {
                    Some(Json::Str(t)) => Some(t@),
                    _ => None,
                },
            );
            let key = run_id@ + ":"@ + node_id@ + slot_suffix_spec(fctx@);
            let payload = match lookup(inputs@, "payload"@) {
                Some(p) => p,
                None => Json::Null,
            };
            match target_of(target) {
                None => r matches Err(e) && e@ == "sink node has unknown target: "@ + target,
                Some(tg) => r matches Ok((d, o)) && delivery_of(d, tg, name, key, payload, now)
                    && crate::execute_node::emits_payload(o, payload),
            }
        }),
{
    let target = match crate::json::get_str(config, "target") {
        Some(t) => t,
        None => "",
    };
    let config_name = match crate::json::get_str(config, "name") {
        Some(t) => t,
        None => "",
    };
    let topic: Option<String> = match entries_get_str(&inputs, "topic") {
        Some(t) => Some(t),
        None => None,
    };
    let payload = match crate::json::entries_take(&mut inputs, "payload") {
        Some(p) => p,
        None => Json::Null,
    };
    proof {
        reveal_strlit("series");
        reveal_strlit("outbox");
        reveal_strlit("channel");
        reveal_strlit("inbox");
    }
    let plan = match topic {
        Some(t) => sink_plan(target, config_name, Some(t.as_str()), run_id, node_id, fctx),
        None => sink_plan(target, config_name, None, run_id, node_id, fctx),
    };
    let plan = match plan {
        Ok(p) => p,
        Err(e) => {
            return Err(e);
        },
    };
    let d = sink_delivery(&plan, &payload, now);
    Ok((d, sink_outcome(payload)))
}

/// The string under `k` in an object's entries, copied (`None` when absent or not a string).
fn entries_get_str(entries: &Vec<(String, Json)>, k: &str) -> (r: Option<String>)
    ensures
        match lookup(entries@, k@) {
            Some(Json::Str(t)) => r matches Some(u) && u@ == t@,
            _ => r is None,
        },
{
    match crate::json::entries_get(entries, k) {
        Some(Json::Str(t)) => Some(t.clone()),
        _ => None,
    }
}

} // verus!
