//! Executing one node: which leg a node type dispatches to, and the legs that only compute over the
//! incoming message (the entry-node emission, `count`, the `counter` delta, the `tool` argument
//! merge, the rule-result projection, the `json` node, the `switch` pass-through, payload sizing),
//! the carry a firing keeps (a `join` consumes `parts`), and the outcome of a dispatch that outlived
//! its timeout.
use vstd::prelude::*;

use crate::json::{entries_insert, entries_insert_exec, entries_take, lookup, object1, str_eq, Json};
use crate::run_store::NodeOutcome;

verus! {

/// The leg a node type dispatches to.
#[derive(Clone, Copy, Debug, PartialEq, Eq, Structural)]
pub enum Leg {
    /// An extension node: its bound tool, under the caller's authority.
    Extension,
    /// The pure data/JSON pack (`change` ... `base64`, `split`, `join`).
    Pure,
    /// An entry node (`trigger`, `flipflop`, `webhook`): emits the firing value.
    Entry,
    Tool,
    Rhai,
    Rule,
    Count,
    JsonConvert,
    Counter,
    Sink,
    Subflow,
    Filter,
    Unique,
    Batch,
    /// `switch` passes the envelope through; routing gates its dependents afterwards.
    SwitchPass,
    Delay,
    Debug,
    Approval,
    /// A built-in type with no leg: the node fails.
    Unknown,
}

/// The node types of the pure data/JSON pack.
pub open spec fn is_pure_type(t: Seq<char>) -> bool {
    t == "change"@ || t == "select"@ || t == "merge"@ || t == "map"@ || t == "flatten"@ || t
        == "sort"@ || t == "range"@ || t == "aggregate"@ || t == "template"@ || t == "csv"@ || t
        == "xml"@ || t == "yaml"@ || t == "base64"@ || t == "split"@ || t == "join"@
}

/// The leg of a node type (`builtin` says whether the type is a built-in one).
pub open spec fn leg_of(t: Seq<char>, builtin: bool) -> Leg {
    if !builtin {
        Leg::Extension
    } else if is_pure_type(t) {
        Leg::Pure
    } else if t == "trigger"@ || t == "flipflop"@ || t == "webhook"@ {
        Leg::Entry
    } else if t == "tool"@ {
        Leg::Tool
    } else if t == "rhai"@ {
        Leg::Rhai
    } else if t == "rule"@ {
        Leg::Rule
    } else if t == "count"@ {
        Leg::Count
    } else if t == "json"@ {
        Leg::JsonConvert
    } else if t == "counter"@ {
        Leg::Counter
    } else if t == "sink"@ {
        Leg::Sink
    } else if t == "subflow"@ {
        Leg::Subflow
    } else if t == "filter"@ {
        Leg::Filter
    } else if t == "unique"@ {
        Leg::Unique
    } else if t == "batch"@ {
        Leg::Batch
    } else if t == "switch"@ {
        Leg::SwitchPass
    } else if t == "delay"@ {
        Leg::Delay
    } else if t == "debug"@ {
        Leg::Debug
    } else if t == "approval"@ {
        Leg::Approval
    } else {
        Leg::Unknown
    }
}

/// Is `t` one of the pure pack's node types?
pub fn is_pure(t: &str) -> (b: bool)
    ensures
        b == is_pure_type(t@),
{
    str_eq(t, "change") || str_eq(t, "select") || str_eq(t, "merge") || str_eq(t, "map") || str_eq(
        t,
        "flatten",
    ) || str_eq(t, "sort") || str_eq(t, "range") || str_eq(t, "aggregate") || str_eq(t, "template")
        || str_eq(t, "csv") || str_eq(t, "xml") || str_eq(t, "yaml") || str_eq(t, "base64")
        || str_eq(t, "split") || str_eq(t, "join")
}

/// The leg a node of type `node_type` dispatches to.
pub fn dispatch_leg(node_type: &str, builtin: bool) -> (l: Leg)
    ensures
        l == leg_of(node_type@, builtin),
{
    let t = node_type;
    if !builtin {
        Leg::Extension
    } else if is_pure(t) {
        Leg::Pure
    } else if str_eq(t, "trigger") || str_eq(t, "flipflop") || str_eq(t, "webhook") {
        Leg::Entry
    } else if str_eq(t, "tool") {
        Leg::Tool
    } else if str_eq(t, "rhai") {
        Leg::Rhai
    } else if str_eq(t, "rule") {
        Leg::Rule
    } else if str_eq(t, "count") {
        Leg::Count
    } else if str_eq(t, "json") {
        Leg::JsonConvert
    } else if str_eq(t, "counter") {
        Leg::Counter
    } else if str_eq(t, "sink") {
        Leg::Sink
    } else if str_eq(t, "subflow") {
        Leg::Subflow
    } else if str_eq(t, "filter") {
        Leg::Filter
    } else if str_eq(t, "unique") {
        Leg::Unique
    } else if str_eq(t, "batch") {
        Leg::Batch
    } else if str_eq(t, "switch") {
        Leg::SwitchPass
    } else if str_eq(t, "delay") {
        Leg::Delay
    } else if str_eq(t, "debug") {
        Leg::Debug
    } else if str_eq(t, "approval") {
        Leg::Approval
    } else {
        Leg::Unknown
    }
}

/// The failure an unknown built-in type settles with.
pub fn unknown_type_error(node_type: &str) -> (s: String)
    ensures
        s@ == "unknown built-in node type: "@ + node_type@,
{
    crate::text::concat2("unknown built-in node type: ", node_type)
}

/// The "size" of a payload for `count`/`counter`: array length, object key count, zero for null or
/// absent, one for any scalar.
pub open spec fn payload_size_spec(payload: Option<Json>) -> nat {
    match payload {
        Some(Json::Array(a)) => a@.len(),
        Some(Json::Object(m)) => m@.len(),
        None => 0,
        Some(Json::Null) => 0,
        Some(_) => 1,
    }
}

/// The size of a payload (see [`payload_size_spec`]).
pub fn payload_size(payload: Option<&Json>) -> (n: u64)
    ensures
        payload matches Some(p) && (*p is Str || *p is Bool || *p is UInt || *p is Int || *p is Float) ==> n == 1,
        payload is None || (payload matches Some(p) && *p is Null) ==> n == 0,
        n == payload_size_spec(
            match payload {
                Some(p) => Some(*p),
                None => None,
            },
        ),
{
    match payload {
        Some(Json::Array(a)) => a.len() as u64,
        Some(Json::Object(m)) => m.len() as u64,
        None => 0,
        Some(Json::Null) => 0,
        Some(_) => 1,
    }
}

/// The `count` node: emits `{payload: <size of the incoming payload>}`.
pub fn count_leg(inputs: &Vec<(String, Json)>) -> (o: NodeOutcome)
    ensures
        o matches NodeOutcome::Emitted { emitted, carry } && carry == Json::Null && emitted.field(
            "payload"@,
        ) == Some(Json::UInt(payload_size_spec(lookup(inputs@, "payload"@)) as u64)),
{
    let size = payload_size(crate::json::entries_get(inputs, "payload"));
    let emitted = object1("payload", Json::UInt(size));
    proof {
        crate::json::lemma_object1_field(emitted, "payload"@, Json::UInt(size), "payload"@);
    }
    NodeOutcome::ok(emitted)
}

/// The entry node's firing value: the value the reactor placed in params under this node's id,
/// else the incoming `payload`, else the whole incoming message.
pub open spec fn entry_payload(node_id: Seq<char>, inputs: Seq<(String, Json)>, params: Seq<(String, Json)>, whole: Json) -> Json {
    match lookup(params, node_id) {
        Some(v) => v,
        None => match lookup(inputs, "payload"@) {
            Some(p) => p,
            None => whole,
        },
    }
}

/// The entry node (`trigger`/`flipflop`/`webhook`): emits `{payload, topic?}` where `payload` is the
/// firing value (see [`entry_payload`]) and `topic` is the node's configured topic when set and not
/// null. `whole` is the incoming message as one object (read only when neither is present).
pub fn entry_leg(
    node_id: &str,
    topic: Option<Json>,
    mut inputs: Vec<(String, Json)>,
    mut params: Vec<(String, Json)>,
    whole: Json,
) -> (o: NodeOutcome)
    ensures
        o matches NodeOutcome::Emitted { emitted, carry } && carry == Json::Null && emitted.field(
            "payload"@,
        ) == Some(entry_payload(node_id@, inputs@, params@, whole)) && emitted.field("topic"@) == (
        match topic {
            Some(Json::Null) => None,
            t => t,
        }),
        o matches NodeOutcome::Emitted { emitted, .. } && emitted matches Json::Object(m) && m@.len() == (
        match topic {
            Some(Json::Null) => 1int,
            Some(_) => 2int,
            None => 1int,
        }),
{
    let ghost g_inputs = inputs@;
    let ghost g_params = params@;
    let payload = match entries_take(&mut params, node_id) {
        Some(v) => v,
        None => match entries_take(&mut inputs, "payload") {
            Some(p) => p,
            None => whole,
        },
    };
    let mut emitted: Vec<(String, Json)> = Vec::new();
    let ghost e0 = emitted@;
    entries_insert_exec(&mut emitted, String::from_str("payload"), payload);
    let ghost e1 = emitted@;
    let ghost g_payload = entry_payload(node_id@, g_inputs, g_params, whole);
    proof {
        crate::json::lemma_insert_lookup(e0, e1[0].0, g_payload, "payload"@);
        crate::json::lemma_insert_lookup(e0, e1[0].0, g_payload, "topic"@);
        reveal_strlit("payload");
        reveal_strlit("topic");
        assert("payload"@.len() != "topic"@.len());
        assert("payload"@ != "topic"@);
    }
    match topic {
        Some(Json::Null) => {},
        Some(t) => {
            let ghost gt = t;
            let key = String::from_str("topic");
            let ghost gk = key;
            entries_insert_exec(&mut emitted, key, t);
            proof {
                crate::json::lemma_key_index(e1, "topic"@);
                crate::json::lemma_insert_lookup(e1, gk, gt, "payload"@);
                crate::json::lemma_insert_lookup(e1, gk, gt, "topic"@);
            }
        },
        None => {},
    }
    NodeOutcome::ok(Json::Object(emitted))
}

/// The `counter` node's increment: the payload size in `throughput` mode, else the configured step
/// (default 1); `reset` zeroes the total before the add.
pub open spec fn counter_by(mode: Option<Seq<char>>, step: Option<i64>, size: nat) -> int {
    if mode == Some("throughput"@) {
        size as i64 as int
    } else {
        match step {
            Some(s) => s as int,
            None => 1,
        }
    }
}

/// The `counter` node's delta (see [`counter_by`]): `mode` and `step` as configured.
pub fn counter_delta(mode: Option<&str>, step: Option<i64>, payload: Option<&Json>) -> (by: i64)
    ensures
        by == counter_by(
            match mode {
                Some(m) => Some(m@),
                None => None,
            },
            step,
            payload_size_spec(
                match payload {
                    Some(p) => Some(*p),
                    None => None,
                },
            ),
        ),
{
    let throughput = match mode {
        Some(m) => str_eq(m, "throughput"),
        None => false,
    };
    if throughput {
        let size = payload_size(payload);
        size as i64
    } else {
        match step {
            Some(s) => s,
            None => 1,
        }
    }
}

/// `timeout_ms` applies only when set and positive.
pub fn effective_timeout(timeout_ms: Option<u64>) -> (t: Option<u64>)
    ensures
        t == match timeout_ms {
            Some(ms) if ms > 0 => Some(ms),
            _ => None,
        },
{
    match timeout_ms {
        Some(ms) if ms > 0 => Some(ms),
        _ => None,
    }
}

/// Insert every entry of `adds` into `base`, in order.
pub open spec fn merged_entries(base: Seq<(String, Json)>, adds: Seq<(String, Json)>) -> Seq<(String, Json)> {
    crate::run_store::insert_all(base, adds)
}

/// Merge the `tool` node's configured `args` with an object payload: each payload entry is
/// inserted over the args (a payload key wins). Args that are absent count as an empty object; args
/// that are not an object, or a payload that is not an object, leave the args as they are.
pub fn merge_tool_args(args: Option<Json>, payload: Option<Json>) -> (r: Json)
    ensures
        match (args, payload) {
            (None, Some(Json::Object(p))) => r matches Json::Object(m) && m@ == merged_entries(
                Seq::empty(),
                p@,
            ),
            (None, _) => r matches Json::Object(m) && m@.len() == 0,
            (Some(Json::Object(a)), Some(Json::Object(p))) => r matches Json::Object(m) && m@
                == merged_entries(a@, p@),
            (Some(a), _) => r == a,
        },
{
    let base = match args {
        Some(a) => a,
        None => Json::Object(Vec::new()),
    };
    match base {
        Json::Object(mut m) => {
            match payload {
                Some(Json::Object(mut p)) => {
                    let ghost start = m@;
                    let ghost all = p@;
                    while p.len() > 0
                        invariant
                            crate::run_store::insert_all(m@, p@) == crate::run_store::insert_all(
                                start,
                                all,
                            ),
                        decreases p.len(),
                    {
                        let ghost before_p = p@;
                        let (k, v) = p.remove(0);
                        assert(p@ =~= before_p.drop_first());
                        entries_insert_exec(&mut m, k, v);
                    }
                    Json::Object(m)
                },
                _ => Json::Object(m),
            }
        },
        other => other,
    }
}

/// Unwrap a serialized rule output: `{kind: "scalar", value}` gives `value` (null when absent);
/// `{kind: "grid", columns, rows}` gives `{columns, rows}` (each null when absent); anything else
/// passes through; an absent output is null.
pub fn unwrap_rule_output(v: Option<Json>) -> (r: Json)
    ensures
        match v {
            None => r == Json::Null,
            Some(v) => match crate::json::str_field(v, "kind"@) {
                Some(k) if k == "scalar"@ => r == match v.field("value"@) {
                    Some(x) => x,
                    None => Json::Null,
                },
                Some(k) if k == "grid"@ => r matches Json::Object(m) && lookup(m@, "columns"@)
                    == Some(
                    match v.field("columns"@) {
                        Some(x) => x,
                        None => Json::Null,
                    },
                ) && lookup(m@, "rows"@) == Some(
                    match v.field("rows"@) {
                        Some(x) => x,
                        None => Json::Null,
                    },
                ),
                _ => r == v,
            },
        },
{
    let v = match v {
        None => return Json::Null,
        Some(v) => v,
    };
    let is_scalar;
    let is_grid;
    match crate::json::get_str(&v, "kind") {
        Some(k) => {
            is_scalar = str_eq(k, "scalar");
            is_grid = str_eq(k, "grid");
        },
        None => {
            is_scalar = false;
            is_grid = false;
        },
    }
    if is_scalar {
        v.index_take("value")
    } else if is_grid {
        let ghost gv = v;
        match v {
            Json::Object(mut m) => {
                let ghost e = m@;
                let columns = match entries_take(&mut m, "columns") {
                    Some(c) => c,
                    None => Json::Null,
                };
                proof {
                    assert(columns == match gv.field("columns"@) {
                        Some(x) => x,
                        None => Json::Null,
                    });
                }
                let ghost m1 = m@;
                let rows = match entries_take(&mut m, "rows") {
                    Some(r) => r,
                    None => Json::Null,
                };
                proof {
                    reveal_strlit("columns");
                    reveal_strlit("rows");
                    assert("columns"@.len() != "rows"@.len());
                    assert("columns"@ != "rows"@);
                    lemma_take_other(e, "columns"@, "rows"@);
                    assert(rows == match gv.field("rows"@) {
                        Some(x) => x,
                        None => Json::Null,
                    });
                }
                let mut out: Vec<(String, Json)> = Vec::new();
                let ghost o0 = out@;
                let kc = String::from_str("columns");
                let ghost gkc = kc;
                let ghost gcol = columns;
                entries_insert_exec(&mut out, kc, columns);
                let ghost o1 = out@;
                let kr = String::from_str("rows");
                let ghost gkr = kr;
                let ghost grow = rows;
                entries_insert_exec(&mut out, kr, rows);
                proof {
                    crate::json::lemma_insert_lookup(o0, gkc, gcol, "columns"@);
                    crate::json::lemma_insert_lookup(o1, gkr, grow, "columns"@);
                    crate::json::lemma_insert_lookup(o1, gkr, grow, "rows"@);
                }
                Json::Object(out)
            },
            _ => {
                proof {
                    assert(false);
                }
                Json::Null
            },
        }
    } else {
        v
    }
}

/// Taking key `a` out of an object leaves every other key reading as before.
pub proof fn lemma_take_other(e: Seq<(String, Json)>, a: Seq<char>, b: Seq<char>)
    requires
        a != b,
    ensures
        match crate::json::key_index(e, a) {
            Some(i) => lookup(e.remove(i), b) == lookup(e, b),
            None => true,
        },
{
    crate::json::lemma_key_index(e, a);
    crate::json::lemma_key_index(e, b);
    match crate::json::key_index(e, a) {
        Some(i) => {
            let t = e.remove(i);
            crate::json::lemma_key_index(t, b);
            match crate::json::key_index(e, b) {
                Some(j) => {
                    assert(j != i);
                    let jt = if j < i {
                        j
                    } else {
                        j - 1
                    };
                    assert(t[jt] == e[j]);
                    assert forall|q: int| 0 <= q < jt implies t[q].0@ != b by {
                        if q < i {
                            assert(t[q] == e[q]);
                        } else {
                            assert(t[q] == e[q + 1]);
                        }
                    }
                    crate::json::lemma_lookup_at(t, b, jt);
                },
                None => {
                    match crate::json::key_index(t, b) {
                        Some(q) => {
                            if q < i {
                                assert(t[q] == e[q]);
                            } else {
                                assert(t[q] == e[q + 1]);
                            }
                            assert(false);
                        },
                        None => {},
                    }
                },
            }
        },
        None => {},
    }
}

/// What a `json` node does with its payload.
pub enum JsonStep {
    /// Parse the payload text (invalid JSON fails the node).
    Parse(String),
    /// Write the payload as JSON text (indented when `pretty`).
    Stringify { pretty: bool },
    /// Fail the node with this message.
    Refuse(String),
}

/// The `json` node's step: its mode (default `parse`) decides; `parse` needs a string payload,
/// `stringify` reads `pretty` (default false), and any other mode is refused.
pub fn json_step(config: &Json, payload: &Json) -> (s: JsonStep)
    ensures
        ({
            let mode = match crate::json::str_field(*config, "mode"@) {
                Some(m) => m,
                None => "parse"@,
            };
            if mode == "parse"@ {
                match payload {
                    Json::Str(t) => s matches JsonStep::Parse(u) && u@ == t@,
                    _ => s matches JsonStep::Refuse(m) && m@ == "json.parse: expected a string payload"@,
                }
            } else if mode == "stringify"@ {
                s matches JsonStep::Stringify { pretty } && pretty == match crate::json::bool_field(*config, "pretty"@) {
                    Some(b) => b,
                    None => false,
                }
            } else {
                s matches JsonStep::Refuse(m) && m@ == "json node: unknown mode: "@ + mode
            }
        }),
{
    let mode = match crate::json::get_str(config, "mode") {
        Some(m) => m,
        None => "parse",
    };
    if str_eq(mode, "parse") {
        match payload {
            Json::Str(t) => JsonStep::Parse(t.clone()),
            _ => JsonStep::Refuse(String::from_str("json.parse: expected a string payload")),
        }
    } else if str_eq(mode, "stringify") {
        let pretty = match crate::json::get_bool(config, "pretty") {
            Some(b) => b,
            None => false,
        };
        JsonStep::Stringify { pretty }
    } else {
        JsonStep::Refuse(crate::text::concat2("json node: unknown mode: ", mode))
    }
}

/// The failure of a `json` parse with the parser's message.
pub fn json_parse_error(err: &str) -> (m: String)
    ensures
        m@ == "json.parse: invalid JSON: "@ + err@,
{
    crate::text::concat2("json.parse: invalid JSON: ", err)
}


/// The mode of a `json` node: its configured `mode`, `parse` when unset.
pub open spec fn json_mode(config: Json) -> Seq<char> {
    match crate::json::str_field(config, "mode"@) {
        Some(m) => m,
        None => "parse"@,
    }
}

/// Whether `o` emits exactly `{payload: v}` with no carry.
pub open spec fn emits_payload(o: NodeOutcome, v: Json) -> bool {
    &&& o matches NodeOutcome::Emitted { emitted, carry }
    &&& carry == Json::Null
    &&& emitted matches Json::Object(m)
    &&& m@.len() == 1
    &&& m@[0].0@ == "payload"@
    &&& m@[0].1 == v
}

/// The `json` node: in `parse` mode (the default) a string payload is read as JSON text and emitted
/// as `{payload: <value>}`, invalid text failing with the parser's message and any other payload
/// refused; in `stringify` mode the payload (null when absent) is written as JSON text (indented
/// when `pretty`) and emitted as `{payload: <text>}`; any other mode is refused.
pub fn json_leg(config: &Json, mut inputs: Vec<(String, Json)>) -> (o: NodeOutcome)
    ensures
        ({
            let payload = match lookup(inputs@, "payload"@) {
                Some(p) => p,
                None => Json::Null,
            };
            let mode = json_mode(*config);
            if mode == "parse"@ {
                match payload {
                    Json::Str(t) => match crate::json_text::json_text_value(t@) {
                        Ok(v) => emits_payload(o, v),
                        Err(e) => o matches NodeOutcome::Failed(m) && m@ == "json.parse: invalid JSON: "@ + e,
                    },
                    _ => o matches NodeOutcome::Failed(m) && m@ == "json.parse: expected a string payload"@,
                }
            } else if mode == "stringify"@ {
                let pretty = match crate::json::bool_field(*config, "pretty"@) {
                    Some(b) => b,
                    None => false,
                };
                let written = if pretty {
                    crate::json_text::json_pretty_of(payload)
                } else {
                    crate::json_text::json_compact_of(payload)
                };
                exists|s: String| s@ == written && #[trigger] emits_payload(o, Json::Str(s))
            } else {
                o matches NodeOutcome::Failed(m) && m@ == "json node: unknown mode: "@ + mode
            }
        }),
{
    let payload = match entries_take(&mut inputs, "payload") {
        Some(p) => p,
        None => Json::Null,
    };
    match json_step(config, &payload) {
        JsonStep::Parse(text) => {
            json_parse_outcome(crate::json_text::parse_json_text(text.as_str()))
        },
        JsonStep::Stringify { pretty } => {
            let t = if pretty {
                crate::json_text::pretty_json_text(&payload)
            } else {
                crate::json_text::compact_json_text(&payload)
            };
            let ghost gt = t;
            let o = NodeOutcome::ok(object1("payload", Json::Str(t)));
            assert(emits_payload(o, Json::Str(gt)));
            o
        },
        JsonStep::Refuse(m) => NodeOutcome::Failed(m),
    }
}

/// The `json` node's outcome given what reading its payload text gave: the value read, emitted as
/// `{payload: <value>}`, or the failure carrying the parser's message.
pub fn json_parse_outcome(parsed: Result<Json, String>) -> (o: NodeOutcome)
    ensures
        match parsed {
            Ok(v) => emits_payload(o, v),
            Err(e) => o matches NodeOutcome::Failed(m) && m@ == "json.parse: invalid JSON: "@ + e@,
        },
{
    match parsed {
        Ok(v) => {
            let o = NodeOutcome::ok(object1("payload", v));
            assert(emits_payload(o, v));
            o
        },
        Err(e) => NodeOutcome::Failed(json_parse_error(e.as_str())),
    }
}

/// The carry a node's firing keeps: a `join` consumes the sequence `parts`, so every `parts` entry
/// leaves its carry; any other node keeps its carry as it is.
pub fn firing_carry(node_type: &str, carry: Vec<(String, Json)>) -> (r: Vec<(String, Json)>)
    ensures
        node_type@ != "join"@ ==> r == carry,
        node_type@ == "join"@ ==> lookup(r@, "parts"@).is_none() && forall|k: Seq<char>|
            k != "parts"@ ==> #[trigger] lookup(r@, k) == lookup(carry@, k),
{
    if !str_eq(node_type, "join") {
        return carry;
    }
    let mut c = carry;
    let ghost orig = c@;
    let mut done = false;
    while !done
        invariant
            done ==> lookup(c@, "parts"@).is_none(),
            forall|k: Seq<char>| k != "parts"@ ==> #[trigger] lookup(c@, k) == lookup(orig, k),
        decreases c@.len() + if done {
            0int
        } else {
            1int
        },
    {
        let ghost before = c@;
        let taken = entries_take(&mut c, "parts");
        proof {
            crate::json::lemma_key_index(before, "parts"@);
            assert forall|k: Seq<char>| k != "parts"@ implies #[trigger] lookup(c@, k) == lookup(orig, k) by {
                lemma_take_other(before, "parts"@, k);
            }
        }
        match taken {
            Some(_) => {},
            None => {
                done = true;
            },
        }
    }
    c
}

/// The outcome of a dispatch that did not finish within the node's timeout: a failure with the
/// message `timeout`, settled like any other failure.
pub fn timed_out_outcome() -> (o: NodeOutcome)
    ensures
        o matches NodeOutcome::Failed(m) && m@ == "timeout"@,
{
    NodeOutcome::Failed(String::from_str("timeout"))
}

/// The `switch` node's own outcome (its routing is done by the edges): it passes the incoming
/// `payload` (null when absent) through, with no carry.
pub fn switch_pass_through(mut inputs: Vec<(String, Json)>) -> (o: NodeOutcome)
    ensures
        emits_payload(
            o,
            match lookup(inputs@, "payload"@) {
                Some(p) => p,
                None => Json::Null,
            },
        ),
{
    let payload = match entries_take(&mut inputs, "payload") {
        Some(p) => p,
        None => Json::Null,
    };
    NodeOutcome::ok(object1("payload", payload))
}

} // verus!
