use flowhost::bindings::{
    insert_each, lineage_recorded, merge_retained_params, message_of, overlay_node_level, port_entry,
    record_trigger, recorded_envelope, resolve_inputs, retained_port_prefix, retained_value, settled_envelope,
    wiring, without_payload, Wiring,
};
use flowhost::json::Json;
use flowhost::records::{ClaimState, FlowStepRecord, SlotOutcome};

fn obj(entries: Vec<(&str, Json)>) -> Json {
    Json::Object(entries.into_iter().map(|(k, v)| (k.to_string(), v)).collect())
}

fn s(v: &str) -> Json {
    Json::Str(v.to_string())
}

fn get<'a>(m: &'a [(String, Json)], k: &str) -> Option<&'a Json> {
    m.iter().find(|(key, _)| key == k).map(|(_, v)| v)
}

fn str_at(m: &[(String, Json)], k: &str) -> Option<String> {
    match get(m, k) {
        Some(Json::Str(x)) => Some(x.clone()),
        _ => None,
    }
}

fn slot(node: &str, fctx: &str, claim: ClaimState, outcome: SlotOutcome, output: Json) -> FlowStepRecord {
    FlowStepRecord {
        run_id: "r1".to_string(),
        node_id: node.to_string(),
        claim,
        indegree: 0,
        outcome,
        output,
        findings: Json::Null,
        error: None,
        attempts: 0,
        ms: 0,
        patched_config: None,
        fctx: fctx.to_string(),
        triggered_by: None,
        parent_fctx: None,
    }
}

#[test]
fn the_nearest_lineage_settle_wins() {
    let slots = vec![
        slot("a", "", ClaimState::Done, SlotOutcome::Succeeded, s("root")),
        slot("a", "m1", ClaimState::Done, SlotOutcome::Succeeded, s("nearer")),
        slot("a", "m1.x", ClaimState::Done, SlotOutcome::Succeeded, s("sibling branch")),
        slot("b", "", ClaimState::Running, SlotOutcome::Unset, s("unsettled")),
        slot("c", "", ClaimState::Done, SlotOutcome::Failed, s("failed")),
        slot("d", "m1", ClaimState::Done, SlotOutcome::Succeeded, s("first")),
        slot("d", "m2", ClaimState::Done, SlotOutcome::Succeeded, s("same depth, later")),
    ];
    // `m1.x` is not an ancestor of the firing's context; everything else is.
    let in_lineage = vec![true, true, false, true, true, true, true];
    let recorded = lineage_recorded(slots, &in_lineage);
    assert_eq!(recorded.len(), 2);
    assert_eq!(str_at(&recorded, "a").as_deref(), Some("nearer"));
    assert_eq!(str_at(&recorded, "d").as_deref(), Some("first"));
    assert!(get(&recorded, "b").is_none());
    assert!(get(&recorded, "c").is_none());
}

#[test]
fn a_triggered_firing_reads_only_a_settled_envelope() {
    let ok = slot("up", "f1", ClaimState::Done, SlotOutcome::Succeeded, obj(vec![("payload", Json::UInt(3))]));
    assert!(matches!(settled_envelope(Some(ok)), Json::Object(m) if m.len() == 1));
    let running = slot("up", "f1", ClaimState::Running, SlotOutcome::Unset, Json::UInt(3));
    assert!(matches!(settled_envelope(Some(running)), Json::Null));
    assert!(matches!(settled_envelope(None), Json::Null));
}

#[test]
fn non_object_envelopes_wire_in_as_payload() {
    let m = message_of(Json::UInt(7));
    assert_eq!(m.len(), 1);
    assert!(matches!(get(&m, "payload"), Some(Json::UInt(7))));
    let m = message_of(obj(vec![("payload", Json::Bool(true)), ("topic", s("t"))]));
    assert_eq!(m.len(), 2);
    assert_eq!(str_at(&m, "topic").as_deref(), Some("t"));
}

#[test]
fn wiring_follows_the_trigger_the_upstreams_and_the_payload_binding() {
    let one = vec!["a".to_string()];
    let two = vec!["a".to_string(), "b".to_string()];
    let none: Vec<(String, Json)> = vec![];
    let binds = vec![("payload".to_string(), s("${steps.a.payload}"))];
    assert!(matches!(wiring(Some("a"), &two, &binds), Wiring::Triggered(u) if u == "a"));
    assert!(matches!(wiring(None, &one, &none), Wiring::SingleUpstream(u) if u == "a"));
    assert!(matches!(wiring(None, &one, &binds), Wiring::Explicit { join: false }));
    assert!(matches!(wiring(None, &two, &none), Wiring::Explicit { join: true }));
    assert!(matches!(wiring(None, &vec![], &none), Wiring::Explicit { join: false }));
}

#[test]
fn recorded_envelopes_and_triggers_are_copies() {
    let mut recorded = vec![("a".to_string(), obj(vec![("payload", Json::UInt(1))]))];
    assert!(matches!(recorded_envelope(&recorded, "a"), Json::Object(m) if m.len() == 1));
    assert!(matches!(recorded_envelope(&recorded, "zz"), Json::Null));
    let inputs = vec![("payload".to_string(), Json::UInt(9)), ("topic".to_string(), s("x"))];
    record_trigger(&mut recorded, "up", &inputs);
    assert_eq!(recorded.len(), 2);
    assert!(matches!(get(&recorded, "up"), Some(Json::Object(m)) if m.len() == 2));
    assert_eq!(inputs.len(), 2);
}

#[test]
fn bindings_then_retained_inputs_overlay_the_wired_message() {
    let envelope = obj(vec![("payload", Json::UInt(1)), ("topic", s("wired")), ("kept", s("k"))]);
    let bound = vec![("topic".to_string(), s("bound"))];
    let node_level = Some(obj(vec![("data", obj(vec![("value", Json::UInt(2))]))]));
    let prefix = retained_port_prefix("flow_input", "f1", "n1");
    assert_eq!(prefix, "flow_input:f1:n1:");
    let ports = vec![
        ("flow_input:f1:n1:topic".to_string(), obj(vec![("data", obj(vec![("port", s("topic")), ("value", s("port"))]))])),
        ("flow_input:f1:n2:topic".to_string(), obj(vec![("data", obj(vec![("port", s("topic")), ("value", s("other node"))]))])),
    ];
    let r = resolve_inputs(&Wiring::SingleUpstream("u".into()), envelope, bound, node_level, ports, &prefix);
    assert!(matches!(get(&r.inputs, "payload"), Some(Json::UInt(2))));
    assert_eq!(str_at(&r.inputs, "topic").as_deref(), Some("port"));
    assert_eq!(str_at(&r.inputs, "kept").as_deref(), Some("k"));
    assert!(get(&r.carry, "payload").is_none());
    assert_eq!(str_at(&r.carry, "topic").as_deref(), Some("port"));
    assert_eq!(str_at(&r.carry, "kept").as_deref(), Some("k"));
}

#[test]
fn a_join_carries_nothing_and_an_explicit_firing_ignores_the_envelope() {
    let bound = vec![("payload".to_string(), Json::UInt(5)), ("topic".to_string(), s("t"))];
    let r = resolve_inputs(&Wiring::Explicit { join: true }, obj(vec![("x", Json::UInt(1))]), bound, None, vec![], "p:");
    assert!(matches!(get(&r.inputs, "payload"), Some(Json::UInt(5))));
    assert!(get(&r.inputs, "x").is_none());
    assert!(r.carry.is_empty());
    let bound = vec![("payload".to_string(), Json::UInt(5)), ("topic".to_string(), s("t"))];
    let r = resolve_inputs(&Wiring::Explicit { join: false }, Json::Null, bound, None, vec![], "p:");
    assert_eq!(r.carry.len(), 1);
    assert_eq!(str_at(&r.carry, "topic").as_deref(), Some("t"));
}

#[test]
fn retained_records_and_port_rows() {
    assert!(matches!(retained_value(obj(vec![("data", obj(vec![("value", Json::UInt(4))]))])), Some(Json::UInt(4))));
    assert!(matches!(retained_value(obj(vec![("value", Json::UInt(6))])), Some(Json::UInt(6))));
    assert!(retained_value(Json::UInt(6)).is_none());
    let row = obj(vec![("data", obj(vec![("port", s("p")), ("value", Json::Bool(true))]))]);
    assert!(matches!(port_entry("t:f:n:p", row, "t:f:n:"), Some((p, Json::Bool(true))) if p == "p"));
    let row = obj(vec![("data", obj(vec![("port", s("p")), ("value", Json::Bool(true))]))]);
    assert!(port_entry("t:f:other:p", row, "t:f:n:").is_none());
    let row = obj(vec![("data", obj(vec![("port", Json::UInt(1)), ("value", Json::Bool(true))]))]);
    assert!(port_entry("t:f:n:p", row, "t:f:n:").is_none());
    let mut inputs = vec![("payload".to_string(), Json::UInt(1))];
    overlay_node_level(&mut inputs, Some(obj(vec![("data", obj(vec![]))])));
    assert!(matches!(get(&inputs, "payload"), Some(Json::UInt(1))));
}

#[test]
fn helpers_insert_and_strip() {
    let mut m = vec![("a".to_string(), Json::UInt(1))];
    insert_each(&mut m, vec![("b".to_string(), Json::UInt(2)), ("a".to_string(), Json::UInt(3))]);
    assert_eq!(m.len(), 2);
    assert!(matches!(get(&m, "a"), Some(Json::UInt(3))));
    let c = without_payload(&vec![("payload".to_string(), Json::UInt(1)), ("topic".to_string(), s("t"))]);
    assert_eq!(c.len(), 1);
    assert_eq!(c[0].0, "topic");
}

#[test]
fn a_run_reads_the_current_retained_values() {
    let mut params = vec![("n1".to_string(), Json::UInt(0))];
    let rows = vec![
        obj(vec![("data", obj(vec![("flow", s("f1")), ("node", s("n1")), ("value", Json::UInt(5))]))]),
        obj(vec![("data", obj(vec![("flow", s("f2")), ("node", s("n2")), ("value", Json::UInt(6))]))]),
        obj(vec![("data", obj(vec![("flow", s("f1")), ("node", s("n3")), ("value", s("on"))]))]),
        obj(vec![("data", obj(vec![("flow", s("f1")), ("node", s("n4"))]))]),
    ];
    merge_retained_params(&mut params, rows, "f1");
    assert_eq!(params.len(), 2);
    assert!(matches!(get(&params, "n1"), Some(Json::UInt(5))));
    assert_eq!(str_at(&params, "n3").as_deref(), Some("on"));
    assert!(get(&params, "n2").is_none());
}

#[test]
fn a_wired_message_holds_each_key_once() {
    // An envelope naming a key twice reads as its first entry, and the message holds it once.
    let envelope = obj(vec![("payload", Json::UInt(1)), ("topic", s("first")), ("topic", Json::Null)]);
    let r = resolve_inputs(&Wiring::SingleUpstream("u".into()), envelope, vec![], None, vec![], "p:");
    let keys: Vec<&str> = r.inputs.iter().map(|(k, _)| k.as_str()).collect();
    assert_eq!(keys, vec!["payload", "topic"]);
    assert_eq!(str_at(&r.inputs, "topic").as_deref(), Some("first"));
    let carried: Vec<&str> = r.carry.iter().map(|(k, _)| k.as_str()).collect();
    assert_eq!(carried, vec!["topic"]);
}
