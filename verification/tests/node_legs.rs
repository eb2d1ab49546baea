use flowhost::approval::{approval_step, gate_request, ApprovalStep, Resolution};
use flowhost::buffer::{batch_append, dedupe_indices, filter_changed, unique_seen, BATCH_MAX};
use flowhost::concurrency::{fire_decision, live_run_ids, runs_to_cancel, Concurrency, FireDecision, RunRow};
use flowhost::delay::{delay_step, rate_step, DelayStep};
use flowhost::execute_node::{
    count_leg, counter_delta, dispatch_leg, effective_timeout, entry_leg, merge_tool_args, payload_size,
    unknown_type_error, unwrap_rule_output, Leg,
};
use flowhost::json::Json;
use flowhost::nodes::install_tool_names;
use flowhost::run_store::NodeOutcome;
use flowhost::sink::{sink_plan, SinkTarget};
use flowhost::subflow::{ext_call_verb, parse_u32, split_subflow_spec};
use flowhost::switch::{matched_targets, route_dependent, rule_targets, Route, SwitchRule};

fn obj(pairs: Vec<(&str, Json)>) -> Json {
    Json::Object(pairs.into_iter().map(|(k, v)| (k.to_string(), v)).collect())
}

fn strs(v: &[&str]) -> Vec<String> {
    v.iter().map(|s| s.to_string()).collect()
}

fn field<'a>(e: &'a Json, k: &str) -> Option<&'a Json> {
    match e {
        Json::Object(m) => m.iter().find(|(key, _)| key == k).map(|(_, v)| v),
        _ => None,
    }
}

#[test]
fn install_tool_names_extracts_ext_tools() {
    let granted = strs(&["mcp:mqtt.publish:call", "mcp:mqtt.subscribe:call", "mcp:other.x:call", "store:flow:read"]);
    assert_eq!(install_tool_names("mqtt", &granted), vec!["publish".to_string(), "subscribe".to_string()]);
    let granted = strs(&["mcp:mqtt.publish:call", "mcp:mqtt.subscribe"]);
    assert_eq!(install_tool_names("mqtt", &granted), vec!["publish".to_string()]);
}

#[test]
fn dispatch_legs() {
    assert_eq!(dispatch_leg("anything", false), Leg::Extension);
    assert_eq!(dispatch_leg("csv", true), Leg::Pure);
    assert_eq!(dispatch_leg("flipflop", true), Leg::Entry);
    assert_eq!(dispatch_leg("approval", true), Leg::Approval);
    assert_eq!(dispatch_leg("link-in", true), Leg::Unknown);
    assert_eq!(unknown_type_error("link-in"), "unknown built-in node type: link-in");
    assert_eq!(effective_timeout(Some(0)), None);
    assert_eq!(effective_timeout(Some(5)), Some(5));
}

#[test]
fn payload_sizes_and_count() {
    assert_eq!(payload_size(None), 0);
    assert_eq!(payload_size(Some(&Json::Null)), 0);
    assert_eq!(payload_size(Some(&Json::Array(vec![Json::Null, Json::Null]))), 2);
    assert_eq!(payload_size(Some(&obj(vec![("a", Json::Null)]))), 1);
    assert_eq!(payload_size(Some(&Json::Bool(false))), 1);
    match count_leg(&vec![("payload".to_string(), Json::Array(vec![Json::UInt(1), Json::UInt(1), Json::UInt(1)]))]) {
        NodeOutcome::Emitted { emitted, .. } => assert!(matches!(field(&emitted, "payload"), Some(Json::UInt(3)))),
        _ => panic!("expected emission"),
    }
    assert_eq!(counter_delta(Some("throughput"), Some(5), Some(&Json::Array(vec![Json::Null, Json::Null, Json::Null, Json::Null]))), 4);
    assert_eq!(counter_delta(Some("tick"), Some(5), None), 5);
    assert_eq!(counter_delta(None, None, None), 1);
}

#[test]
fn entry_node_prefers_params_then_payload() {
    let inputs = vec![("payload".to_string(), Json::UInt(1))];
    let params = vec![("t1".to_string(), Json::Bool(true))];
    match entry_leg("t1", Some(Json::Str("tp".to_string())), inputs, params, Json::Null) {
        NodeOutcome::Emitted { emitted, .. } => {
            assert!(matches!(field(&emitted, "payload"), Some(Json::Bool(true))));
            assert!(matches!(field(&emitted, "topic"), Some(Json::Str(t)) if t == "tp"));
        }
        _ => panic!("expected emission"),
    }
    let inputs = vec![("payload".to_string(), Json::UInt(1))];
    match entry_leg("t1", Some(Json::Null), inputs, vec![], Json::Null) {
        NodeOutcome::Emitted { emitted, .. } => {
            assert!(matches!(field(&emitted, "payload"), Some(Json::UInt(1))));
            assert!(field(&emitted, "topic").is_none());
        }
        _ => panic!("expected emission"),
    }
}

#[test]
fn tool_args_and_rule_outputs() {
    let args = merge_tool_args(Some(obj(vec![("a", Json::UInt(1)), ("b", Json::UInt(2))])), Some(obj(vec![("b", Json::UInt(3))])));
    assert!(matches!(field(&args, "b"), Some(Json::UInt(3))));
    assert!(matches!(field(&args, "a"), Some(Json::UInt(1))));
    assert!(matches!(merge_tool_args(None, Some(Json::UInt(1))), Json::Object(m) if m.is_empty()));
    let scalar = obj(vec![("kind", Json::Str("scalar".to_string())), ("value", Json::UInt(5))]);
    assert!(matches!(unwrap_rule_output(Some(scalar)), Json::UInt(5)));
    let grid = obj(vec![("kind", Json::Str("grid".to_string())), ("rows", Json::UInt(2))]);
    let g = unwrap_rule_output(Some(grid));
    assert!(matches!(field(&g, "rows"), Some(Json::UInt(2))));
    assert!(matches!(field(&g, "columns"), Some(Json::Null)));
    assert!(matches!(unwrap_rule_output(None), Json::Null));
    assert!(matches!(unwrap_rule_output(Some(Json::UInt(7))), Json::UInt(7)));
}

#[test]
fn sink_routes_and_keys() {
    let p = sink_plan("outbox", "cfg", Some("topic1"), "r", "n", "w").ok().unwrap();
    assert_eq!(p.target, SinkTarget::Outbox);
    assert_eq!(p.name, "topic1");
    assert_eq!(p.key, "r:n@w");
    let p = sink_plan("inbox", "cfg", Some(""), "r", "n", "").ok().unwrap();
    assert_eq!(p.target, SinkTarget::Inbox);
    assert_eq!(p.name, "cfg");
    assert_eq!(p.key, "r:n");
    match sink_plan("nowhere", "cfg", None, "r", "n", "") {
        Err(e) => assert_eq!(e, "sink node has unknown target: nowhere"),
        Ok(_) => panic!("expected refusal"),
    }
}

#[test]
fn approval_gate_steps() {
    assert_eq!(approval_step(Some(Resolution::Approved)), ApprovalStep::Pass);
    assert_eq!(approval_step(Some(Resolution::Rejected)), ApprovalStep::Reject);
    assert_eq!(approval_step(Some(Resolution::Deferred)), ApprovalStep::Park);
    assert_eq!(approval_step(None), ApprovalStep::Park);
    assert_eq!(gate_request(None, Some("ops")), ("approvals".to_string(), "needs:approval route:team:ops".to_string()));
    assert_eq!(gate_request(Some("x"), None), ("x".to_string(), "needs:approval route:team:".to_string()));
}

#[test]
fn delay_and_rate() {
    assert!(matches!(delay_step(None, None, 10), DelayStep::Park { stamp: Some(1010) }));
    assert!(matches!(delay_step(Some(5), Some(1010), 500), DelayStep::Park { stamp: None }));
    assert!(matches!(delay_step(Some(5), Some(1010), 1010), DelayStep::Release));
    assert!(matches!(delay_step(Some(0), None, 7), DelayStep::Release));
    assert!(rate_step(None, None, 0));
    assert!(!rate_step(Some(100), Some(50), 149));
    assert!(rate_step(Some(100), Some(50), 150));
    assert!(rate_step(None, Some(u64::MAX), u64::MAX));
}

#[test]
fn batch_and_unique_buffers() {
    let (stored, released) = batch_append(vec![1, 2], 3, 3);
    assert!(stored.is_empty());
    assert_eq!(released, Some(vec![1, 2, 3]));
    let (stored, released) = batch_append(vec![1], 2, 3);
    assert_eq!(stored, vec![1, 2]);
    assert_eq!(released, None);
    let (_, released) = batch_append(Vec::<u8>::new(), 9, 0);
    assert_eq!(released, Some(vec![9]));
    let (pass, seen) = unique_seen(strs(&["a"]), "a".to_string());
    assert!(!pass);
    assert_eq!(seen, strs(&["a"]));
    let full: Vec<String> = (0..BATCH_MAX).map(|i| i.to_string()).collect();
    let (pass, seen) = unique_seen(full, "new".to_string());
    assert!(pass);
    assert_eq!(seen.len(), BATCH_MAX);
    assert_eq!(seen[0], "1");
    assert_eq!(seen[BATCH_MAX - 1], "new");
    assert_eq!(dedupe_indices(&strs(&["x", "y", "x", "z", "y"])), vec![0, 1, 3]);
    assert!(filter_changed(None, "1"));
    assert!(!filter_changed(Some("1"), "1"));
    assert!(filter_changed(Some("1"), "2"));
}

fn rule(is_else: bool, matched: bool, to: &[&str]) -> SwitchRule {
    SwitchRule { is_else, matched, to: strs(to) }
}

#[test]
fn switch_routes_matched_rules_and_falls_through() {
    let rules = vec![rule(false, true, &["a"]), rule(true, false, &["e"]), rule(false, true, &["b"])];
    let mut fire = matched_targets(&rules, false);
    fire.sort();
    assert_eq!(fire, strs(&["a", "b"]));
    assert_eq!(matched_targets(&rules, true), strs(&["a"]));
    let rules = vec![rule(false, false, &["a"]), rule(true, false, &["e1"]), rule(true, false, &["e2"])];
    let mut fire = matched_targets(&rules, false);
    fire.sort();
    assert_eq!(fire, strs(&["e1", "e2"]));
    assert_eq!(matched_targets(&rules, true), strs(&["e1"]));
    // A target named by two matched rules fires once.
    let rules = vec![rule(false, true, &["a", "b"]), rule(false, true, &["b", "a"])];
    let mut fire = matched_targets(&rules, false);
    fire.sort();
    assert_eq!(fire, strs(&["a", "b"]));
    let sub = strs(&["a", "b"]);
    let fire = strs(&["a"]);
    assert_eq!(route_dependent("a", &sub, &fire), Route::Release);
    assert_eq!(route_dependent("b", &sub, &fire), Route::Gate);
    assert_eq!(route_dependent("c", &sub, &fire), Route::Leave);
    let r = obj(vec![("op", Json::Str("eq".to_string())), ("to", Json::Array(vec![Json::Str("x".to_string()), Json::UInt(1)]))]);
    assert_eq!(rule_targets(&r), strs(&["x"]));
    assert_eq!(flowhost::switch::rule_op(&r), "eq");
}

#[test]
fn concurrency_policy() {
    let rows = vec![
        RunRow { flow_id: "f".to_string(), run_id: "r1".to_string(), status: "pending".to_string() },
        RunRow { flow_id: "f".to_string(), run_id: "r2".to_string(), status: "success".to_string() },
        RunRow { flow_id: "g".to_string(), run_id: "r3".to_string(), status: "pending".to_string() },
        RunRow { flow_id: "f".to_string(), run_id: "new".to_string(), status: "pending".to_string() },
        RunRow { flow_id: "f".to_string(), run_id: "r4".to_string(), status: "suspended".to_string() },
    ];
    let live = live_run_ids(&rows, "f", "new");
    assert_eq!(live, strs(&["r1", "r4"]));
    assert_eq!(fire_decision(Concurrency::Queue, true), FireDecision::Start);
    assert_eq!(fire_decision(Concurrency::Skip, true), FireDecision::Skip);
    assert_eq!(fire_decision(Concurrency::Skip, false), FireDecision::Start);
    assert_eq!(fire_decision(Concurrency::Restart, true), FireDecision::Start);
    assert_eq!(runs_to_cancel(Concurrency::Restart, live.clone()), live);
    assert!(runs_to_cancel(Concurrency::Skip, live).is_empty());
}

#[test]
fn subflow_refs_and_ext_verbs() {
    assert_eq!(split_subflow_spec("child@3"), ("child".to_string(), 3));
    assert_eq!(split_subflow_spec("child@x"), ("child".to_string(), 0));
    assert_eq!(split_subflow_spec("child"), ("child".to_string(), 0));
    assert_eq!(split_subflow_spec("a@1@2"), ("a".to_string(), 0));
    assert_eq!(parse_u32("+7"), Some(7));
    assert_eq!(parse_u32("4294967295"), Some(u32::MAX));
    assert_eq!(parse_u32("4294967296"), None);
    assert_eq!(parse_u32(""), None);
    assert_eq!(parse_u32("+"), None);
    assert_eq!(ext_call_verb("mqtt", "publish"), Ok("mqtt.publish".to_string()));
    assert_eq!(ext_call_verb("", "publish"), Err("ext-call node missing config.ext".to_string()));
    assert_eq!(ext_call_verb("mqtt", ""), Err("ext-call node missing config.tool".to_string()));
}
