use flowhost::errors::FlowsError;
use flowhost::node_config::node_update;
use flowhost::coordinator::{control_halt, drive_action, policy_map, source_node_ids, validate_known_kinds, DriveAction};
use flowhost::forms_tool::{forms_verb, parse_u64, str_arg, typed_arg, typed_arg_of_text, u64_arg, FormsVerb};
use flowhost::json::Json;
use flowhost::run_store::JoinPolicy;
use flowhost::save_lints::NodeDescriptor;
use flowhost::trigger_store::FlowNode;

fn obj(entries: Vec<(&str, Json)>) -> Json {
    Json::Object(entries.into_iter().map(|(k, v)| (k.to_string(), v)).collect())
}

fn node(id: &str, ty: &str) -> FlowNode {
    FlowNode { id: id.to_string(), node_type: ty.to_string(), config: Json::Null }
}

fn desc(t: &str) -> NodeDescriptor {
    NodeDescriptor { node_type: t.to_string(), inputs: vec!["in".to_string()], primary_join: JoinPolicy::Any }
}

#[test]
fn a_cancelled_suspended_or_vanished_run_halts() {
    assert_eq!(control_halt(Some("cancelled")).as_deref(), Some("cancelled"));
    assert_eq!(control_halt(Some("suspended")).as_deref(), Some("suspended"));
    assert_eq!(control_halt(None).as_deref(), Some("cancelled"));
    assert_eq!(control_halt(Some("pending")), None);
    assert!(matches!(drive_action(Some("suspended"), 3), DriveAction::Halt(s) if s == "suspended"));
    assert!(matches!(drive_action(Some("pending"), 0), DriveAction::Idle));
    assert!(matches!(drive_action(Some("pending"), 2), DriveAction::Execute));
}

#[test]
fn a_flow_loads_only_with_known_kinds() {
    let registry = vec![desc("debug"), desc("mqtt.publish"), desc("debug")];
    let nodes = vec![node("a", "debug"), node("b", "mqtt.publish")];
    assert!(validate_known_kinds(&nodes, &registry).is_ok());
    let nodes = vec![node("a", "debug"), node("x", "gone.kind"), node("y", "also.gone")];
    match validate_known_kinds(&nodes, &registry) {
        Err(e) => assert_eq!(
            e,
            "node `x`: unknown node kind `gone.kind` — not in this workspace's registry (a removed built-in or an uninstalled extension); re-save the flow"
        ),
        Ok(()) => panic!("an unknown kind is refused"),
    }
    let pinned = policy_map(&nodes, &registry);
    assert_eq!(pinned, vec![("a".to_string(), 0)]);
    let ids = source_node_ids(&vec![node("a", "debug"), node("b", "mqtt.publish")], &vec![true, false]);
    assert_eq!(ids, vec!["b".to_string()]);
}

#[test]
fn form_verbs_and_arguments() {
    assert_eq!(forms_verb("forms.save"), Some(FormsVerb::Save));
    assert_eq!(forms_verb("forms.list"), Some(FormsVerb::List));
    assert_eq!(forms_verb("forms.nope"), None);
    let input = obj(vec![
        ("id", Json::Str("f1".to_string())),
        ("n", Json::UInt(7)),
        ("now", Json::Str(" 1783235133 ".to_string())),
        ("bad", Json::Str("soon".to_string())),
        ("neg", Json::Int(-1)),
    ]);
    assert!(matches!(str_arg(&input, "id"), Ok("f1")));
    assert!(matches!(str_arg(&input, "n"), Err(e) if e == "arg not a string: n"));
    assert!(matches!(str_arg(&input, "title"), Err(e) if e == "missing arg: title"));
    assert!(matches!(u64_arg(&input, "n"), Ok(7)));
    assert!(matches!(u64_arg(&input, "now"), Ok(1783235133)));
    assert!(matches!(u64_arg(&input, "bad"),
        Err(e) if e == "arg not a u64: bad — pass unix epoch seconds as a JSON number"));
    assert!(u64_arg(&input, "neg").is_err());
    assert!(matches!(u64_arg(&input, "missing"), Err(e) if e == "missing arg: missing"));
    assert_eq!(parse_u64("+18446744073709551615"), Some(u64::MAX));
    assert_eq!(parse_u64("18446744073709551616"), None);
    assert_eq!(parse_u64(""), None);
    assert_eq!(parse_u64("+"), None);
}

#[test]
fn a_node_config_update_checks_then_bumps_the_version() {
    let registry = vec![desc("debug")];
    let mut nodes = vec![node("a", "debug"), node("b", "gone.kind")];
    assert!(matches!(node_update(&mut nodes, 3, "zz", Json::Null, &registry, None), Err(FlowsError::NotFound)));
    assert!(matches!(node_update(&mut nodes, 3, "b", Json::Null, &registry, None),
        Err(FlowsError::BadInput(m)) if m == "node `b`: unknown type `gone.kind` (extension not installed in this workspace)"));
    assert!(matches!(node_update(&mut nodes, 3, "a", Json::Null, &registry, Some("label must be a string".to_string())),
        Err(FlowsError::BadInput(m)) if m == "node `a` (debug): label must be a string"));
    assert!(matches!(node_update(&mut nodes, 3, "a", obj(vec![("label", Json::Str("x".to_string()))]), &registry, None), Ok(4)));
    assert!(matches!(&nodes[0].config, Json::Object(m) if m.len() == 1));
    assert!(matches!(node_update(&mut nodes, u32::MAX, "a", Json::Null, &registry, None), Ok(v) if v == u32::MAX));
    assert_eq!(nodes.len(), 2);
}

#[test]
fn a_finished_drive_reports_its_status() {
    use_completed();
}

fn use_completed() {
    let (s, done) = flowhost::coordinator::completed_status(Some("success"));
    assert!(done && s == "success");
    let (s, done) = flowhost::coordinator::completed_status(Some("partialFailure"));
    assert!(!done && s == "partialFailure");
    let (s, done) = flowhost::coordinator::completed_status(None);
    assert!(!done && s == "failed");
}

fn schema_field(v: &Json) -> Option<&Json> {
    match v {
        Json::Object(m) => m.iter().find(|(k, _)| k == "schema").map(|(_, v)| v),
        _ => None,
    }
}

#[test]
fn typed_arg_decodes_a_real_object() {
    let def = typed_arg(&obj(vec![("schema", obj(vec![]))]), "def").expect("object decodes");
    assert!(matches!(schema_field(&def), Some(Json::Object(m)) if m.is_empty()));
}

#[test]
fn typed_arg_tolerates_a_json_encoded_string() {
    let def = typed_arg(&Json::Str("{\"schema\":{}}".to_string()), "def").expect("stringified decodes");
    assert!(matches!(schema_field(&def), Some(Json::Object(m)) if m.is_empty()));
}

#[test]
fn typed_arg_steers_on_a_non_json_string() {
    let msg = typed_arg(&Json::Str("not json".to_string()), "def").expect_err("expected BadInput");
    assert!(msg.contains("JSON-encoded string"), "steering message: {msg}");
    assert_eq!(
        msg,
        "def: arrived as a string that is not valid JSON — pass a JSON object, not a JSON-encoded string"
    );
}

#[test]
fn a_text_argument_is_taken_from_its_reading() {
    assert!(matches!(typed_arg_of_text("def", Ok(Json::UInt(1))), Ok(Json::UInt(1))));
    assert_eq!(
        typed_arg_of_text("cells", Err("expected value".to_string())).unwrap_err(),
        "cells: arrived as a string that is not valid JSON — pass a JSON object, not a JSON-encoded string"
    );
}
