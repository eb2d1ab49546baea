use flowhost::execute_node::{json_parse_error, json_step, JsonStep};
use flowhost::json::Json;
use flowhost::trigger_store::{inject_run_id, is_firing_trigger, FlowNode};

fn obj(entries: Vec<(&str, Json)>) -> Json {
    Json::Object(entries.into_iter().map(|(k, v)| (k.to_string(), v)).collect())
}

fn s(v: &str) -> Json {
    Json::Str(v.to_string())
}

fn node(id: &str, ty: &str, config: Json) -> FlowNode {
    FlowNode { id: id.to_string(), node_type: ty.to_string(), config }
}

#[test]
fn json_node_modes() {
    assert!(matches!(json_step(&obj(vec![]), &s("{\"x\":1}")), JsonStep::Parse(t) if t == "{\"x\":1}"));
    assert!(matches!(json_step(&obj(vec![("mode", s("parse"))]), &Json::UInt(1)),
        JsonStep::Refuse(m) if m == "json.parse: expected a string payload"));
    assert!(matches!(json_step(&obj(vec![("mode", s("stringify")), ("pretty", Json::Bool(true))]), &Json::UInt(1)),
        JsonStep::Stringify { pretty: true }));
    assert!(matches!(json_step(&obj(vec![("mode", s("stringify"))]), &Json::Null), JsonStep::Stringify { pretty: false }));
    assert!(matches!(json_step(&obj(vec![("mode", s("yaml"))]), &Json::Null),
        JsonStep::Refuse(m) if m == "json node: unknown mode: yaml"));
    assert_eq!(json_parse_error("EOF while parsing"), "json.parse: invalid JSON: EOF while parsing");
}

#[test]
fn only_an_inject_mode_firing_trigger_starts_a_run() {
    let nodes = vec![
        node("inj", "trigger", obj(vec![("mode", s("inject"))])),
        node("ret", "trigger", obj(vec![("mode", s("inject")), ("inject_mode", s("retain"))])),
        node("cron", "trigger", obj(vec![("mode", s("cron"))])),
        node("dbg", "debug", obj(vec![("mode", s("inject"))])),
    ];
    assert!(is_firing_trigger(&nodes, "inj"));
    assert!(!is_firing_trigger(&nodes, "ret"));
    assert!(!is_firing_trigger(&nodes, "cron"));
    assert!(!is_firing_trigger(&nodes, "dbg"));
    assert!(!is_firing_trigger(&nodes, "missing"));
    assert_eq!(inject_run_id(true, true, "f1", "inj", 42).as_deref(), Some("f1-inject-inj-run-42"));
    assert_eq!(inject_run_id(true, false, "f1", "inj", 42), None);
    assert_eq!(inject_run_id(false, true, "f1", "inj", 42), None);
}

#[test]
fn ext_list_keeps_running_extensions_on_request() {
    use_extension_rows();
}

fn use_extension_rows() {
    let reply = || {
        obj(vec![(
            "extensions",
            Json::Array(vec![
                obj(vec![("id", s("a")), ("running", Json::Bool(true))]),
                obj(vec![("id", s("b")), ("running", Json::Bool(false))]),
                obj(vec![("id", s("c"))]),
            ]),
        )])
    };
    assert_eq!(flowhost::subflow::extension_rows(reply(), false).len(), 3);
    let running = flowhost::subflow::extension_rows(reply(), true);
    assert_eq!(running.len(), 1);
    assert!(matches!(&running[0], Json::Object(m) if matches!(&m[0].1, Json::Str(x) if x == "a")));
    assert!(flowhost::subflow::extension_rows(obj(vec![]), false).is_empty());
}
