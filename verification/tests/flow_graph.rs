use flowhost::errors::FlowsError;
use flowhost::interval_timers::{
    desired_timers, plan_timers, reconcile_interval_timers, reconcile_timers, timer_deadline, TimerFlow, TimerKey,
};
use flowhost::react_interval::FlipFlopTrigger;
use flowhost::json::Json;
use flowhost::orphan_sweep::{armed_markers, is_marker, orphan_markers, parse_marker_id};
use flowhost::reconcile::{
    boot_run_id, converge_flow, placement_matches, plan_flow, FlowConvergence, Placement, ReconcilePass, Role,
};
use flowhost::save::{
    cron_spec_of, graph_ancestors, next_version, trim_str, validate_binding_lineage, validate_cron_triggers,
    BindingRef,
};
use flowhost::trigger_store::{
    boot_trigger_ids, cron_candidates, flipflop_triggers, is_blank, webhook_triggers, FlowNode,
};

fn obj(entries: Vec<(&str, Json)>) -> Json {
    Json::Object(entries.into_iter().map(|(k, v)| (k.to_string(), v)).collect())
}

fn s(v: &str) -> Json {
    Json::Str(v.to_string())
}

fn node(id: &str, ty: &str, config: Json) -> FlowNode {
    FlowNode { id: id.to_string(), node_type: ty.to_string(), config }
}

fn graph(edges: Vec<(&str, Vec<&str>)>) -> Vec<(String, Vec<String>)> {
    edges
        .into_iter()
        .map(|(n, needs)| (n.to_string(), needs.into_iter().map(|x| x.to_string()).collect()))
        .collect()
}

fn key(ws: &str, flow: &str, node: &str) -> TimerKey {
    TimerKey { ws: ws.to_string(), flow_id: flow.to_string(), node_id: node.to_string() }
}

#[test]
fn versions_bump_on_save() {
    assert_eq!(next_version(Some(3), 1), 4);
    assert_eq!(next_version(Some(u32::MAX), 1), u32::MAX);
    assert_eq!(next_version(None, 0), 1);
    assert_eq!(next_version(None, 5), 5);
}

#[test]
fn trimming_and_blank_text() {
    assert_eq!(trim_str("  */5 * * * *\t"), "*/5 * * * *");
    assert_eq!(trim_str("   "), "");
    assert!(is_blank(" \t\n"));
    assert!(is_blank(""));
    assert!(!is_blank(" x "));
}

fn cron_nodes(ids: &[&str]) -> Vec<FlowNode> {
    ids.iter()
        .map(|id| match *id {
            "a" => node("a", "debug", obj(vec![])),
            "t1" => node("t1", "trigger", obj(vec![("mode", s("cron")), ("cron", s("  0 * * * * "))])),
            "t2" => node("t2", "trigger", obj(vec![("mode", s("cron")), ("cron", s("   "))])),
            _ => node("t3", "trigger", obj(vec![("mode", s("cron")), ("cron", s("nope"))])),
        })
        .collect()
}

#[test]
fn cron_triggers_are_checked_in_node_order() {
    let nodes = cron_nodes(&["a", "t1", "t2", "t3"]);
    assert_eq!(cron_spec_of(&nodes[0]), "");
    assert_eq!(cron_spec_of(&nodes[1]), "0 * * * *");
    match validate_cron_triggers(&nodes, &vec![true, true, false, false]) {
        Err(FlowsError::BadInput(m)) => {
            assert_eq!(m, "node `t2`: a cron trigger needs a non-empty `config.cron` schedule")
        },
        _ => panic!("the blank schedule is refused first"),
    }
    let later = cron_nodes(&["a", "t1", "t3"]);
    match validate_cron_triggers(&later, &vec![true, true, false]) {
        Err(FlowsError::BadInput(m)) => {
            assert_eq!(m, "node `t3`: invalid cron schedule `nope` (expected a 5-field spec)")
        },
        _ => panic!("the invalid schedule is refused"),
    }
    assert!(validate_cron_triggers(&cron_nodes(&["a", "t1"]), &vec![true, true]).is_ok());
}

#[test]
fn ancestors_follow_needs_transitively() {
    // c needs b, b needs a; d is unrelated.
    let g = graph(vec![("a", vec![]), ("b", vec!["a"]), ("c", vec!["b"]), ("d", vec![])]);
    assert_eq!(graph_ancestors(&g, "c"), vec![true, true, false, false]);
    assert_eq!(graph_ancestors(&g, "a"), vec![false, false, false, false]);
}

#[test]
fn bindings_must_name_an_ancestor_or_themselves() {
    let g = graph(vec![("a", vec![]), ("b", vec!["a"]), ("c", vec!["b"]), ("d", vec![])]);
    let ok = vec![
        BindingRef { node_id: "c".into(), key: "x".into(), target: "a".into() },
        BindingRef { node_id: "b".into(), key: "y".into(), target: "b".into() },
    ];
    assert!(validate_binding_lineage(&g, &ok).is_ok());
    let bad = vec![
        BindingRef { node_id: "c".into(), key: "x".into(), target: "a".into() },
        BindingRef { node_id: "c".into(), key: "z".into(), target: "d".into() },
    ];
    match validate_binding_lineage(&g, &bad) {
        Err(FlowsError::BadInput(m)) => {
            assert!(m.starts_with("node `c` binds `z` to `${steps.d}` but `d` is not an upstream of `c`"), "{m}")
        },
        _ => panic!("a non-ancestor binding is refused"),
    }
}

#[test]
fn trigger_scans_collect_each_kind_in_order() {
    let nodes = vec![
        node("ff1", "flipflop", obj(vec![("period_secs", Json::UInt(0)), ("start", Json::Bool(false))])),
        node("ff2", "flipflop", obj(vec![])),
        node("c1", "trigger", obj(vec![("mode", s("cron")), ("cron", s("*/5 * * * *"))])),
        node("c2", "trigger", obj(vec![("mode", s("cron")), ("cron", s("  "))])),
        node("w1", "webhook", obj(vec![("webhook_id", s("hook-1"))])),
        node("w2", "webhook", obj(vec![])),
        node("b1", "trigger", obj(vec![("mode", s("boot"))])),
    ];
    let ff = flipflop_triggers(&nodes);
    assert_eq!(ff.len(), 2);
    assert_eq!((ff[0].node_id.as_str(), ff[0].period_secs, ff[0].start), ("ff1", 1, false));
    assert_eq!((ff[1].node_id.as_str(), ff[1].period_secs, ff[1].start), ("ff2", 10, true));
    let cron = cron_candidates(&nodes);
    assert_eq!(cron.len(), 1);
    assert_eq!((cron[0].node_id.as_str(), cron[0].cron.as_str()), ("c1", "*/5 * * * *"));
    let hooks = webhook_triggers(&nodes);
    assert_eq!(hooks.len(), 1);
    assert_eq!((hooks[0].node_id.as_str(), hooks[0].webhook_id.as_str()), ("w1", "hook-1"));
    assert_eq!(boot_trigger_ids(&nodes), vec!["b1".to_string()]);
}

#[test]
fn timers_converge_on_the_wanted_set() {
    let desired = vec![(key("ws", "f", "keep"), 10), (key("ws", "f", "retime"), 5), (key("ws", "f", "new"), 3)];
    let live = vec![
        (key("ws", "f", "keep"), 10),
        (key("ws", "f", "retime"), 7),
        (key("ws", "f", "gone"), 4),
        (key("other", "f", "gone"), 4),
    ];
    let plan = plan_timers("ws", &desired, &live);
    let mut stop = plan.stop.clone();
    stop.sort();
    assert_eq!(stop, vec![1, 2]);
    let mut start = plan.start.clone();
    start.sort();
    assert_eq!(start, vec![1, 2]);
    assert_eq!(timer_deadline(Some(50), 40), 50);
    assert_eq!(timer_deadline(Some(30), 40), 40);
    assert_eq!(timer_deadline(None, 40), 40);
}

#[test]
fn orphan_markers_and_their_keys() {
    assert!(is_marker(Some(true), true));
    assert!(!is_marker(Some(true), false));
    assert!(!is_marker(Some(false), true));
    assert!(!is_marker(None, true));
    assert_eq!(parse_marker_id("node_state", "node_state:flow-1:node:7"), Some(("flow-1:node".to_string(), "7".to_string())));
    assert_eq!(parse_marker_id("node_state", "other:flow:node"), None);
    assert_eq!(parse_marker_id("node_state", "node_state:nocolon"), None);
}

#[test]
fn flows_converge_by_placement_and_role() {
    assert!(placement_matches(Placement::Either, Role::Edge));
    assert!(placement_matches(Placement::CloudOnly, Role::Solo));
    assert!(!placement_matches(Placement::CloudOnly, Role::Edge));
    assert!(!placement_matches(Placement::LocalOnly, Role::Hub));
    assert_eq!(converge_flow(true, Placement::LocalOnly, Role::Edge, true), FlowConvergence::Arm { fire_boot: true });
    assert_eq!(converge_flow(true, Placement::LocalOnly, Role::Hub, true), FlowConvergence::Disarm);
    assert_eq!(converge_flow(false, Placement::Either, Role::Solo, false), FlowConvergence::Disarm);
    assert_eq!(boot_run_id("f1", "boot"), "f1-boot-boot");
}

#[test]
fn orphaned_armed_sources_are_found() {
    let rows = vec![
        ("flow_node_state:f1:n1".to_string(), obj(vec![("data", obj(vec![("armed", Json::Bool(true)), ("series", s("s1"))]))])),
        ("flow_node_state:f1:n2".to_string(), obj(vec![("data", obj(vec![("armed", Json::Bool(false)), ("series", s("s2"))]))])),
        ("flow_node_state:f2:n3".to_string(), obj(vec![("data", obj(vec![("armed", Json::Bool(true)), ("series", s("s3"))]))])),
        ("flow_node_state:f2:n4".to_string(), obj(vec![("data", obj(vec![("armed", Json::Bool(true))]))])),
    ];
    let markers = armed_markers(&rows, "flow_node_state");
    let pairs: Vec<(&str, &str)> = markers.iter().map(|m| (m.flow_id.as_str(), m.node_id.as_str())).collect();
    assert_eq!(pairs, vec![("f1", "n1"), ("f2", "n3")]);
    let live = vec![("f1".to_string(), "n1".to_string()), ("f1".to_string(), "n2".to_string())];
    assert_eq!(orphan_markers(&markers, &live), vec![1]);
}

#[test]
fn retention_keeps_the_newest_finished_runs() {
    let sql = flowhost::retention::retain_runs_sql(0);
    assert!(sql.contains("ORDER BY id DESC LIMIT 1);"), "{sql}");
    assert!(sql.starts_with("BEGIN TRANSACTION;LET $keep = "));
    assert!(sql.ends_with("RETURN count($purge);COMMIT TRANSACTION;"));
    assert!(flowhost::retention::retain_runs_sql(500).contains("LIMIT 500);"));
    assert_eq!(
        flowhost::retention::terminal_run_statuses(),
        vec!["success".to_string(), "partialFailure".to_string(), "failed".to_string(), "cancelled".to_string()]
    );
}

#[test]
fn a_second_timer_pass_after_a_converging_one_does_nothing() {
    let desired = vec![(key("ws", "f", "keep"), 10), (key("ws", "f", "retime"), 5), (key("ws", "f", "new"), 3)];
    let live = vec![(key("ws", "f", "keep"), 10), (key("ws", "f", "retime"), 7), (key("ws", "f", "gone"), 4)];
    let plan = plan_timers("ws", &desired, &live);
    let mut next: Vec<(TimerKey, u64)> = Vec::new();
    for (i, (k, p)) in live.iter().enumerate() {
        if !plan.stop.contains(&i) {
            next.push((key(&k.ws, &k.flow_id, &k.node_id), *p));
        }
    }
    for j in plan.start.iter() {
        let (k, p) = &desired[*j];
        next.push((key(&k.ws, &k.flow_id, &k.node_id), *p));
    }
    assert_eq!(next.len(), 3);
    let again = plan_timers("ws", &desired, &next);
    assert!(again.stop.is_empty());
    assert!(again.start.is_empty());
}

#[test]
fn reconciling_the_live_timers_twice_changes_nothing_the_second_time() {
    let desired = vec![(key("ws", "f", "keep"), 10), (key("ws", "f", "retime"), 5), (key("ws", "f", "new"), 3)];
    let live = vec![
        (key("ws", "f", "keep"), 10),
        (key("other", "f", "x"), 1),
        (key("ws", "f", "retime"), 7),
        (key("ws", "f", "gone"), 4),
    ];
    let (next, pass) = reconcile_timers("ws", &desired, live);
    assert_eq!((pass.started, pass.stopped), (2, 2));
    let view: Vec<(String, String, u64)> = next.iter().map(|(k, p)| (k.ws.clone(), k.node_id.clone(), *p)).collect();
    assert_eq!(
        view,
        vec![
            ("ws".to_string(), "keep".to_string(), 10),
            ("other".to_string(), "x".to_string(), 1),
            ("ws".to_string(), "retime".to_string(), 5),
            ("ws".to_string(), "new".to_string(), 3),
        ]
    );
    let (again, pass) = reconcile_timers("ws", &desired, next);
    assert_eq!((pass.started, pass.stopped), (0, 0));
    assert_eq!(again.len(), 4);
}

fn cfg_node(id: &str, ty: &str, config: Json) -> FlowNode {
    FlowNode { id: id.to_string(), node_type: ty.to_string(), config }
}

#[test]
fn a_reconcile_plan_arms_sources_with_their_type_and_fires_boot_triggers() {
    let boot_cfg = Json::Object(vec![("mode".to_string(), Json::Str("boot".to_string()))]);
    let src_cfg = Json::Object(vec![("port".to_string(), Json::UInt(502))]);
    let nodes = || {
        vec![
            cfg_node("b", "trigger", copy_json(&boot_cfg)),
            cfg_node("m", "modbus.read", copy_json(&src_cfg)),
            cfg_node("d", "debug", Json::Null),
        ]
    };
    let builtin = vec![true, false, true];
    let c = converge_flow(true, Placement::Either, Role::Edge, true);
    let plan = plan_flow("f1", nodes(), &builtin, c);
    assert!(plan.disarms.is_empty());
    assert_eq!(plan.arms.len(), 1);
    assert_eq!(plan.arms[0].0, "m");
    match &plan.arms[0].1 {
        Json::Object(m) => {
            assert!(m.iter().any(|(k, v)| k == "port" && matches!(v, Json::UInt(502))));
            assert!(m.iter().any(|(k, v)| k == "_type" && matches!(v, Json::Str(t) if t == "modbus.read")));
        },
        _ => panic!("an object config stays an object"),
    }
    assert_eq!(plan.boots, vec![("f1-boot-b".to_string(), "b".to_string())]);
    let mut pass = ReconcilePass::new();
    pass.count_plan(&plan);
    assert_eq!((pass.armed, pass.disarmed, pass.boot_fired), (1, 0, 1));

    let off = converge_flow(false, Placement::Either, Role::Edge, true);
    let plan = plan_flow("f1", nodes(), &builtin, off);
    assert!(plan.arms.is_empty() && plan.boots.is_empty());
    assert_eq!(plan.disarms, vec!["m".to_string()]);
    pass.count_plan(&plan);
    assert_eq!((pass.armed, pass.disarmed, pass.boot_fired), (1, 1, 1));
}

fn copy_json(j: &Json) -> Json {
    match j {
        Json::Object(m) => Json::Object(m.iter().map(|(k, v)| (k.clone(), copy_json(v))).collect()),
        Json::Str(s) => Json::Str(s.clone()),
        Json::UInt(u) => Json::UInt(*u),
        _ => Json::Null,
    }
}

fn trig(node: &str, period: u64) -> FlipFlopTrigger {
    FlipFlopTrigger { node_id: node.to_string(), period_secs: period, start: true }
}

#[test]
fn the_wanted_timers_follow_the_live_flows_and_a_later_trigger_wins() {
    let flows = vec![
        TimerFlow { id: "f".to_string(), enabled: true, deleted: false, triggers: vec![trig("a", 5), trig("a", 7), trig("b", 3)] },
        TimerFlow { id: "off".to_string(), enabled: false, deleted: false, triggers: vec![trig("x", 1)] },
        TimerFlow { id: "gone".to_string(), enabled: true, deleted: true, triggers: vec![trig("y", 1)] },
    ];
    let d = desired_timers("ws", &flows);
    let view: Vec<(String, String, u64)> = d.iter().map(|(k, p)| (k.flow_id.clone(), k.node_id.clone(), *p)).collect();
    assert_eq!(view, vec![("f".to_string(), "a".to_string(), 7), ("f".to_string(), "b".to_string(), 3)]);
    let live = vec![(key("ws", "off", "x"), 1), (key("other", "f", "a"), 9)];
    let (next, pass) = reconcile_interval_timers("ws", &flows, live);
    assert_eq!((pass.started, pass.stopped), (2, 1));
    assert_eq!(next.len(), 3);
    let (again, pass) = reconcile_interval_timers("ws", &flows, next);
    assert_eq!((pass.started, pass.stopped), (0, 0));
    assert_eq!(again.len(), 3);
}
