use flowhost::errors::FlowsError;
use flowhost::json::Json;
use flowhost::node_state::node_state;
use flowhost::react_approval::{approval_runs, FlowApprovalPass};
use flowhost::run_store::JoinPolicy;
use flowhost::runs::{node_snapshot, runs_list};
use flowhost::save_lints::{validate_node_topology, InputEdge, LintNode, NodeDescriptor};
use flowhost::store_nodes::{config_or_payload, delete_request, read_payload, read_request, table_of, write_request};
use flowhost::trigger_store::CronTrigger;

fn obj(entries: Vec<(&str, Json)>) -> Json {
    Json::Object(entries.into_iter().map(|(k, v)| (k.to_string(), v)).collect())
}

fn s(v: &str) -> Json {
    Json::Str(v.to_string())
}

fn field<'a>(j: &'a Json, k: &str) -> Option<&'a Json> {
    match j {
        Json::Object(m) => m.iter().find(|(key, _)| key == k).map(|(_, v)| v),
        _ => None,
    }
}

fn cron(node: &str, spec: &str) -> CronTrigger {
    CronTrigger { node_id: node.to_string(), cron: spec.to_string() }
}

#[test]
fn the_runtime_view_covers_every_node() {
    let rows = vec![
        ("flow_node_state:f1:a".to_string(), obj(vec![("data", Json::UInt(10)), ("rev", Json::UInt(3))])),
        ("flow_node_state:f2:z".to_string(), obj(vec![("data", Json::UInt(99))])),
        ("flow_node_state:f1:b".to_string(), obj(vec![("rev", Json::UInt(1))])),
    ];
    let inputs = vec![
        obj(vec![("data", obj(vec![("flow", s("f1")), ("node", s("a")), ("value", s("on"))]))]),
        obj(vec![("data", obj(vec![("flow", s("f1")), ("node", s("c")), ("port", s("speed")), ("value", Json::UInt(4))]))]),
        obj(vec![("data", obj(vec![("flow", s("f2")), ("node", s("a")), ("value", s("other flow"))]))]),
    ];
    let flow_nodes = vec!["a".to_string(), "c".to_string(), "t".to_string()];
    let triggers = vec![(cron("t", "0 * * * *"), 500), (cron("c", "*/5 * * * *"), 300), (cron("a", "1 * * * *"), 0)];
    let v = node_state("f1", true, &flow_nodes, rows, "flow_node_state:f1:", inputs, &triggers);
    assert_eq!(v.flow_id, "f1");
    assert_eq!(v.cron.as_deref(), Some("*/5 * * * *"));
    assert_eq!(v.next_attempt_ts, 300);
    let ids: Vec<&str> = v.nodes.iter().map(|n| n.node.as_str()).collect();
    assert_eq!(ids, vec!["a", "b", "c", "t"]);
    assert!(matches!(v.nodes[0].value, Json::UInt(10)));
    assert!(matches!(v.nodes[0].rev, Json::UInt(3)));
    assert!(matches!(&v.nodes[0].input, Some(Json::Str(x)) if x == "on"));
    assert!(matches!(v.nodes[1].value, Json::Null));
    assert!(matches!(v.nodes[1].rev, Json::UInt(1)));
    assert!(matches!(v.nodes[2].value, Json::Null));
    match &v.nodes[2].inputs {
        Some(m) => {
            assert_eq!(m.len(), 1);
            assert_eq!(m[0].0, "speed");
        },
        None => panic!("the per-port input is folded in"),
    }
    let armed = v.nodes[3].cron.as_ref().expect("the trigger node is armed");
    assert_eq!((armed.cron.as_str(), armed.next_attempt_ts, armed.armed), ("0 * * * *", 500, true));
    assert_eq!(v.nodes[0].cron.as_ref().map(|a| a.next_attempt_ts), Some(0));
}

#[test]
fn a_disabled_flow_has_no_soonest_fire() {
    let triggers = vec![(cron("t", "0 * * * *"), 500)];
    let v = node_state("f1", false, &vec!["t".to_string()], vec![], "flow_node_state:f1:", vec![], &triggers);
    assert!(v.cron.is_none());
    assert_eq!(v.next_attempt_ts, 0);
    assert_eq!(v.nodes[0].cron.as_ref().map(|a| a.armed), Some(false));
}

#[test]
fn runs_list_newest_first() {
    let run = |id: &str, flow: &str, status: &str, ts: Option<u64>| {
        let mut e = vec![("run_id", s(id)), ("flow_id", s(flow)), ("status", s(status)), ("flow_version", Json::UInt(1))];
        if let Some(t) = ts {
            e.push(("ts", Json::UInt(t)));
        }
        obj(vec![("data", obj(e))])
    };
    let rows = vec![
        run("r1", "f1", "success", Some(10)),
        run("r2", "f1", "pending", Some(30)),
        run("r3", "f2", "pending", Some(40)),
        run("r4", "f1", "success", None),
        run("r5", "f1", "success", Some(30)),
    ];
    let all = runs_list(rows, "f1", None);
    let ids: Vec<String> = all
        .iter()
        .map(|r| match &r.run_id {
            Json::Str(x) => x.clone(),
            _ => String::new(),
        })
        .collect();
    assert_eq!(ids, vec!["r2", "r5", "r1", "r4"]);
    let rows = vec![run("r1", "f1", "success", Some(10)), run("r2", "f1", "pending", Some(30))];
    let done = runs_list(rows, "f1", Some("success"));
    assert_eq!(done.len(), 1);
    assert_eq!(done[0].status, "success");
}

#[test]
fn a_run_snapshot_shows_its_slots() {
    let rows = vec![
        obj(vec![("data", obj(vec![("run_id", s("r1")), ("node_id", s("a")), ("claim", s("done")), ("outcome", s("ok"))]))]),
        obj(vec![("data", obj(vec![("run_id", s("r2")), ("node_id", s("b")), ("claim", s("done"))]))]),
        obj(vec![("data", obj(vec![("run_id", s("r1")), ("node_id", s("c")), ("claim", s("weird"))]))]),
        obj(vec![("data", obj(vec![("run_id", s("r1")), ("node_id", s("d"))]))]),
    ];
    let snap = node_snapshot(rows, "r1");
    assert_eq!(snap.len(), 3);
    assert!(snap[0].terminal && snap[0].claim == "done");
    assert!(matches!(&snap[0].outcome, Json::Str(o) if o == "ok"));
    assert!(!snap[1].terminal && snap[1].claim == "pending");
    assert!(!snap[2].terminal && snap[2].claim == "pending");
    assert!(matches!(snap[2].error, Json::Null));
}

#[test]
fn store_nodes_pin_their_table_and_read_config_then_payload() {
    assert!(matches!(table_of("store-read", &obj(vec![])), Err(e) if e == "store-read node missing config.table"));
    assert!(matches!(table_of("store-read", &obj(vec![("table", s("a b"))])), Err(e) if e == "store-read node: invalid table identifier: a b"));
    assert!(matches!(table_of("store-read", &obj(vec![("table", s("site"))])), Ok(t) if t == "site"));
    let config = obj(vec![("table", s("site")), ("id", Json::Null), ("limit", Json::UInt(5)), ("order_by", s("")), ("desc", Json::Bool(true))]);
    let inputs = vec![("payload".to_string(), obj(vec![("id", s("row1")), ("filter", obj(vec![("region", s("nsw"))]))]))];
    assert!(matches!(config_or_payload(&config, &inputs, "id"), Some(Json::Str(x)) if x == "row1"));
    match read_request(&config, &inputs) {
        Ok(q) => {
            assert_eq!(q.table, "site");
            assert_eq!(q.id.as_deref(), Some("row1"));
            assert_eq!(q.filter.as_ref().map(|f| f.len()), Some(1));
            assert_eq!(q.limit, Some(5));
            assert!(q.order_by.is_none());
            assert!(q.desc);
        },
        Err(e) => panic!("a well-formed read: {e}"),
    }
}

#[test]
fn store_read_replies_unwrap_rows() {
    let rows = vec![obj(vec![("data", s("one")), ("rev", Json::UInt(1))]), s("bare")];
    let many = read_payload(false, rows);
    match field(&many, "payload").and_then(|p| field(p, "rows")) {
        Some(Json::Array(a)) => {
            assert_eq!(a.len(), 2);
            assert!(matches!(&a[0], Json::Str(x) if x == "one"));
            assert!(matches!(&a[1], Json::Str(x) if x == "bare"));
        },
        _ => panic!("a rows reply"),
    }
    let one = read_payload(true, vec![]);
    assert!(matches!(field(&one, "payload").and_then(|p| field(p, "row")), Some(Json::Null)));
}

#[test]
fn store_writes_and_deletes_need_their_inputs() {
    let config = obj(vec![("table", s("site"))]);
    let none: Vec<(String, Json)> = vec![];
    assert!(matches!(write_request(&config, &none, "01MINTED".to_string()),
        Err(e) if e == "store-write node has no value (config.value and payload both absent)"));
    let inputs = vec![("payload".to_string(), obj(vec![("id", s("k1")), ("v", Json::UInt(1))]))];
    assert!(matches!(write_request(&config, &inputs, "01MINTED".to_string()),
        Ok((t, id, Json::Object(_))) if t == "site" && id == "k1"));
    let with_value = obj(vec![("table", s("site")), ("value", Json::UInt(7))]);
    assert!(matches!(write_request(&with_value, &none, "01MINTED".to_string()),
        Ok((_, id, Json::UInt(7))) if id == "01MINTED"));
    assert!(matches!(delete_request(&config, &none),
        Err(e) if e == "store-delete node has no id (config.id and payload.id both absent)"));
    assert!(matches!(delete_request(&config, &inputs), Ok((t, id)) if t == "site" && id == "k1"));
}

fn desc(t: &str, inputs: &[&str], join: JoinPolicy) -> NodeDescriptor {
    NodeDescriptor { node_type: t.to_string(), inputs: inputs.iter().map(|x| x.to_string()).collect(), primary_join: join }
}

fn lint(id: &str, t: &str, needs: &[&str], ports: &[(&str, Option<&str>)], binds_payload: bool) -> LintNode {
    LintNode {
        id: id.to_string(),
        node_type: t.to_string(),
        needs: needs.iter().map(|x| x.to_string()).collect(),
        edges: ports
            .iter()
            .map(|(from, p)| InputEdge { from: from.to_string(), to_port: p.map(|x| x.to_string()) })
            .collect(),
        binds_payload,
    }
}

fn refusal(r: Result<(), FlowsError>) -> String {
    match r {
        Err(FlowsError::BadInput(m)) => m,
        _ => panic!("a refusal"),
    }
}

#[test]
fn node_lints_refuse_the_first_bad_node() {
    let registry = vec![
        desc("debug", &["in", "extra"], JoinPolicy::Any),
        desc("trigger", &[], JoinPolicy::Any),
        desc("merge", &["in"], JoinPolicy::All),
    ];
    let ok = vec![lint("t", "trigger", &[], &[], false), lint("d", "debug", &["t"], &[("t", Some("extra"))], false)];
    assert!(validate_node_topology(&ok, &registry, &vec![None, None]).is_ok());
    let unknown = vec![lint("x", "gone", &[], &[], false)];
    assert_eq!(refusal(validate_node_topology(&unknown, &registry, &vec![None])),
        "node `x`: unknown type `gone` (extension not installed in this workspace)");
    let schema = vec![lint("d", "debug", &[], &[], false)];
    assert_eq!(refusal(validate_node_topology(&schema, &registry, &vec![Some("missing `label`".to_string())])),
        "node `d` (debug): missing `label`");
    let port = vec![lint("d", "debug", &["t"], &[("t", Some("nope"))], false)];
    assert_eq!(refusal(validate_node_topology(&port, &registry, &vec![None])),
        "node `d` (debug) wires upstream `t` to undeclared input port `nope` (declared: [in, extra])");
    let inbound = vec![lint("t2", "trigger", &["a", "b"], &[], false)];
    assert_eq!(refusal(validate_node_topology(&inbound, &registry, &vec![None])),
        "node `t2` (trigger) has 2 incoming wire(s) but declares no input port");
    let join = vec![lint("m", "merge", &["a", "b"], &[], false)];
    assert_eq!(refusal(validate_node_topology(&join, &registry, &vec![None])),
        "node `m` (merge) has 2 wires into an explicit `all` (join) input port — bind `payload` explicitly");
    let join_bound = vec![lint("m", "merge", &["a", "b"], &[], true)];
    assert!(validate_node_topology(&join_bound, &registry, &vec![None]).is_ok());
}

#[test]
fn approvals_name_their_runs_and_a_pass_counts() {
    let items = vec![
        "flow-approval:run-1:gate".to_string(),
        "inbox:other".to_string(),
        "flow-approval:subflow:c:5:node".to_string(),
    ];
    assert_eq!(approval_runs(&items), vec!["run-1".to_string(), "subflow:c:5".to_string()]);
    let mut pass = FlowApprovalPass::default();
    pass.count_resumed();
    pass.count_resumed();
    pass.count_cancelled();
    assert_eq!(pass, FlowApprovalPass { resumed: 2, cancelled: 1 });
}
