use flowhost::execute_node::{firing_carry, json_leg, json_parse_outcome, switch_pass_through, timed_out_outcome};
use flowhost::json::Json;
use flowhost::records::{ClaimState, SlotOutcome};
use flowhost::run_store::{
    create_run, run_seed_nodes, seed_run, AfterSettle, NodeOutcome, SeedNode, SlotTable,
};
use flowhost::sink::{sink_step, SinkDelivery};
use flowhost::store_nodes::{store_read, store_read_failure, store_read_query, store_read_reply};

fn obj(pairs: Vec<(&str, Json)>) -> Json {
    Json::Object(pairs.into_iter().map(|(k, v)| (k.to_string(), v)).collect())
}

fn entries(pairs: Vec<(&str, Json)>) -> Vec<(String, Json)> {
    pairs.into_iter().map(|(k, v)| (k.to_string(), v)).collect()
}

fn s(x: &str) -> Json {
    Json::Str(x.to_string())
}

fn field<'a>(e: &'a Json, k: &str) -> Option<&'a Json> {
    match e {
        Json::Object(m) => m.iter().find(|(key, _)| key == k).map(|(_, v)| v),
        _ => None,
    }
}

fn keys(e: &Json) -> Vec<String> {
    match e {
        Json::Object(m) => m.iter().map(|(k, _)| k.clone()).collect(),
        _ => vec![],
    }
}

fn emitted_payload(o: &NodeOutcome) -> &Json {
    match o {
        NodeOutcome::Emitted { emitted, carry } => {
            assert!(matches!(carry, Json::Null));
            assert_eq!(keys(emitted), vec!["payload".to_string()]);
            field(emitted, "payload").unwrap()
        },
        _ => panic!("expected an emission"),
    }
}

#[test]
fn the_json_node_parses_string_payloads() {
    let o = json_leg(&obj(vec![]), entries(vec![("payload", s("{\"a\":[1,-2,true,null]}"))]));
    let p = emitted_payload(&o);
    match field(p, "a") {
        Some(Json::Array(a)) => {
            assert!(matches!(a[0], Json::UInt(1)));
            assert!(matches!(a[1], Json::Int(-2)));
            assert!(matches!(a[2], Json::Bool(true)));
            assert!(matches!(a[3], Json::Null));
        },
        _ => panic!("expected the parsed array"),
    }
}

#[test]
fn the_json_node_refuses_invalid_text_and_non_strings() {
    match json_leg(&obj(vec![("mode", s("parse"))]), entries(vec![("payload", s("not json"))])) {
        NodeOutcome::Failed(m) => assert!(m.starts_with("json.parse: invalid JSON: "), "{m}"),
        _ => panic!("invalid JSON fails"),
    }
    match json_leg(&obj(vec![]), entries(vec![("payload", Json::UInt(3))])) {
        NodeOutcome::Failed(m) => assert_eq!(m, "json.parse: expected a string payload"),
        _ => panic!("a non-string payload fails"),
    }
    match json_leg(&obj(vec![("mode", s("yaml"))]), entries(vec![])) {
        NodeOutcome::Failed(m) => assert_eq!(m, "json node: unknown mode: yaml"),
        _ => panic!("an unknown mode fails"),
    }
}

#[test]
fn the_json_node_stringifies_compact_and_pretty() {
    let payload = obj(vec![("b", Json::UInt(1)), ("a", s("x"))]);
    let compact = json_leg(&obj(vec![("mode", s("stringify"))]), entries(vec![("payload", payload)]));
    assert!(matches!(emitted_payload(&compact), Json::Str(t) if t == "{\"a\":\"x\",\"b\":1}"));
    let pretty = json_leg(
        &obj(vec![("mode", s("stringify")), ("pretty", Json::Bool(true))]),
        entries(vec![("payload", obj(vec![("a", Json::UInt(1))]))]),
    );
    assert!(matches!(emitted_payload(&pretty), Json::Str(t) if t == "{\n  \"a\": 1\n}"));
    let absent = json_leg(&obj(vec![("mode", s("stringify"))]), entries(vec![]));
    assert!(matches!(emitted_payload(&absent), Json::Str(t) if t == "null"));
}

#[test]
fn a_switch_passes_its_payload_through() {
    let o = switch_pass_through(entries(vec![("payload", Json::UInt(5)), ("topic", s("t"))]));
    assert!(matches!(emitted_payload(&o), Json::UInt(5)));
    let o = switch_pass_through(entries(vec![]));
    assert!(matches!(emitted_payload(&o), Json::Null));
}

fn seeded() -> SlotTable {
    let ns = vec![SeedNode { id: "a".to_string(), in_subgraph: true, indegree: 0 }];
    seed_run(false, "r1", "f1", 1, Json::Null, 7, None, &ns).unwrap().1
}

#[test]
fn a_timed_out_dispatch_settles_as_a_failure() {
    assert!(matches!(timed_out_outcome(), NodeOutcome::Failed(m) if m == "timeout"));
    let nodes = vec!["a".to_string(), "b".to_string()];
    let deps = vec![("a".to_string(), vec!["b".to_string()])];
    let mut t = seeded();
    assert!(t.claim_step("a", ""));
    let step = t.settle_timeout("r1", "a", "", "_fctx".to_string(), true, &nodes, &deps);
    assert_eq!(step, AfterSettle::SkipSubtree);
    let a = t.read_step("a", "").unwrap();
    assert_eq!(a.claim, ClaimState::Done);
    assert_eq!(a.outcome, SlotOutcome::Failed);
    assert_eq!(a.error.as_deref(), Some("timeout"));
    assert_eq!(t.read_step("b", "").unwrap().outcome, SlotOutcome::Skipped);

    let mut t = seeded();
    t.claim_step("a", "");
    let step = t.settle_timeout("r1", "a", "", "_fctx".to_string(), false, &nodes, &deps);
    assert_eq!(step, AfterSettle::ReleaseDependents);
    assert_eq!(t.read_step("a", "").unwrap().error.as_deref(), Some("timeout"));
    assert!(t.read_step("b", "").is_none());
}

#[test]
fn a_repeated_node_id_is_seeded_once() {
    let dup = vec![
        SeedNode { id: "a".to_string(), in_subgraph: true, indegree: 0 },
        SeedNode { id: "b".to_string(), in_subgraph: true, indegree: 0 },
        SeedNode { id: "a".to_string(), in_subgraph: true, indegree: 0 },
    ];
    let (_, table) = seed_run(false, "r1", "f1", 1, Json::Null, 7, None, &dup).unwrap();
    assert_eq!(table.ready_slots(), vec![("a".to_string(), String::new()), ("b".to_string(), String::new())]);
    assert!(seed_run(true, "r1", "f1", 1, Json::Null, 7, None, &dup).is_none());
}

#[test]
fn an_inbox_sink_records_the_payload_under_its_topic() {
    let cfg = obj(vec![("target", s("inbox")), ("name", s("cfg"))]);
    let (d, o) = sink_step(&cfg, entries(vec![("payload", s("hello")), ("topic", s("alerts"))]), "r", "n", "", 9).unwrap();
    match d {
        SinkDelivery::Tool { tool, request } => {
            assert_eq!(tool, "inbox.record");
            assert_eq!(keys(&request), vec!["channel", "id", "body", "ts"]);
            assert!(matches!(field(&request, "channel"), Some(Json::Str(c)) if c == "alerts"));
            assert!(matches!(field(&request, "id"), Some(Json::Str(i)) if i == "r:n"));
            assert!(matches!(field(&request, "body"), Some(Json::Str(b)) if b == "hello"));
            assert!(matches!(field(&request, "ts"), Some(Json::UInt(9))));
        },
        _ => panic!("an inbox sink calls inbox.record"),
    }
    assert!(matches!(emitted_payload(&o), Json::Str(p) if p == "hello"));
    // A non-string payload is recorded as its JSON text; an empty topic falls back to the name.
    let (d, _) = sink_step(&cfg, entries(vec![("payload", obj(vec![("v", Json::UInt(1))])), ("topic", s(""))]), "r", "n", "", 9).unwrap();
    match d {
        SinkDelivery::Tool { request, .. } => {
            assert!(matches!(field(&request, "channel"), Some(Json::Str(c)) if c == "cfg"));
            assert!(matches!(field(&request, "body"), Some(Json::Str(b)) if b == "{\"v\":1}"));
        },
        _ => panic!("an inbox sink calls inbox.record"),
    }
}

#[test]
fn a_series_sink_writes_one_sample() {
    let cfg = obj(vec![("target", s("series")), ("name", s("temp"))]);
    let (d, o) = sink_step(&cfg, entries(vec![("payload", Json::UInt(21))]), "r", "n", "", 42).unwrap();
    match d {
        SinkDelivery::Tool { tool, request } => {
            assert_eq!(tool, "ingest.write");
            match field(&request, "samples") {
                Some(Json::Array(a)) => {
                    assert_eq!(a.len(), 1);
                    assert_eq!(keys(&a[0]), vec!["series", "producer", "ts", "seq", "payload"]);
                    assert!(matches!(field(&a[0], "series"), Some(Json::Str(x)) if x == "temp"));
                    assert!(matches!(field(&a[0], "producer"), Some(Json::Str(x)) if x.is_empty()));
                    assert!(matches!(field(&a[0], "ts"), Some(Json::UInt(42))));
                    assert!(matches!(field(&a[0], "seq"), Some(Json::UInt(42))));
                    assert!(matches!(field(&a[0], "payload"), Some(Json::UInt(21))));
                },
                _ => panic!("expected one sample"),
            }
        },
        _ => panic!("a series sink calls ingest.write"),
    }
    assert!(matches!(emitted_payload(&o), Json::UInt(21)));
}

#[test]
fn an_outbox_sink_stages_a_firing_scoped_effect() {
    let cfg = obj(vec![("target", s("outbox")), ("name", s("dest"))]);
    let (d, _) = sink_step(&cfg, entries(vec![("payload", s("x"))]), "r", "n", "f1", 1).unwrap();
    match d {
        SinkDelivery::Outbox { id, destination, body } => {
            assert_eq!(id, "r:n@f1");
            assert_eq!(destination, "dest");
            assert_eq!(body, "\"x\"");
        },
        _ => panic!("an outbox sink stages an effect"),
    }
    match sink_step(&obj(vec![("target", s("tape"))]), entries(vec![]), "r", "n", "", 1) {
        Err(e) => assert_eq!(e, "sink node has unknown target: tape"),
        Ok(_) => panic!("an unknown target fails"),
    }
    match sink_step(&obj(vec![]), entries(vec![]), "r", "n", "", 1) {
        Err(e) => assert_eq!(e, "sink node has unknown target: "),
        Ok(_) => panic!("a missing target fails"),
    }
}

#[test]
fn a_store_read_reply_has_exactly_one_payload_entry() {
    let rows = vec![obj(vec![("data", Json::UInt(1)), ("rev", Json::UInt(2))]), Json::UInt(3)];
    let r = store_read_reply(false, Ok(rows)).unwrap();
    assert_eq!(keys(&r), vec!["payload"]);
    let p = field(&r, "payload").unwrap();
    assert_eq!(keys(p), vec!["rows"]);
    match field(p, "rows") {
        Some(Json::Array(a)) => {
            assert!(matches!(a[0], Json::UInt(1)));
            assert!(matches!(a[1], Json::UInt(3)));
        },
        _ => panic!("expected rows"),
    }
    let r = store_read_reply(true, Ok(vec![])).unwrap();
    let p = field(&r, "payload").unwrap();
    assert_eq!(keys(p), vec!["row"]);
    assert!(matches!(field(p, "row"), Some(Json::Null)));
    assert_eq!(store_read_reply(true, Err("denied".to_string())).unwrap_err(), "store-read node: denied");
    assert_eq!(store_read_failure("bad"), "store-read node: bad");
}

#[test]
fn a_store_read_replies_one_row_by_a_resolved_id_else_a_row_list() {
    let cfg = obj(vec![("table", s("site"))]);
    let by_id = entries(vec![("payload", obj(vec![("id", s("r1"))]))]);
    let r = store_read(&cfg, &by_id, Ok(vec![obj(vec![("data", Json::UInt(7))])])).unwrap();
    let p = field(&r, "payload").unwrap();
    assert_eq!(keys(p), vec!["row"]);
    assert!(matches!(field(p, "row"), Some(Json::UInt(7))));

    let r = store_read(&cfg, &entries(vec![("payload", Json::UInt(1))]), Ok(vec![Json::UInt(1), Json::UInt(2)])).unwrap();
    let p = field(&r, "payload").unwrap();
    assert_eq!(keys(p), vec!["rows"]);
    assert!(matches!(field(p, "rows"), Some(Json::Array(a)) if a.len() == 2));

    // A config id wins over the payload's, and a failed query is the node's failure.
    let cfg_id = obj(vec![("table", s("site")), ("id", s("c1"))]);
    match store_read(&cfg_id, &entries(vec![]), Err("timeout".to_string())) {
        Err(e) => assert_eq!(e, "store-read node: timeout"),
        Ok(_) => panic!("a failed query is never an empty reply"),
    }
    match store_read(&obj(vec![]), &entries(vec![]), Ok(vec![])) {
        Err(e) => assert_eq!(e, "store-read node missing config.table"),
        Ok(_) => panic!("no table is refused"),
    }
    match store_read(&obj(vec![("table", s("bad-t"))]), &entries(vec![]), Ok(vec![])) {
        Err(e) => assert_eq!(e, "store-read node: invalid table identifier: bad-t"),
        Ok(_) => panic!("a bad table is refused"),
    }
}

#[test]
fn a_store_read_query_binds_the_filter_values() {
    let cfg = obj(vec![
        ("table", s("site")),
        ("filter", obj(vec![("region", s("nsw")), ("active", Json::Bool(true))])),
        ("limit", Json::UInt(5)),
    ]);
    let b = store_read_query(&cfg, &entries(vec![("payload", obj(vec![("id", s("p1"))]))])).unwrap();
    assert_eq!(
        b.sql,
        "SELECT record::id(id) AS id, data, rev FROM type::table($tb) WHERE record::id(id) = $id AND data.region = $f0 AND data.active = $f1 LIMIT 5"
    );
    let names: Vec<&str> = b.vars.iter().map(|(k, _)| k.as_str()).collect();
    assert_eq!(names, vec!["tb", "id", "f0", "f1"]);
    assert!(matches!(&b.vars[1].1, Json::Str(t) if t == "p1"));
    assert!(matches!(&b.vars[2].1, Json::Str(t) if t == "nsw"));
    assert!(matches!(&b.vars[3].1, Json::Bool(true)));
    match store_read_query(&obj(vec![("table", s("site")), ("filter", obj(vec![("a b", Json::UInt(1))]))]), &entries(vec![])) {
        Err(e) => assert_eq!(e, "store-read node: invalid filter field identifier: a b"),
        Ok(_) => panic!("a bad filter field is refused"),
    }
}

#[test]
fn a_join_consumes_the_sequence_parts() {
    let carry = entries(vec![("parts", Json::UInt(1)), ("topic", s("t")), ("parts", Json::UInt(2))]);
    let kept = firing_carry("join", carry);
    assert_eq!(kept.iter().map(|(k, _)| k.as_str()).collect::<Vec<_>>(), vec!["topic"]);
    let carry = entries(vec![("parts", Json::UInt(1)), ("topic", s("t"))]);
    assert_eq!(firing_carry("map", carry).len(), 2);
}

#[test]
fn a_parse_result_becomes_the_json_nodes_outcome() {
    assert!(matches!(emitted_payload(&json_parse_outcome(Ok(Json::UInt(4)))), Json::UInt(4)));
    match json_parse_outcome(Err("EOF while parsing".to_string())) {
        NodeOutcome::Failed(m) => assert_eq!(m, "json.parse: invalid JSON: EOF while parsing"),
        _ => panic!("a failed reading fails the node"),
    }
}

fn strs(v: &[&str]) -> Vec<String> {
    v.iter().map(|x| x.to_string()).collect()
}

#[test]
fn a_run_seeds_the_frontier_of_its_node_set() {
    // a -> b -> c, d -> c.
    let nodes = strs(&["a", "b", "c", "d"]);
    let deps = vec![
        ("a".to_string(), strs(&["b"])),
        ("b".to_string(), strs(&["c"])),
        ("d".to_string(), strs(&["c"])),
    ];
    let seeds = run_seed_nodes(&nodes, &deps, Some("a"));
    let view: Vec<(String, bool, u64)> = seeds.iter().map(|n| (n.id.clone(), n.in_subgraph, n.indegree)).collect();
    assert_eq!(
        view,
        vec![
            ("a".to_string(), true, 0),
            ("b".to_string(), true, 1),
            ("c".to_string(), true, 1),
            ("d".to_string(), false, 0),
        ]
    );
    let (run, table) = create_run(false, "r1", "f1", 2, Json::Null, 9, Some("a"), &nodes, &deps).unwrap();
    assert_eq!(run.status, "pending");
    assert_eq!(run.entry_node.as_deref(), Some("a"));
    assert_eq!(table.ready_slots(), vec![("a".to_string(), String::new())]);
    // From b: only b and c run; b's upstream a is outside the set.
    let (_, table) = create_run(false, "r2", "f1", 2, Json::Null, 9, Some("b"), &nodes, &deps).unwrap();
    assert_eq!(table.ready_slots(), vec![("b".to_string(), String::new())]);
    // A whole-graph run seeds every source.
    let (_, table) = create_run(false, "r3", "f1", 2, Json::Null, 9, None, &nodes, &deps).unwrap();
    assert_eq!(table.ready_slots(), vec![("a".to_string(), String::new()), ("d".to_string(), String::new())]);
    assert!(create_run(true, "r1", "f1", 2, Json::Null, 9, None, &nodes, &deps).is_none());
    let (_, table) = create_run(false, "r4", "f1", 2, Json::Null, 9, None, &strs(&["a", "a"]), &vec![]).unwrap();
    assert_eq!(table.ready_slots(), vec![("a".to_string(), String::new())]);
}
