use flowhost::json::Json;
use flowhost::records::{ClaimState, SlotOutcome};
use flowhost::run_store::{
    after_settle, build_envelope, port_wire_count, release_plan, seed_run, status_label, AfterSettle,
    JoinPolicy, NodeOutcome, Release, RunStatus, SeedNode, SlotTable,
};

fn seed(nodes: &[(&str, bool, u64)]) -> SlotTable {
    let ns: Vec<SeedNode> = nodes
        .iter()
        .map(|(id, inside, deg)| SeedNode { id: id.to_string(), in_subgraph: *inside, indegree: *deg })
        .collect();
    let (run, table) = seed_run(false, "r1", "f1", 3, Json::Null, 7, Some("a"), &ns).unwrap();
    assert_eq!(run.status, "pending");
    assert_eq!(run.flow_version, 3);
    assert_eq!(run.entry_node.as_deref(), Some("a"));
    table
}

fn strs(v: &[&str]) -> Vec<String> {
    v.iter().map(|s| s.to_string()).collect()
}

#[test]
fn seeding_enqueues_only_the_frontier_and_is_idempotent() {
    let t = seed(&[("a", true, 0), ("b", true, 1), ("z", false, 0)]);
    assert_eq!(t.ready_slots(), vec![("a".to_string(), String::new())]);
    assert!(seed_run(true, "r1", "f1", 3, Json::Null, 7, None, &vec![]).is_none());
}

#[test]
fn a_claim_wins_once() {
    let mut t = seed(&[("a", true, 0)]);
    assert!(t.claim_step("a", ""));
    assert!(!t.claim_step("a", ""), "a redelivered claim is a no-op");
    assert!(!t.claim_step("missing", ""));
    assert_eq!(t.read_step("a", "").unwrap().claim, ClaimState::Running);
}

#[test]
fn recording_an_emission_merges_carry_under_emitted_and_stamps_fctx() {
    let mut t = seed(&[("a", true, 0)]);
    t.claim_step("a", "");
    let emitted = Json::Object(vec![
        ("payload".to_string(), Json::UInt(2)),
        ("topic".to_string(), Json::Str("new".to_string())),
    ]);
    let carry = Json::Object(vec![
        ("topic".to_string(), Json::Str("old".to_string())),
        ("parts".to_string(), Json::UInt(9)),
    ]);
    assert!(t.record_outcome("a", "", NodeOutcome::Emitted { emitted, carry }, "_fctx".to_string()));
    let rec = t.read_step("a", "").unwrap();
    assert_eq!(rec.claim, ClaimState::Done);
    assert_eq!(rec.outcome, SlotOutcome::Succeeded);
    match &rec.output {
        Json::Object(m) => {
            let keys: Vec<&str> = m.iter().map(|(k, _)| k.as_str()).collect();
            assert_eq!(keys, vec!["topic", "parts", "payload", "_fctx"]);
            assert!(matches!(&m[0].1, Json::Str(s) if s == "new"));
            assert!(matches!(&m[1].1, Json::UInt(9)));
            assert!(matches!(&m[3].1, Json::Str(s) if s.is_empty()));
        }
        _ => panic!("expected an object envelope"),
    }
    assert!(!t.record_outcome("zzz", "", NodeOutcome::Skipped, "_fctx".to_string()));
}

#[test]
fn a_failure_records_its_error() {
    let mut t = seed(&[("a", true, 0)]);
    t.record_outcome("a", "", NodeOutcome::Failed("boom".to_string()), "_fctx".to_string());
    let rec = t.read_step("a", "").unwrap();
    assert_eq!(rec.outcome, SlotOutcome::Failed);
    assert_eq!(rec.error.as_deref(), Some("boom"));
}

#[test]
fn envelope_of_non_objects() {
    let env = build_envelope(Json::UInt(1), Json::Null, "_fctx".to_string(), "w1".to_string());
    assert_eq!(env.len(), 1);
    assert_eq!(env[0].0, "_fctx");
}

#[test]
fn park_returns_a_slot_to_the_frontier_but_never_a_done_one() {
    let mut t = seed(&[("a", true, 0), ("b", true, 0)]);
    t.claim_step("a", "");
    t.park_step("a", "");
    assert_eq!(t.read_step("a", "").unwrap().claim, ClaimState::Enqueued);
    t.record_outcome("b", "", NodeOutcome::Skipped, "_fctx".to_string());
    t.park_step("b", "");
    assert_eq!(t.read_step("b", "").unwrap().claim, ClaimState::Done);
}

#[test]
fn any_release_propagates_on_one_wire_and_mints_on_several() {
    match release_plan(true, true, JoinPolicy::Any, 1, "", "m1") {
        Release::Fire(f) => assert_eq!(f, ""),
        _ => panic!("expected a firing"),
    }
    match release_plan(true, true, JoinPolicy::Any, 2, "", "m1") {
        Release::Fire(f) => assert_eq!(f, "m1"),
        _ => panic!("expected a firing"),
    }
    assert!(matches!(release_plan(true, true, JoinPolicy::All, 2, "", "m1"), Release::Barrier));
    assert!(matches!(release_plan(false, true, JoinPolicy::Any, 1, "", "m1"), Release::Ignore));

    let mut t = seed(&[("a", true, 0)]);
    t.release_one_dependent("r1", "c", "a", "", &Release::Fire("m1".to_string()), 0);
    t.release_one_dependent("r1", "c", "a", "", &Release::Fire("m1".to_string()), 0);
    let rec = t.read_step("c", "m1").unwrap();
    assert_eq!(rec.claim, ClaimState::Enqueued);
    assert_eq!(rec.triggered_by.as_deref(), Some("a"));
    assert_eq!(rec.parent_fctx.as_deref(), Some(""));
    assert_eq!(t.ready_slots().len(), 2, "a re-mint is a no-op");
}

#[test]
fn a_barrier_enqueues_on_its_last_upstream() {
    let mut t = SlotTable::new();
    t.touch_barrier_slot("r1", "j", "", 3);
    assert_eq!(t.read_step("j", "").unwrap().claim, ClaimState::Pending);
    assert_eq!(t.read_step("j", "").unwrap().indegree, 2);
    t.touch_barrier_slot("r1", "j", "", 3);
    assert_eq!(t.read_step("j", "").unwrap().claim, ClaimState::Pending);
    t.touch_barrier_slot("r1", "j", "", 3);
    assert_eq!(t.read_step("j", "").unwrap().claim, ClaimState::Enqueued);
    assert_eq!(t.read_step("j", "").unwrap().indegree, 0);
}

#[test]
fn wire_count_reads_effective_ports() {
    let wires = vec![
        ("u1".to_string(), None),
        ("u2".to_string(), Some("in".to_string())),
        ("u3".to_string(), Some("other".to_string())),
        ("out".to_string(), None),
    ];
    let sub = strs(&["u1", "u2", "u3"]);
    assert_eq!(port_wire_count(&wires, None, Some("in"), &sub), 2);
    assert_eq!(port_wire_count(&wires, Some("other"), Some("in"), &sub), 1);
    assert_eq!(port_wire_count(&wires, None, None, &sub), 1);
}

#[test]
fn a_failure_gates_its_subtree_but_spares_live_slots() {
    // a -> b -> c, a -> d; d already running.
    let mut t = seed(&[("a", true, 0)]);
    t.mint_firing("r1", "d", "", "a", "");
    t.claim_step("d", "");
    let nodes = strs(&["a", "b", "c", "d"]);
    let deps = vec![
        ("a".to_string(), strs(&["b", "d"])),
        ("b".to_string(), strs(&["c"])),
    ];
    t.skip_subtree("r1", "a", "", &nodes, &deps);
    assert_eq!(t.read_step("b", "").unwrap().outcome, SlotOutcome::Skipped);
    assert_eq!(t.read_step("c", "").unwrap().outcome, SlotOutcome::Skipped);
    assert_eq!(t.read_step("d", "").unwrap().claim, ClaimState::Running);
    assert_eq!(t.read_step("a", "").unwrap().claim, ClaimState::Enqueued);
}

#[test]
fn gating_marks_the_gated_slot_then_its_subtree() {
    let mut t = SlotTable::new();
    let nodes = strs(&["s", "x", "y"]);
    let deps = vec![("x".to_string(), strs(&["y"]))];
    t.skip_gated("r1", "x", "w", &nodes, &deps);
    assert_eq!(t.read_step("x", "w").unwrap().outcome, SlotOutcome::Skipped);
    assert_eq!(t.read_step("y", "w").unwrap().outcome, SlotOutcome::Skipped);
    assert!(t.read_step("y", "").is_none());
}

#[test]
fn finalize_waits_for_every_slot_and_every_node() {
    let mut t = seed(&[("a", true, 0)]);
    let sub = strs(&["a", "b"]);
    assert_eq!(t.finalize_status(&sub), None);
    t.record_outcome("a", "", NodeOutcome::ok(Json::Null), "_fctx".to_string());
    assert_eq!(t.finalize_status(&sub), None, "b has no slot yet");
    t.mint_firing("r1", "b", "", "a", "");
    assert_eq!(t.finalize_status(&sub), None, "b is in flight");
    t.record_outcome("b", "", NodeOutcome::Failed("x".to_string()), "_fctx".to_string());
    assert_eq!(t.finalize_status(&sub), Some(RunStatus::PartialFailure));
    assert_eq!(status_label(RunStatus::PartialFailure), "partialFailure");
}

#[test]
fn settle_routing() {
    assert_eq!(after_settle(true, true, false, false), AfterSettle::SkipSubtree);
    assert_eq!(after_settle(false, false, true, true), AfterSettle::SkipSubtree);
    assert_eq!(after_settle(false, true, false, true), AfterSettle::ReleaseMatched);
    assert_eq!(after_settle(true, false, false, true), AfterSettle::ReleaseDependents);
}
