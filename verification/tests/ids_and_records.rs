use flowhost::errors::{check_patch, check_resume, FlowsError};
use flowhost::ids::{
    child_run_id, cron_run_id, default_run_id, flipflop_run_id, flow_debug_subject, flow_run_subject,
    gate_item_id, node_scoped_id, run_of, schedule_run_id, slot_suffix, source_run_id, source_series,
    step_record_id,
};
use flowhost::records::{claim_for_display, ClaimState};
use flowhost::retention::{reactor_caps, should_sweep};
use flowhost::text::push_decimal;

#[test]
fn record_ids_and_run_ids() {
    assert_eq!(step_record_id("r", "n", ""), "r:n");
    assert_eq!(step_record_id("r", "n", "w1"), "r:n@w1");
    assert_eq!(slot_suffix(""), "");
    assert_eq!(node_scoped_id("f", "n"), "f:n");
    assert_eq!(gate_item_id("run-1", "gate"), "flow-approval:run-1:gate");
    assert_eq!(cron_run_id("f", 1700000000), "f-cron-1700000000");
    assert_eq!(flipflop_run_id("f", "ff", 0), "f-flip-ff-0");
    assert_eq!(schedule_run_id("f", "s", 90), "f-sched-s-90");
    assert_eq!(source_run_id("f", "hook", 18446744073709551615), "f-hook-hook-18446744073709551615");
    assert_eq!(child_run_id("child@2", 5), "subflow:child@2:5");
    assert_eq!(default_run_id("f", 42), "f-run-42");
    assert_eq!(flow_debug_subject("f"), "flow/f/debug");
    assert_eq!(flow_run_subject("r"), "flow/r/events");
    assert_eq!(source_series("ws", "f", "n"), "flow:ws:f:n");
    let mut s = String::from("x");
    push_decimal(&mut s, 1009);
    assert_eq!(s, "x1009");
}

#[test]
fn a_gate_item_names_its_run() {
    assert_eq!(run_of(&gate_item_id("subflow:c:5", "gate")).as_deref(), Some("subflow:c:5"));
    assert_eq!(run_of("flow-approval:r1:n").as_deref(), Some("r1"));
    assert_eq!(run_of("flow-approval:nocolon"), None);
    assert_eq!(run_of("other:r1:n"), None);
}

#[test]
fn claim_labels() {
    assert_eq!(claim_for_display("running"), "running");
    assert_eq!(claim_for_display("weird"), "pending");
    assert_eq!(claim_for_display("done"), "done");
}

#[test]
fn sweep_cadence_and_reactor_caps() {
    assert!(should_sweep(0));
    assert!(!should_sweep(29));
    assert!(should_sweep(60));
    let caps = reactor_caps();
    assert_eq!(caps.len(), 15);
    for needed in ["mcp:ext.list:call", "mcp:store.query:call", "mcp:store.write:call", "mcp:store.delete:call", "mcp:flows.run:call"] {
        assert!(caps.iter().any(|c| c == needed), "missing {needed}");
    }
    assert!(!caps.iter().any(|c| c == "mcp:*.*:call"));
}

#[test]
fn resume_and_patch_checks() {
    assert!(check_resume("suspended", 3, 3).is_ok());
    assert!(check_resume("pending", 3, 3).is_ok());
    match check_resume("cancelled", 3, 3) {
        Err(FlowsError::BadInput(m)) => assert_eq!(m, "cannot resume a cancelled run"),
        _ => panic!("a cancelled run is not resumable"),
    }
    match check_resume("suspended", 2, 3) {
        Err(FlowsError::ResumePointDrift(m)) => assert!(m.starts_with("run pinned v2 but flow is now v3")),
        _ => panic!("expected drift"),
    }
    assert!(matches!(check_patch(true, "n", ClaimState::Pending), Err(FlowsError::BadInput(_))));
    assert!(check_patch(false, "n", ClaimState::Enqueued).is_ok());
    match check_patch(false, "n", ClaimState::Done) {
        Err(FlowsError::BadInput(m)) => assert_eq!(m, "node `n` already executed (claim Done); a structural change must become a new flow version"),
        _ => panic!("expected refusal"),
    }
    assert_eq!(FlowsError::ResumePointDrift("x".to_string()).message(), "resume point drift: x");
}

/// A capability pattern segment: `*` matches anything, `*.x` any `<y>.x`, else exact.
fn segment_matches(pattern: &str, value: &str) -> bool {
    if pattern == "*" {
        return true;
    }
    match pattern.strip_prefix('*') {
        Some(suffix) => value.ends_with(suffix),
        None => pattern == value,
    }
}

fn reactor_authorizes(cap: &str) -> bool {
    let want: Vec<&str> = cap.splitn(3, ':').collect();
    reactor_caps().iter().any(|c| {
        let have: Vec<&str> = c.splitn(3, ':').collect();
        have.len() == 3 && want.len() == 3 && (0..3).all(|i| segment_matches(have[i], want[i]))
    })
}

#[test]
fn reactor_drives_the_builtin_platform_nodes_but_not_arbitrary_ext_call() {
    for needed in [
        "mcp:ext.list:call",
        "mcp:store.query:call",
        "mcp:store.write:call",
        "mcp:store.delete:call",
        "mcp:flows.run:call",
    ] {
        assert!(
            reactor_authorizes(needed),
            "the reactor must authorize {needed} so a headless flow's built-in node is not denied"
        );
    }
    for denied in ["mcp:modbus.point.read:call", "mcp:ext.uninstall:call"] {
        assert!(!reactor_authorizes(denied), "the reactor must NOT authorize {denied}");
    }
}
