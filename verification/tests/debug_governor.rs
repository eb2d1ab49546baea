use flowhost::debug_governor::DebugGovernor;

const WS: &str = "ws-gov-test";
const FLOW: &str = "f-gov-test";

#[test]
fn admits_up_to_rate_limit_in_one_window_then_suppresses() {
    let mut g = DebugGovernor::new();
    let node = "admits";
    for _ in 0..3 {
        assert_eq!(g.governor(WS, FLOW, node, 0, 3).0, true);
    }
    assert_eq!(g.governor(WS, FLOW, node, 0, 3).0, false);
    assert_eq!(g.governor(WS, FLOW, node, 0, 3).0, false);
}

#[test]
fn flushes_a_dropped_sentinel_when_the_window_closes() {
    let mut g = DebugGovernor::new();
    let node = "flushes";
    for _ in 0..2 {
        g.governor(WS, FLOW, node, 0, 2);
    }
    for _ in 0..3 {
        assert_eq!(g.governor(WS, FLOW, node, 0, 2).0, false);
    }
    let (publish, flush) = g.governor(WS, FLOW, node, 1100, 2);
    assert!(publish);
    assert_eq!(flush, Some(3));
}

#[test]
fn no_sentinel_when_a_window_had_no_suppressions() {
    let mut g = DebugGovernor::new();
    let node = "clean";
    g.governor(WS, FLOW, node, 0, 5);
    let (_, flush) = g.governor(WS, FLOW, node, 1100, 5);
    assert_eq!(flush, None, "a clean window flushes nothing");
}

#[test]
fn independent_budgets_per_node() {
    let mut g = DebugGovernor::new();
    for _ in 0..3 {
        g.governor(WS, FLOW, "indep-a", 0, 3);
    }
    assert_eq!(g.governor(WS, FLOW, "indep-a", 0, 3).0, false, "A is full");
    assert_eq!(g.governor(WS, FLOW, "indep-b", 0, 3).0, true, "B is fresh");
}

#[test]
fn windows_over_a_call_sequence_cap_publishes_and_flush_their_suppressions() {
    let mut g = DebugGovernor::new();
    let node = "windows";
    // First window opens at 500: two published, two suppressed.
    let first: Vec<(bool, Option<u64>)> = [500, 600, 700, 1499].iter().map(|t| g.governor(WS, FLOW, node, *t, 2)).collect();
    assert_eq!(first, vec![(true, None), (true, None), (false, None), (false, None)]);
    // 1500 is one window length after the opening call: it resets and flushes the two.
    assert_eq!(g.governor(WS, FLOW, node, 1500, 2), (true, Some(2)));
    assert_eq!(g.governor(WS, FLOW, node, 2000, 2), (true, None));
    assert_eq!(g.governor(WS, FLOW, node, 2499, 2), (false, None));
    // The next reset comes no sooner than 2500, and flushes the one suppression.
    assert_eq!(g.governor(WS, FLOW, node, 2500, 2), (true, Some(1)));
}
