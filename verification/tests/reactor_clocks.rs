use flowhost::react_cron::{cron_plan, cron_settle, CronPlan};
use flowhost::react_cron::ReactorPass;
use flowhost::react_interval::{
    flipflop_plan, flipflop_settle, next_slot_after, settle_flipflop_firing, FlipFlopPlan, FlipFlopTrigger,
};
use flowhost::react_schedule::{schedule_plan, schedule_settle, SchedulePlan, ScheduleTrigger};
use flowhost::react_source::plan_hits;
use flowhost::records::FlowTriggerState;

#[test]
fn on_time_scan_advances_one_period() {
    assert_eq!(next_slot_after(100, 10, 100), 110);
}

#[test]
fn react_interval_late_scan_skips_to_the_next_future_slot() {
    assert_eq!(next_slot_after(100, 1, 157), 158);
    assert_eq!(next_slot_after(100, 10, 157), 160);
    assert_eq!(next_slot_after(100, 10, 160), 170);
}

#[test]
fn react_interval_future_slot_is_kept() {
    assert_eq!(next_slot_after(200, 10, 150), 200);
}

#[test]
fn zero_period_still_advances() {
    assert_eq!(next_slot_after(100, 0, 100), 101);
}

#[test]
fn on_time_scan_advances_one_interval() {
    assert_eq!(flowhost::react_schedule::next_slot_after(100, 10, 100), 110);
}

#[test]
fn react_schedule_late_scan_skips_to_the_next_future_slot() {
    assert_eq!(flowhost::react_schedule::next_slot_after(100, 10, 157), 160);
    assert_eq!(flowhost::react_schedule::next_slot_after(100, 1, 157), 158);
    assert_eq!(flowhost::react_schedule::next_slot_after(100, 10, 160), 170);
}

#[test]
fn react_schedule_future_slot_is_kept() {
    assert_eq!(flowhost::react_schedule::next_slot_after(200, 10, 150), 200);
}

#[test]
fn zero_interval_still_advances() {
    assert_eq!(flowhost::react_schedule::next_slot_after(100, 0, 100), 101);
}

fn flipflop(period: u64, start: bool) -> FlipFlopTrigger {
    FlipFlopTrigger { node_id: "ff".to_string(), period_secs: period, start }
}

#[test]
fn flipflop_seeds_then_fires_start_then_alternates() {
    let trig = flipflop(10, true);
    // First sight: seed at now, no value yet.
    let cursor = match flipflop_plan("f1", &None, &trig, 100) {
        FlipFlopPlan::Init(c) => c,
        _ => panic!("expected init"),
    };
    assert_eq!(cursor.next_attempt_ts, 100);
    assert_eq!(cursor.flop, None);
    // Due at 100: emits `start`.
    match flipflop_plan("f1", &Some(cursor), &trig, 100) {
        FlipFlopPlan::Due { scheduled_ts, value, run_id } => {
            assert_eq!(scheduled_ts, 100);
            assert!(value);
            assert_eq!(run_id, "f1-flip-ff-100");
        }
        _ => panic!("expected due"),
    }
    let c0 = FlowTriggerState { next_attempt_ts: 100, period_secs: Some(10), ..Default::default() };
    let s1 = flipflop_settle(&c0, &trig, 100, false);
    assert!(s1.fire);
    assert_eq!(s1.cursor.flop, Some(true));
    assert_eq!(s1.cursor.next_attempt_ts, 110);
    // Next firing flips.
    let s2 = flipflop_settle(&s1.cursor, &trig, 110, false);
    assert!(s2.fire);
    assert_eq!(s2.cursor.flop, Some(false));
    // A run that already exists advances without flipping.
    let s3 = flipflop_settle(&s2.cursor, &trig, 125, true);
    assert!(!s3.fire);
    assert_eq!(s3.cursor.flop, Some(false));
    assert_eq!(s3.cursor.next_attempt_ts, 130);
}

#[test]
fn flipflop_period_edit_reseeds_and_future_cursor_waits() {
    let trig = flipflop(5, false);
    let c = FlowTriggerState { next_attempt_ts: 100, period_secs: Some(10), flop: Some(true), ..Default::default() };
    assert!(matches!(flipflop_plan("f", &Some(c), &trig, 100), FlipFlopPlan::Init(_)));
    let c = FlowTriggerState { next_attempt_ts: 200, period_secs: Some(5), ..Default::default() };
    assert!(matches!(flipflop_plan("f", &Some(c), &trig, 150), FlipFlopPlan::NotDue));
}

fn sched(emit: bool, invert: bool) -> ScheduleTrigger {
    ScheduleTrigger {
        node_id: "s".to_string(),
        schedule_id: "bh".to_string(),
        evaluation_interval: 10,
        emit_interval: emit,
        invert,
    }
}

#[test]
fn schedule_fires_on_transitions_only() {
    let trig = sched(false, false);
    let c = FlowTriggerState {
        next_attempt_ts: 100,
        period_secs: Some(10),
        schedule_id: Some("bh".to_string()),
        ..Default::default()
    };
    match schedule_plan("f", &Some(c), &trig, 100) {
        SchedulePlan::Evaluate { scheduled_ts, run_id } => {
            assert_eq!(scheduled_ts, 100);
            assert_eq!(run_id, "f-sched-s-100");
        }
        _ => panic!("expected evaluate"),
    }
    let c = FlowTriggerState {
        next_attempt_ts: 100,
        period_secs: Some(10),
        schedule_id: Some("bh".to_string()),
        ..Default::default()
    };
    // Unknown state -> active is a transition.
    let (s, value) = schedule_settle(&c, &trig, 100, true, false);
    assert!(s.fire);
    assert!(value);
    assert_eq!(s.cursor.schedule_active, Some(true));
    assert_eq!(s.cursor.next_attempt_ts, 110);
    // Same state again: nothing fires.
    let (s2, _) = schedule_settle(&s.cursor, &trig, 110, true, false);
    assert!(!s2.fire);
    // Inverted node fires at the same instants with the opposite value.
    let inv = sched(false, true);
    let (s3, v3) = schedule_settle(&c, &inv, 100, true, false);
    assert!(s3.fire);
    assert!(!v3);
    // A re-pointed node re-seeds.
    let mut other = sched(false, false);
    other.schedule_id = "other".to_string();
    assert!(matches!(schedule_plan("f", &Some(s.cursor), &other, 120), SchedulePlan::Init(_)));
}

#[test]
fn cron_arms_then_fires_once_per_instant() {
    assert!(matches!(cron_plan("f", false, true, 0, 10, Some(60)), CronPlan::Skip));
    assert!(matches!(cron_plan("f", true, true, 0, 10, Some(60)), CronPlan::Arm { next_attempt_ts: 60 }));
    assert!(matches!(cron_plan("f", true, true, 60, 10, Some(60)), CronPlan::NotDue));
    match cron_plan("f", true, true, 60, 61, Some(120)) {
        CronPlan::Due { scheduled_ts, run_id } => {
            assert_eq!(scheduled_ts, 60);
            assert_eq!(run_id, "f-cron-60");
        }
        _ => panic!("expected due"),
    }
    assert_eq!(cron_settle(60, Some(120), false), (true, 120));
    assert_eq!(cron_settle(60, None, true), (false, 60));
}

#[test]
fn webhook_hits_fire_once_past_the_cursor() {
    let plan = plan_hits(Some(5), &vec![4, 6, 9, 5]);
    assert_eq!(plan.fire, vec![1, 2]);
    assert_eq!(plan.cursor, Some(9));
    let plan = plan_hits(None, &vec![3, 1]);
    assert_eq!(plan.fire, vec![0, 1]);
    assert_eq!(plan.cursor, Some(3));
    let plan = plan_hits(Some(7), &vec![]);
    assert!(plan.fire.is_empty());
    assert_eq!(plan.cursor, None);
}

#[test]
fn a_rescan_of_a_fired_instant_skips_without_flipping() {
    let trig = flipflop(10, true);
    let mut pass = ReactorPass::new();
    let c0 = FlowTriggerState { next_attempt_ts: 100, period_secs: Some(10), flop: Some(true), ..Default::default() };
    let s = settle_flipflop_firing(&c0, &trig, 123, true, &mut pass);
    assert!(!s.fire);
    assert_eq!(s.cursor.flop, Some(true));
    assert_eq!(s.cursor.next_attempt_ts, 130);
    assert_eq!((pass.fired, pass.skipped), (0, 1));
    let s = settle_flipflop_firing(&s.cursor, &trig, 130, false, &mut pass);
    assert!(s.fire);
    assert_eq!(s.cursor.flop, Some(false));
    assert_eq!((pass.fired, pass.skipped), (1, 1));
}
