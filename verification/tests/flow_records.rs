use flowhost::errors::FlowsError;
use flowhost::forms::{delete_form, get_form, list_summaries, save_form, Form, FormError, FormSummary, SCHEMA_VERSION};
use flowhost::json::Json;
use flowhost::schedule_store::{
    bad_day_error, check_schedule_id, default_enabled, default_exception_priority, default_exception_type,
    default_priority, exception_instant, exception_instant_of, weekday_from_sunday_index, DayScheduleSpec, EngineState,
    ScheduleRecord, TimeRangeSpec, Weekday,
};

fn obj(entries: Vec<(&str, Json)>) -> Json {
    Json::Object(entries.into_iter().map(|(k, v)| (k.to_string(), v)).collect())
}

fn form(id: &str, owner: &str, deleted: bool, ts: u64) -> Form {
    Form {
        id: id.to_string(),
        title: "Intake".to_string(),
        def: obj(vec![("schema", obj(vec![]))]),
        owner: owner.to_string(),
        schema_version: SCHEMA_VERSION,
        updated_ts: ts,
        deleted,
    }
}

fn weekly_record(day: u8, start: &str, stop: &str) -> ScheduleRecord {
    ScheduleRecord {
        id: "s1".to_string(),
        name: "Building Hours".to_string(),
        priority: 1,
        use_utc: true,
        timezone: String::new(),
        enabled: true,
        weekly: vec![DayScheduleSpec {
            day,
            time_ranges: vec![TimeRangeSpec { start: start.to_string(), stop: stop.to_string() }],
        }],
        exceptions: vec![],
    }
}

#[test]
fn summary_is_the_cheap_roster_row() {
    let f = Form {
        id: "f1".into(),
        title: "Intake".into(),
        def: obj(vec![("schema", obj(vec![]))]),
        owner: "user:test".into(),
        schema_version: SCHEMA_VERSION,
        updated_ts: 42,
        deleted: false,
    };
    let s = FormSummary::from_form(&f);
    assert_eq!(s.id, "f1");
    assert_eq!(s.title, "Intake");
    assert_eq!(s.updated_ts, 42);
}

#[test]
fn sunday_indexed_days_map_onto_chrono() {
    assert_eq!(weekday_from_sunday_index(0), Some(Weekday::Sun));
    assert_eq!(weekday_from_sunday_index(1), Some(Weekday::Mon));
    assert_eq!(weekday_from_sunday_index(6), Some(Weekday::Sat));
    assert_eq!(weekday_from_sunday_index(7), None);
}

#[test]
fn disabled_schedule_is_inactive() {
    let mut r = weekly_record(1, "00:00", "23:59");
    r.enabled = false;
    // The engine is never consulted for a disabled schedule, whatever it would have said.
    let ev = match r.evaluate(Err(FlowsError::Internal("engine unavailable".to_string()))) {
        Ok(ev) => ev,
        Err(_) => panic!("a disabled schedule evaluates"),
    };
    assert!(!ev.is_active);
    assert_eq!(ev.active_source, "disabled");
    assert_eq!(ev.next_transition, None);
}

#[test]
fn an_enabled_schedule_reports_the_engine_answer() {
    let r = weekly_record(0, "00:00", "23:59");
    let st = EngineState {
        is_active: true,
        weekly_active: true,
        exception_active: false,
        active_priority: 1,
        active_source: "Building Hours-weekly".to_string(),
        next_transition: Some("2026-01-05T00:00:00+00:00".to_string()),
    };
    let ev = match r.evaluate(Ok(st)) {
        Ok(ev) => ev,
        Err(_) => panic!("an enabled schedule with an engine answer evaluates"),
    };
    assert!(ev.is_active && ev.weekly_active && !ev.exception_active);
    assert_eq!(ev.id, "s1");
    assert_eq!(ev.active_source, "Building Hours-weekly");
    assert_eq!(ev.next_transition.as_deref(), Some("2026-01-05T00:00:00+00:00"));
    let refused = r.evaluate(Err(FlowsError::BadInput("schedule `s1`: bad zone".to_string())));
    assert!(matches!(refused, Err(FlowsError::BadInput(m)) if m == "schedule `s1`: bad zone"));
}

#[test]
fn schedule_defaults_and_refusals() {
    assert_eq!(default_exception_type(), "override");
    assert_eq!(default_exception_priority(), 50);
    assert_eq!(default_priority(), 1);
    assert!(default_enabled());
    assert!(matches!(bad_day_error("s1", 9), FlowsError::BadInput(m)
        if m == "schedule `s1`: day must be 0..=6 (0=Sunday), got 9"));
    assert!(matches!(check_schedule_id("  "), Err(FlowsError::BadInput(m)) if m == "schedule needs a non-empty `id`"));
    assert!(check_schedule_id("building-hours").is_ok());
}

#[test]
fn exception_instants_parse_as_rfc3339() {
    match exception_instant("s1", "2026-12-25T23:59:59Z") {
        Ok(t) => assert_eq!(t, 1798243199),
        Err(_) => panic!("a well-formed instant parses"),
    }
    match exception_instant("s1", "1970-01-01T01:00:00+01:00") {
        Ok(t) => assert_eq!(t, 0),
        Err(_) => panic!("an offset instant parses"),
    }
    match exception_instant("s1", "yesterday") {
        Err(FlowsError::BadInput(m)) => assert!(m.starts_with("schedule `s1`: bad RFC3339 `yesterday`: "), "{m}"),
        _ => panic!("a bad instant is refused"),
    }
}

#[test]
fn form_saves_are_owner_only_upserts() {
    let created = save_form(None, "user:a", "f1", "Intake", Json::Null, 7);
    assert!(matches!(&created, Ok(f) if f.owner == "user:a" && f.updated_ts == 7 && !f.deleted
        && f.schema_version == SCHEMA_VERSION));
    let existing = form("f1", "user:a", false, 5);
    assert!(matches!(save_form(Some(&existing), "user:b", "f1", "X", Json::Null, 9), Err(FormError::Denied)));
    assert!(matches!(save_form(Some(&existing), "user:a", "f1", "New", Json::Null, 9),
        Ok(f) if f.title == "New" && f.updated_ts == 9));
    let tomb = form("f1", "user:a", true, 5);
    assert!(matches!(save_form(Some(&tomb), "user:b", "f1", "Mine", Json::Null, 9),
        Ok(f) if f.owner == "user:b"));
    assert!(matches!(save_form(None, "user:a", "", "X", Json::Null, 1),
        Err(FormError::BadInput(m)) if m == "empty form id"));
}

#[test]
fn form_deletes_are_idempotent_tombstones() {
    assert!(matches!(delete_form(None, "user:a", false, 3), Ok(None)));
    assert!(matches!(delete_form(Some(form("f1", "user:a", true, 1)), "user:a", false, 3), Ok(None)));
    assert!(matches!(delete_form(Some(form("f1", "user:a", false, 1)), "user:b", false, 3), Err(FormError::Denied)));
    assert!(matches!(delete_form(Some(form("f1", "user:a", false, 1)), "user:b", true, 3),
        Ok(Some(f)) if f.deleted && f.updated_ts == 3 && f.owner == "user:a"));
    assert!(matches!(get_form(Some(form("f1", "user:a", true, 1))), Err(FormError::NotFound)));
    assert!(matches!(get_form(None), Err(FormError::NotFound)));
    assert!(matches!(get_form(Some(form("f1", "user:a", false, 1))), Ok(f) if f.id == "f1"));
}

#[test]
fn the_roster_skips_tombstones_and_keeps_order() {
    let forms = vec![form("a", "u", false, 1), form("b", "u", true, 2), form("c", "u", false, 3)];
    let roster = list_summaries(&forms);
    assert_eq!(roster.len(), 2);
    assert_eq!(roster[0].id, "a");
    assert_eq!(roster[1].id, "c");
    assert_eq!(roster[1].updated_ts, 3);
}

#[test]
fn deleting_a_form_twice_is_a_no_op() {
    let first = delete_form(Some(form("f1", "user:a", false, 1)), "user:a", false, 5);
    let tomb = match first {
        Ok(Some(f)) => f,
        _ => panic!("the owner tombstones the form"),
    };
    assert!(tomb.deleted);
    assert!(matches!(delete_form(Some(tomb), "user:b", false, 9), Ok(None)));
}

#[test]
fn a_bad_exception_instant_is_rejected() {
    // The record's exception `{start: "yesterday", stop: "2026-12-25T23:59:59Z"}` fails at its start.
    assert!(matches!(exception_instant("s1", "yesterday"), Err(FlowsError::BadInput(_))));
    assert!(exception_instant("s1", "2026-12-25T23:59:59Z").is_ok());
}

#[test]
fn an_instant_is_taken_from_its_reading() {
    assert!(matches!(exception_instant_of("s1", "x", Ok(42)), Ok(42)));
    match exception_instant_of("s1", "x", Err("input is out of range".to_string())) {
        Err(FlowsError::BadInput(m)) => assert_eq!(m, "schedule `s1`: bad RFC3339 `x`: input is out of range"),
        _ => panic!("a failed reading is refused"),
    }
}
