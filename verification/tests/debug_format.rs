use flowhost::events::{debug_message, debug_settings, dropped_event, node_settled_event, run_finished_event};
use flowhost::json::Json;
use flowhost::run_debug::{format_label, looks_like_markdown, resolve_format};

fn s(x: &str) -> Json {
    Json::Str(x.to_string())
}

fn fmt(declared: &str, payload: &Json) -> &'static str {
    format_label(resolve_format(declared, payload))
}

#[test]
fn auto_resolves_objects_arrays_and_json_strings_to_json() {
    let obj = Json::Object(vec![("a".to_string(), Json::UInt(1))]);
    assert_eq!(fmt("auto", &obj), "json");
    assert_eq!(fmt("auto", &Json::Array(vec![Json::UInt(1), Json::UInt(2)])), "json");
    assert_eq!(fmt("auto", &s("{\"x\":1}")), "json");
    assert_eq!(fmt("auto", &s("42")), "text");
}

#[test]
fn auto_resolves_markdown_marked_strings() {
    assert_eq!(fmt("auto", &s("# Heading\nbody")), "markdown");
    assert_eq!(fmt("auto", &s("- item one\n- item two")), "markdown");
    assert_eq!(fmt("auto", &s("> quoted")), "markdown");
    assert_eq!(fmt("auto", &s("```rust\nfn main() {}\n```")), "markdown");
}

#[test]
fn auto_falls_back_to_text_for_plain_strings_and_scalars() {
    assert_eq!(fmt("auto", &s("hello")), "text");
    assert_eq!(fmt("auto", &Json::Float("23.4".to_string())), "text");
    assert_eq!(fmt("auto", &Json::Null), "text");
}

#[test]
fn explicit_format_is_authoritative() {
    let obj = Json::Object(vec![("a".to_string(), Json::UInt(1))]);
    assert_eq!(fmt("json", &s("hello")), "json");
    assert_eq!(fmt("markdown", &s("[1,2]")), "markdown");
    assert_eq!(fmt("text", &obj), "text");
    assert_eq!(fmt("weird", &obj), "json");
}

#[test]
fn markdown_heuristic_edges() {
    assert!(looks_like_markdown("   #"));
    assert!(looks_like_markdown("##Title"));
    assert!(!looks_like_markdown("#hashtag"));
    assert!(looks_like_markdown("- [ ] todo"));
    assert_eq!(fmt("auto", &s("- [ ] buy milk")), "markdown");
    assert!(!looks_like_markdown("- "));
    assert!(looks_like_markdown("a\nb\n  * x"));
    // Only the first eight lines are read.
    assert!(!looks_like_markdown("1\n2\n3\n4\n5\n6\n7\n8\n# late"));
    assert!(looks_like_markdown("1\n2\n3\n4\n5\n6\n7\n# eighth"));
    assert!(looks_like_markdown("x\r\n> q"));
}

fn field<'a>(e: &'a Json, k: &str) -> Option<&'a Json> {
    match e {
        Json::Object(m) => m.iter().find(|(key, _)| key == k).map(|(_, v)| v),
        _ => None,
    }
}

#[test]
fn a_dropped_sentinel_replaces_value_with_a_count() {
    let ev = dropped_event("d1", "r1", 10, "dbg", 7);
    assert!(matches!(field(&ev, "kind"), Some(Json::Str(k)) if k == "dropped"));
    assert!(matches!(field(&ev, "dropped"), Some(Json::UInt(7))));
    assert!(field(&ev, "value").is_none());
}

#[test]
fn debug_message_and_settle_events_carry_their_fields() {
    let ev = debug_message("n1", "r1", 5, "json", Json::Bool(true), "lbl", 4096);
    assert!(matches!(field(&ev, "kind"), Some(Json::Str(k)) if k == "debug"));
    assert!(matches!(field(&ev, "runId"), Some(Json::Str(k)) if k == "r1"));
    assert!(matches!(field(&ev, "value"), Some(Json::Bool(true))));
    assert!(matches!(field(&ev, "collapseBytes"), Some(Json::UInt(4096))));
    let ev = node_settled_event("n2", "err", Json::Null, Some("boom"));
    assert!(matches!(field(&ev, "error"), Some(Json::Str(k)) if k == "boom"));
    let ev = node_settled_event("n2", "ok", Json::UInt(1), None);
    assert!(matches!(field(&ev, "error"), Some(Json::Null)));
    let ev = run_finished_event("success");
    assert!(matches!(field(&ev, "status"), Some(Json::Str(k)) if k == "success"));
}

#[test]
fn debug_settings_apply_defaults() {
    let cfg = Json::Object(vec![
        ("label".to_string(), Json::Str(String::new())),
        ("rate_limit".to_string(), Json::UInt(0)),
    ]);
    let (label, collapse, rate) = debug_settings(&cfg, "node7", 2048, 50);
    assert_eq!(label, "node7");
    assert_eq!(collapse, 2048);
    assert_eq!(rate, 50);
    let cfg = Json::Object(vec![
        ("label".to_string(), Json::Str("mine".to_string())),
        ("collapse_bytes".to_string(), Json::UInt(9)),
        ("rate_limit".to_string(), Json::UInt(3)),
    ]);
    assert_eq!(debug_settings(&cfg, "node7", 2048, 50), ("mine".to_string(), 9, 3));
}
