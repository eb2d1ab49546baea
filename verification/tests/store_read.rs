use flowhost::json::Json;
use flowhost::store_read_sql::{build_read_sql, is_ident, ReadSql};

fn filter(pairs: &[(&str, Json)]) -> Vec<(String, Json)> {
    pairs.iter().map(|(k, v)| (k.to_string(), copy(v))).collect()
}

fn copy(v: &Json) -> Json {
    match v {
        Json::Str(s) => Json::Str(s.clone()),
        Json::Bool(b) => Json::Bool(*b),
        Json::UInt(u) => Json::UInt(*u),
        _ => Json::Null,
    }
}

fn fields(names: &[&str]) -> Vec<(String, Json)> {
    names.iter().map(|s| (s.to_string(), Json::UInt(1))).collect()
}

fn var<'a>(b: &'a ReadSql, name: &str) -> &'a Json {
    &b.vars.iter().find(|(k, _)| k == name).expect("bound").1
}

fn is_str(v: &Json, s: &str) -> bool {
    matches!(v, Json::Str(t) if t == s)
}

#[test]
fn read_sql_construction_table() {
    // Bare read: default limit.
    let b = build_read_sql("site", None, vec![], None, None, false).ok().unwrap();
    assert_eq!(b.sql, "SELECT record::id(id) AS id, data, rev FROM type::table($tb) LIMIT 100");
    assert!(is_str(var(&b, "tb"), "site"));

    // Single-id read.
    let b = build_read_sql("site", Some("row1"), vec![], None, None, false).ok().unwrap();
    assert_eq!(
        b.sql,
        "SELECT record::id(id) AS id, data, rev FROM type::table($tb) WHERE record::id(id) = $id LIMIT 100"
    );
    assert!(is_str(var(&b, "id"), "row1"));

    // Flat filter + explicit limit + order desc.
    let f = filter(&[("region", Json::Str("nsw".to_string())), ("active", Json::Bool(true))]);
    let b = build_read_sql("site", None, f, Some(50), Some("ts"), true).ok().unwrap();
    assert_eq!(
        b.sql,
        "SELECT record::id(id) AS id, data, rev, data.ts AS _ord OMIT _ord \
         FROM type::table($tb) WHERE data.region = $f0 AND data.active = $f1 \
         ORDER BY _ord DESC LIMIT 50"
    );
    assert!(is_str(var(&b, "f0"), "nsw"));
    assert!(matches!(var(&b, "f1"), Json::Bool(true)));

    // Ascending order keeps no DESC suffix; id AND filter compose.
    let f = filter(&[("kind", Json::Str("ems".to_string()))]);
    let b = build_read_sql("device", Some("d1"), f, Some(7), Some("name"), false).ok().unwrap();
    assert_eq!(
        b.sql,
        "SELECT record::id(id) AS id, data, rev, data.name AS _ord OMIT _ord \
         FROM type::table($tb) WHERE record::id(id) = $id AND data.kind = $f0 \
         ORDER BY _ord LIMIT 7"
    );

    // Limit clamps to the hard max (and up to the floor).
    let b = build_read_sql("site", None, vec![], Some(999_999), None, false).ok().unwrap();
    assert!(b.sql.ends_with("LIMIT 1000"), "clamped: {}", b.sql);
    let b = build_read_sql("site", None, vec![], Some(0), None, false).ok().unwrap();
    assert!(b.sql.ends_with("LIMIT 1"), "floored: {}", b.sql);
}

#[test]
fn hostile_filter_values_are_bound_not_spliced() {
    let hostile = "x'; DELETE FROM flow; --\"";
    let f = filter(&[("name", Json::Str(hostile.to_string()))]);
    let b = build_read_sql("site", None, f, None, None, false).ok().unwrap();
    assert!(
        !b.sql.contains("DELETE") && !b.sql.contains('\'') && !b.sql.contains(';'),
        "hostile value leaked into SQL: {}",
        b.sql
    );
    assert_eq!(
        b.sql,
        "SELECT record::id(id) AS id, data, rev FROM type::table($tb) WHERE data.name = $f0 LIMIT 100"
    );
    assert!(is_str(var(&b, "f0"), hostile));

    // Same for a hostile id.
    let b = build_read_sql("site", Some("a' OR 1=1 --"), vec![], None, None, false).ok().unwrap();
    assert!(!b.sql.contains("OR 1=1"), "hostile id leaked: {}", b.sql);
    assert!(is_str(var(&b, "id"), "a' OR 1=1 --"));
}

#[test]
fn invalid_identifiers_rejected_before_dispatch() {
    assert!(build_read_sql("bad-table", None, vec![], None, None, false).is_err());
    assert!(build_read_sql("site; DROP", None, vec![], None, None, false).is_err());
    assert!(build_read_sql("", None, vec![], None, None, false).is_err());
    assert!(build_read_sql("1site", None, vec![], None, None, false).is_err());
    assert!(build_read_sql("site", None, fields(&["a b"]), None, None, false).is_err());
    assert!(build_read_sql("site", None, fields(&["a;--"]), None, None, false).is_err());
    assert!(build_read_sql("site", None, vec![], None, Some("ts DESC; x"), false).is_err());
    assert!(build_read_sql("site", None, vec![], None, Some("data.ts"), false).is_err());
    assert!(build_read_sql("ops_heartbeat", None, vec![], None, Some("_ts"), true).is_ok());
}

#[test]
fn refusals_name_the_bad_identifier_in_check_order() {
    match build_read_sql("bad-table", None, fields(&["a b"]), None, None, false) {
        Err(e) => assert_eq!(e, "invalid table identifier: bad-table"),
        Ok(_) => panic!("expected a refusal"),
    }
    match build_read_sql("site", None, fields(&["ok", "a b", "c;"]), None, Some("x y"), false) {
        Err(e) => assert_eq!(e, "invalid filter field identifier: a b"),
        Ok(_) => panic!("expected a refusal"),
    }
    match build_read_sql("site", None, vec![], None, Some("x y"), false) {
        Err(e) => assert_eq!(e, "invalid order_by identifier: x y"),
        Ok(_) => panic!("expected a refusal"),
    }
    assert!(is_ident("_a1"));
    assert!(!is_ident("é"));
}
