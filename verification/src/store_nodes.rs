//! The store CRUD nodes' requests and replies. Each node's table is pinned by its config (never by
//! a wire) and identifier-checked before anything is dispatched; the row id (and a read's filter)
//! comes from the config, else from the incoming payload; a write's value is the config's, else the
//! payload. A read replies `{payload: {rows: [...]}}`, or `{payload: {row: ...}}` for a single-id
//! read, each row unwrapped from its store envelope.
use vstd::prelude::*;

use crate::json::{entries_get, lookup, object1, same_json, str_field, Json};
use crate::store_read_sql::{field_names, is_ident, is_ident_spec, read_sql, sql_error, ReadSql};
use crate::text::decimal;

verus! {

/// A present, non-null value.
pub open spec fn non_null(v: Option<Json>) -> Option<Json> {
    match v {
        Some(Json::Null) => None,
        other => other,
    }
}

/// The node's `field`: the config's when present and non-null, else the incoming payload's (when
/// the payload is an object), else none; a null is never returned.
pub open spec fn config_or_payload_spec(config: Json, inputs: Seq<(String, Json)>, field: Seq<char>) -> Option<Json> {
    match non_null(config.field(field)) {
        Some(v) => Some(v),
        None => non_null(
            match lookup(inputs, "payload"@) {
                Some(p) => p.field(field),
                None => None,
            },
        ),
    }
}

/// The node's `field` (see [`config_or_payload_spec`]).
pub fn config_or_payload<'a>(config: &'a Json, inputs: &'a Vec<(String, Json)>, field: &str) -> (r: Option<&'a Json>)
    ensures
        match r {
            Some(v) => config_or_payload_spec(*config, inputs@, field@) == Some(*v),
            None => config_or_payload_spec(*config, inputs@, field@).is_none(),
        },
{
    match config.get(field) {
        Some(v) => {
            if !v.is_null() {
                return Some(v);
            }
        },
        None => {},
    }
    match entries_get(inputs, "payload") {
        Some(p) => match p.get(field) {
            Some(v) => if v.is_null() {
                None
            } else {
                Some(v)
            },
            None => None,
        },
        None => None,
    }
}

/// The table text of a node's config (empty when unset or not a string).
pub open spec fn table_text(config: Json) -> Seq<char> {
    match str_field(config, "table"@) {
        Some(t) => t,
        None => Seq::empty(),
    }
}

/// The node's pinned table: its non-empty identifier `config.table`, else the refusal naming the
/// node type.
pub fn table_of(node_type: &str, config: &Json) -> (r: Result<String, String>)
    ensures
        table_text(*config).len() == 0 ==> (r matches Err(e) && e@ == node_type@ + " node missing config.table"@),
        table_text(*config).len() > 0 && !is_ident_spec(table_text(*config)) ==> (r matches Err(e) && e@
            == node_type@ + " node: invalid table identifier: "@ + table_text(*config)),
        table_text(*config).len() > 0 && is_ident_spec(table_text(*config)) ==> (r matches Ok(t) && t@
            == table_text(*config)),
{
    let table = match crate::json::get_str(config, "table") {
        Some(t) => t,
        None => {
            proof {
                reveal_strlit("");
            }
            ""
        },
    };
    if table.unicode_len() == 0 {
        return Err(crate::text::concat2(node_type, " node missing config.table"));
    }
    if !is_ident(table) {
        let mut e = String::from_str(node_type);
        e.append(" node: invalid table identifier: ");
        e.append(table);
        return Err(e);
    }
    Ok(String::from_str(table))
}

/// The string at the node's `field` (see [`config_or_payload_spec`]), if that value is a string.
pub open spec fn text_of(config: Json, inputs: Seq<(String, Json)>, field: Seq<char>) -> Option<Seq<char>> {
    match config_or_payload_spec(config, inputs, field) {
        Some(v) => v.str_view(),
        None => None,
    }
}

fn text_at(config: &Json, inputs: &Vec<(String, Json)>, field: &str) -> (r: Option<String>)
    ensures
        match r {
            Some(s) => text_of(*config, inputs@, field@) == Some(s@),
            None => text_of(*config, inputs@, field@).is_none(),
        },
{
    match config_or_payload(config, inputs, field) {
        Some(v) => match v.as_str() {
            Some(s) => Some(String::from_str(s)),
            None => None,
        },
        None => None,
    }
}

/// What a `store-read` node asks for.
pub struct ReadRequest {
    pub table: String,
    pub id: Option<String>,
    /// The equality filter (a copy of the object's entries), when the filter is an object.
    pub filter: Option<Vec<(String, Json)>>,
    pub limit: Option<u64>,
    /// The order field, when a non-empty string.
    pub order_by: Option<String>,
    pub desc: bool,
}

/// The request of a `store-read` node: its pinned table (or the refusal), the row id and filter
/// from the config or the payload, and the limit, order field and direction from the config.
pub fn read_request(config: &Json, inputs: &Vec<(String, Json)>) -> (r: Result<ReadRequest, String>)
    ensures
        table_text(*config).len() == 0 ==> (r matches Err(e) && e@ == "store-read node missing config.table"@),
        table_text(*config).len() > 0 && !is_ident_spec(table_text(*config)) ==> (r matches Err(e) && e@
            == "store-read node: invalid table identifier: "@ + table_text(*config)),
        table_text(*config).len() > 0 && is_ident_spec(table_text(*config)) ==> (r matches Ok(q) && {
            &&& q.table@ == table_text(*config)
            &&& match q.id {
                Some(s) => text_of(*config, inputs@, "id"@) == Some(s@),
                None => text_of(*config, inputs@, "id"@).is_none(),
            }
            &&& match config_or_payload_spec(*config, inputs@, "filter"@) {
                Some(Json::Object(f)) => q.filter matches Some(g) && same_json(Json::Object(f), Json::Object(g)),
                _ => q.filter.is_none(),
            }
            &&& q.limit == crate::json::u64_field(*config, "limit"@)
            &&& match q.order_by {
                Some(s) => str_field(*config, "order_by"@) == Some(s@) && s@.len() > 0,
                None => !(str_field(*config, "order_by"@) matches Some(s) && s.len() > 0),
            }
            &&& q.desc == match crate::json::bool_field(*config, "desc"@) {
                Some(b) => b,
                None => false,
            }
        }),
{
    let table = match table_of("store-read", config) {
        Ok(t) => t,
        Err(e) => {
            proof {
                reveal_strlit("store-read");
                reveal_strlit(" node missing config.table");
                reveal_strlit("store-read node missing config.table");
                reveal_strlit(" node: invalid table identifier: ");
                reveal_strlit("store-read node: invalid table identifier: ");
                assert("store-read"@ + " node missing config.table"@ =~= "store-read node missing config.table"@);
                assert("store-read"@ + " node: invalid table identifier: "@ =~= "store-read node: invalid table identifier: "@);
            }
            return Err(e);
        },
    };
    let id = text_at(config, inputs, "id");
    let filter = match config_or_payload(config, inputs, "filter") {
        Some(Json::Object(f)) => Some(crate::bindings::copy_entries(f)),
        _ => None,
    };
    let limit = crate::json::get_u64(config, "limit");
    let order_by = match crate::json::get_str(config, "order_by") {
        Some(s) => if s.unicode_len() > 0 {
            Some(String::from_str(s))
        } else {
            None
        },
        None => None,
    };
    let desc = match crate::json::get_bool(config, "desc") {
        Some(b) => b,
        None => false,
    };
    Ok(ReadRequest { table, id, filter, limit, order_by, desc })
}

/// A queried row without its store envelope: its `data` when it has one, else the row itself.
pub open spec fn unwrapped(row: Json) -> Json {
    match row.field("data"@) {
        Some(d) => d,
        None => row,
    }
}

/// A queried row without its store envelope (see [`unwrapped`]).
pub fn unwrap_row(row: Json) -> (r: Json)
    ensures
        r == unwrapped(row),
{
    let has_data = match &row {
        Json::Object(m) => entries_get(m, "data").is_some(),
        _ => false,
    };
    if has_data {
        match row.take_field("data") {
            Some(d) => d,
            None => Json::Null,
        }
    } else {
        row
    }
}

/// `r` is the reply of a `store-read` node to the queried rows `raw`: exactly `{payload: {row: <first
/// row or null>}}` for a single-id read, else exactly `{payload: {rows: [...]}}`, each row
/// unwrapped.
pub open spec fn read_reply(single: bool, raw: Seq<Json>, r: Json) -> bool {
    &&& r matches Json::Object(m) && m@.len() == 1 && m@[0].0@ == "payload"@
    &&& r.field("payload"@) matches Some(p) && p matches Json::Object(pm) && pm@.len() == 1
        && pm@[0].0@ == (if single {
        "row"@
    } else {
        "rows"@
    })
    &&& r.field("payload"@) matches Some(p) && if single {
        p.field("row"@) == Some(
            if raw.len() > 0 {
                unwrapped(raw[0])
            } else {
                Json::Null
            },
        )
    } else {
        p.field("rows"@) matches Some(Json::Array(a)) && a@.len() == raw.len() && forall|i: int|
            0 <= i < raw.len() ==> #[trigger] a@[i] == unwrapped(raw[i])
    }
}

/// The reply of a `store-read` node to the queried rows (see [`read_reply`]).
pub fn read_payload(single: bool, raw: Vec<Json>) -> (r: Json)
    ensures
        read_reply(single, raw@, r),
{
    let ghost g_raw = raw@;
    let mut rows: Vec<Json> = Vec::new();
    let mut rest = raw;
    let mut k: usize = 0;
    assert(g_raw.len() == rest.len());
    while rest.len() > 0
        invariant
            g_raw.len() <= usize::MAX,
            k + rest@.len() == g_raw.len(),
            rest@ == g_raw.subrange(k as int, g_raw.len() as int),
            rows@.len() == k,
            forall|i: int| 0 <= i < k ==> #[trigger] rows@[i] == unwrapped(g_raw[i]),
        decreases rest@.len(),
    {
        let row = rest.remove(0);
        assert(rest@ =~= g_raw.subrange(k + 1, g_raw.len() as int));
        rows.push(unwrap_row(row));
        k = k + 1;
    }
    let inner = if single {
        let first = if rows.len() > 0 {
            rows.remove(0)
        } else {
            Json::Null
        };
        let o = object1("row", first);
        proof {
            crate::json::lemma_object1_field(o, "row"@, first, "row"@);
        }
        o
    } else {
        let arr = Json::Array(rows);
        let o = object1("rows", arr);
        proof {
            crate::json::lemma_object1_field(o, "rows"@, arr, "rows"@);
        }
        o
    };
    let r = object1("payload", inner);
    proof {
        crate::json::lemma_object1_field(r, "payload"@, inner, "payload"@);
    }
    r
}

/// What a `store-write` node writes: its table, the row id (the config's or payload's, else the
/// freshly minted `minted_id`) and the value (a copy of the config's, else of the payload).
pub fn write_request(config: &Json, inputs: &Vec<(String, Json)>, minted_id: String) -> (r: Result<
    (String, String, Json),
    String,
>)
    ensures
        table_text(*config).len() == 0 ==> (r matches Err(e) && e@ == "store-write node missing config.table"@),
        table_text(*config).len() > 0 && !is_ident_spec(table_text(*config)) ==> (r matches Err(e) && e@
            == "store-write node: invalid table identifier: "@ + table_text(*config)),
        table_text(*config).len() > 0 && is_ident_spec(table_text(*config)) ==> match non_null(
            config.field("value"@),
        ) {
            Some(v) => r matches Ok((t, id, w)) && t@ == table_text(*config) && id@ == write_id(
                *config,
                inputs@,
                minted_id@,
            ) && same_json(v, w),
            None => match non_null(lookup(inputs@, "payload"@)) {
                Some(p) => r matches Ok((t, id, w)) && t@ == table_text(*config) && id@ == write_id(
                    *config,
                    inputs@,
                    minted_id@,
                ) && same_json(p, w),
                None => r matches Err(e) && e@ == "store-write node has no value (config.value and payload both absent)"@,
            },
        },
{
    let table = match table_of("store-write", config) {
        Ok(t) => t,
        Err(e) => {
            proof {
                reveal_strlit("store-write");
                reveal_strlit(" node missing config.table");
                reveal_strlit("store-write node missing config.table");
                reveal_strlit(" node: invalid table identifier: ");
                reveal_strlit("store-write node: invalid table identifier: ");
                assert("store-write"@ + " node missing config.table"@ =~= "store-write node missing config.table"@);
                assert("store-write"@ + " node: invalid table identifier: "@ =~= "store-write node: invalid table identifier: "@);
            }
            return Err(e);
        },
    };
    let id = match text_at(config, inputs, "id") {
        Some(s) => s,
        None => minted_id,
    };
    match config.get("value") {
        Some(v) => {
            if !v.is_null() {
                return Ok((table, id, v.duplicate()));
            }
        },
        None => {},
    }
    match entries_get(inputs, "payload") {
        Some(p) => {
            if !p.is_null() {
                return Ok((table, id, p.duplicate()));
            }
        },
        None => {},
    }
    Err(String::from_str("store-write node has no value (config.value and payload both absent)"))
}

/// The row id a `store-write` writes: the config's or payload's string id, else the minted one.
pub open spec fn write_id(config: Json, inputs: Seq<(String, Json)>, minted: Seq<char>) -> Seq<char> {
    match text_of(config, inputs, "id"@) {
        Some(s) => s,
        None => minted,
    }
}

/// What a `store-delete` node erases: its table and the row id from the config or the payload.
pub fn delete_request(config: &Json, inputs: &Vec<(String, Json)>) -> (r: Result<(String, String), String>)
    ensures
        table_text(*config).len() == 0 ==> (r matches Err(e) && e@ == "store-delete node missing config.table"@),
        table_text(*config).len() > 0 && !is_ident_spec(table_text(*config)) ==> (r matches Err(e) && e@
            == "store-delete node: invalid table identifier: "@ + table_text(*config)),
        table_text(*config).len() > 0 && is_ident_spec(table_text(*config)) ==> match text_of(
            *config,
            inputs@,
            "id"@,
        ) {
            Some(id) => r matches Ok((t, i)) && t@ == table_text(*config) && i@ == id,
            None => r matches Err(e) && e@ == "store-delete node has no id (config.id and payload.id both absent)"@,
        },
{
    let table = match table_of("store-delete", config) {
        Ok(t) => t,
        Err(e) => {
            proof {
                reveal_strlit("store-delete");
                reveal_strlit(" node missing config.table");
                reveal_strlit("store-delete node missing config.table");
                reveal_strlit(" node: invalid table identifier: ");
                reveal_strlit("store-delete node: invalid table identifier: ");
                assert("store-delete"@ + " node missing config.table"@ =~= "store-delete node missing config.table"@);
                assert("store-delete"@ + " node: invalid table identifier: "@ =~= "store-delete node: invalid table identifier: "@);
            }
            return Err(e);
        },
    };
    match text_at(config, inputs, "id") {
        Some(id) => Ok((table, id)),
        None => Err(String::from_str("store-delete node has no id (config.id and payload.id both absent)")),
    }
}

/// A `store-read` failure that is not the node's own refusal (the SQL could not be built, the
/// query was refused or failed): the cause, prefixed with the node's name.
pub fn store_read_failure(cause: &str) -> (m: String)
    ensures
        m@ == "store-read node: "@ + cause@,
{
    crate::text::concat2("store-read node: ", cause)
}

/// The reply of a `store-read` node to the store's answer: the read payload (see [`read_payload`])
/// for the queried rows, or the store's error as the node's failure (never an empty row set).
pub fn store_read_reply(single: bool, queried: Result<Vec<Json>, String>) -> (r: Result<Json, String>)
    ensures
        match queried {
            Ok(raw) => r matches Ok(p) && read_reply(single, raw@, p),
            Err(e) => r matches Err(m) && m@ == "store-read node: "@ + e@,
        },
{
    match queried {
        Ok(raw) => Ok(read_payload(single, raw)),
        Err(e) => Err(store_read_failure(e.as_str())),
    }
}

/// The filter entries of a read: the filter object's entries (the config's, else the payload's),
/// none when there is no filter object.
pub open spec fn read_filter(config: Json, inputs: Seq<(String, Json)>) -> Seq<(String, Json)> {
    match config_or_payload_spec(config, inputs, "filter"@) {
        Some(Json::Object(f)) => f@,
        _ => Seq::empty(),
    }
}

/// The order field of a read: `config.order_by` when it is a non-empty string.
pub open spec fn read_order_by(config: Json) -> Option<Seq<char>> {
    match str_field(config, "order_by"@) {
        Some(s) if s.len() > 0 => Some(s),
        _ => None,
    }
}

/// Whether a read orders descending: `config.desc`, false when unset.
pub open spec fn read_desc(config: Json) -> bool {
    match crate::json::bool_field(config, "desc"@) {
        Some(b) => b,
        None => false,
    }
}

/// Why a `store-read` node refuses before any query: no table, a table that is not an
/// identifier, or a filter or order field that is not one.
pub open spec fn read_refusal(config: Json, inputs: Seq<(String, Json)>) -> Option<Seq<char>> {
    let t = table_text(config);
    if t.len() == 0 {
        Some("store-read node missing config.table"@)
    } else if !is_ident_spec(t) {
        Some("store-read node: invalid table identifier: "@ + t)
    } else {
        match sql_error(t, field_names(read_filter(config, inputs)), read_order_by(config)) {
            Some(m) => Some("store-read node: "@ + m),
            None => None,
        }
    }
}

/// The read's bindings: `tb` to the table, `id` to the resolved row id (when there is one), then
/// `f{i}` to (the same JSON as) the value of filter entry `i`.
pub open spec fn read_bindings(vars: Seq<(String, Json)>, table: Seq<char>, id: Option<Seq<char>>, filter: Seq<(String, Json)>) -> bool {
    &&& vars.len() == crate::store_read_sql::filter_base(id.is_some()) + filter.len()
    &&& vars[0].0@ == "tb"@
    &&& (vars[0].1 matches Json::Str(t) && t@ == table)
    &&& (id matches Some(x) ==> (vars[1].0@ == "id"@ && (vars[1].1 matches Json::Str(t) && t@ == x)))
    &&& forall|i: int|
        0 <= i < filter.len() ==> (#[trigger] vars[crate::store_read_sql::filter_base(id.is_some()) + i]).0@ == "f"@
            + decimal(i as nat) && same_json(filter[i].1, vars[crate::store_read_sql::filter_base(id.is_some()) + i].1)
}

/// The query of a `store-read` node: its refusal (see [`read_refusal`]), or the SELECT over its
/// table, one row by the resolved id when there is one, filtered by the filter entries, ordered and
/// limited as configured, with every caller value bound (see [`read_bindings`]).
pub fn store_read_query(config: &Json, inputs: &Vec<(String, Json)>) -> (r: Result<ReadSql, String>)
    requires
        read_filter(*config, inputs@).len() < usize::MAX,
    ensures
        match read_refusal(*config, inputs@) {
            Some(m) => r matches Err(e) && e@ == m,
            None => r matches Ok(b) && b.sql@ == read_sql(
                text_of(*config, inputs@, "id"@).is_some(),
                field_names(read_filter(*config, inputs@)),
                crate::json::u64_field(*config, "limit"@),
                read_order_by(*config),
                read_desc(*config),
            ) && read_bindings(b.vars@, table_text(*config), text_of(*config, inputs@, "id"@), read_filter(*config, inputs@)),
        },
{
    let req = match read_request(config, inputs) {
        Ok(q) => q,
        Err(e) => {
            return Err(e);
        },
    };
    let ghost gf = read_filter(*config, inputs@);
    let filter = match req.filter {
        Some(f) => f,
        None => Vec::new(),
    };
    proof {
        assert(filter@.len() == gf.len());
        assert(field_names(filter@) =~= field_names(gf));
    }
    let id: Option<&str> = match &req.id {
        Some(s) => Some(s.as_str()),
        None => None,
    };
    let ghost gfilter = filter@;
    match crate::store_read_sql::build_read_sql(req.table.as_str(), id, filter, req.limit, match &req.order_by {
        Some(o) => Some(o.as_str()),
        None => None,
    }, req.desc) {
        Ok(b) => {
            proof {
                assert(crate::store_read_sql::vars_as(b.vars@, req.table@, id, gfilter));
                let base = crate::store_read_sql::filter_base(id.is_some());
                assert forall|i: int| 0 <= i < gf.len() implies same_json(gf[i].1, #[trigger] b.vars@[base + i].1) by {
                    assert(b.vars@[base + i].1 == gfilter[i].1);
                    assert(same_json(gf[i].1, gfilter[i].1));
                }
            }
            Ok(b)
        },
        Err(e) => Err(crate::text::concat2("store-read node: ", e.as_str())),
    }
}

/// The `store-read` node given the store's answer to its query (see [`store_read_query`]): its
/// refusal, else the reply to the queried rows, a single row when an id was resolved (from the
/// config, else the payload) and the row list otherwise, or the store's failure (never an empty
/// row list).
pub fn store_read(config: &Json, inputs: &Vec<(String, Json)>, answer: Result<Vec<Json>, String>) -> (r: Result<
    Json,
    String,
>)
    requires
        read_filter(*config, inputs@).len() < usize::MAX,
    ensures
        match read_refusal(*config, inputs@) {
            Some(m) => r matches Err(e) && e@ == m,
            None => match answer {
                Ok(raw) => r matches Ok(p) && read_reply(text_of(*config, inputs@, "id"@).is_some(), raw@, p),
                Err(e) => r matches Err(m) && m@ == "store-read node: "@ + e@,
            },
        },
{
    match store_read_query(config, inputs) {
        Err(e) => Err(e),
        Ok(_) => {
            let single = text_at(config, inputs, "id").is_some();
            store_read_reply(single, answer)
        },
    }
}

} // verus!
