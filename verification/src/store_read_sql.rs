//! The `store-read` node's SELECT. The table rides as a `type::table($tb)` binding and every caller
//! value is `$`-bound; the only text spliced into the statement is identifier-checked field names and
//! the clamped integer limit.
use vstd::prelude::*;

use crate::json::{str_eq, Json};
use crate::text::{ascii_alpha, ascii_digit, decimal, is_ascii_alpha, is_ascii_digit, push_decimal};

verus! {

/// The read limit's default and hard maximum.
pub const DEFAULT_LIMIT: u64 = 100;
pub const MAX_LIMIT: u64 = 1000;

/// A store-legal identifier: `[A-Za-z_][A-Za-z0-9_]*`.
pub open spec fn is_ident_spec(s: Seq<char>) -> bool {
    &&& s.len() >= 1
    &&& (is_ascii_alpha(s[0]) || s[0] == '_')
    &&& forall|i: int| 1 <= i < s.len() ==> is_ascii_alpha(#[trigger] s[i]) || is_ascii_digit(s[i]) || s[i] == '_'
}

/// Is `s` a store-legal identifier?
pub fn is_ident(s: &str) -> (b: bool)
    ensures
        b == is_ident_spec(s@),
{
    let n = s.unicode_len();
    if n == 0 {
        return false;
    }
    let c = s.get_char(0);
    if !(ascii_alpha(c) || c == '_') {
        return false;
    }
    let mut i: usize = 1;
    while i < n
        invariant
            1 <= i <= n,
            n == s@.len(),
            forall|j: int| 1 <= j < i ==> is_ascii_alpha(#[trigger] s@[j]) || is_ascii_digit(s@[j]) || s@[j] == '_',
        decreases n - i,
    {
        let c = s.get_char(i);
        if !(ascii_alpha(c) || ascii_digit(c) || c == '_') {
            return false;
        }
        i = i + 1;
    }
    true
}

/// The conditions of the WHERE clause: the id match (when reading one row), then one equality per
/// filter field, bound to `$f{i}`.
pub open spec fn conditions(has_id: bool, fields: Seq<Seq<char>>) -> Seq<Seq<char>> {
    let id_cond: Seq<Seq<char>> = if has_id {
        seq!["record::id(id) = $id"@]
    } else {
        Seq::empty()
    };
    id_cond + Seq::new(fields.len(), |i: int| "data."@ + fields[i] + " = $f"@ + decimal(i as nat))
}

/// `parts` joined with `sep`.
pub open spec fn join(parts: Seq<Seq<char>>, sep: Seq<char>) -> Seq<char>
    decreases parts.len(),
{
    if parts.len() == 0 {
        Seq::empty()
    } else if parts.len() == 1 {
        parts[0]
    } else {
        join(parts.drop_last(), sep) + sep + parts.last()
    }
}

/// The limit actually used: the requested one (default 100) clamped to `1..=1000`.
pub open spec fn clamped_limit(limit: Option<u64>) -> u64 {
    let l = match limit {
        Some(l) => l,
        None => DEFAULT_LIMIT,
    };
    if l < 1 {
        1
    } else if l > MAX_LIMIT {
        MAX_LIMIT
    } else {
        l
    }
}

/// The statement text for valid identifiers.
pub open spec fn read_sql(
    has_id: bool,
    fields: Seq<Seq<char>>,
    limit: Option<u64>,
    order_by: Option<Seq<char>>,
    desc: bool,
) -> Seq<char> {
    let conds = conditions(has_id, fields);
    "SELECT record::id(id) AS id, data, rev"@ + match order_by {
        Some(f) => ", data."@ + f + " AS _ord OMIT _ord"@,
        None => Seq::empty(),
    } + " FROM type::table($tb)"@ + if conds.len() > 0 {
        " WHERE "@ + join(conds, " AND "@)
    } else {
        Seq::empty()
    } + match order_by {
        Some(_) => " ORDER BY _ord"@ + if desc {
            " DESC"@
        } else {
            Seq::empty()
        },
        None => Seq::empty(),
    } + " LIMIT "@ + decimal(clamped_limit(limit) as nat)
}

/// The index of the first filter field that is not an identifier.
pub open spec fn first_bad_field(fields: Seq<Seq<char>>) -> Option<int> {
    if exists|i: int| 0 <= i < fields.len() && !is_ident_spec(#[trigger] fields[i]) {
        Some(choose|i: int| 0 <= i < fields.len() && !is_ident_spec(#[trigger] fields[i]) && forall|j: int| 0 <= j < i ==> is_ident_spec(#[trigger] fields[j]))
    } else {
        None
    }
}

/// The view of an optional string slice.
pub open spec fn opt_seq(o: Option<&str>) -> Option<Seq<char>> {
    match o {
        Some(s) => Some(s@),
        None => None,
    }
}

/// Why a read cannot be built: the table, the first bad filter field, or the order field, in that
/// order; `None` when every identifier is valid.
pub open spec fn sql_error(table: Seq<char>, fields: Seq<Seq<char>>, order_by: Option<Seq<char>>) -> Option<Seq<char>> {
    if !is_ident_spec(table) {
        Some("invalid table identifier: "@ + table)
    } else {
        match first_bad_field(fields) {
            Some(i) => Some("invalid filter field identifier: "@ + fields[i]),
            None => match order_by {
                Some(o) => if is_ident_spec(o) {
                    None
                } else {
                    Some("invalid order_by identifier: "@ + o)
                },
                None => None,
            },
        }
    }
}

/// The field names of a filter's entries, in order.
pub open spec fn field_names(filter: Seq<(String, Json)>) -> Seq<Seq<char>> {
    Seq::new(filter.len(), |i: int| filter[i].0@)
}

/// Where the filter bindings start: after `tb`, and after `id` when reading one row.
pub open spec fn filter_base(has_id: bool) -> int {
    if has_id {
        2
    } else {
        1
    }
}

/// The variable bindings: `tb` to the table, `id` to the row id (when reading one row), then
/// `f{i}` to the value of filter entry `i`.
pub open spec fn vars_as(vars: Seq<(String, Json)>, table: Seq<char>, id: Option<&str>, filter: Seq<(String, Json)>) -> bool {
    &&& vars.len() == filter_base(id.is_some()) + filter.len()
    &&& vars[0].0@ == "tb"@
    &&& (vars[0].1 matches Json::Str(t) && t@ == table)
    &&& (id matches Some(x) ==> (vars[1].0@ == "id"@ && (vars[1].1 matches Json::Str(t) && t@ == x@)))
    &&& forall|i: int|
        0 <= i < filter.len() ==> (#[trigger] vars[filter_base(id.is_some()) + i]).0@ == "f"@ + decimal(i as nat)
            && vars[filter_base(id.is_some()) + i].1 == filter[i].1
}

/// `b` is the statement for these valid inputs: its text and its variables.
pub open spec fn built_as(
    b: ReadSql,
    table: Seq<char>,
    id: Option<&str>,
    filter: Seq<(String, Json)>,
    limit: Option<u64>,
    order_by: Option<Seq<char>>,
    desc: bool,
) -> bool {
    &&& b.sql@ == read_sql(id.is_some(), field_names(filter), limit, order_by, desc)
    &&& vars_as(b.vars@, table, id, filter)
}

/// The built statement and its variable bindings.
pub struct ReadSql {
    pub sql: String,
    pub vars: Vec<(String, Json)>,
}

/// The character views of a list of strings.
pub open spec fn views(v: Seq<String>) -> Seq<Seq<char>> {
    Seq::new(v.len(), |i: int| v[i]@)
}

/// Append `s` to `out`.
fn push(out: &mut String, s: &str)
    ensures
        final(out)@ == old(out)@ + s@,
{
    out.append(s);
}

/// The index of the first field that is not an identifier.
fn first_invalid_field(fields: &Vec<String>) -> (r: Option<usize>)
    ensures
        match r {
            Some(i) => i < fields@.len() && first_bad_field(views(fields@)) == Some(i as int),
            None => first_bad_field(views(fields@)).is_none(),
        },
{
    let ghost fs = views(fields@);
    let mut i: usize = 0;
    while i < fields.len()
        invariant
            i <= fields@.len(),
            fs == views(fields@),
            forall|j: int| 0 <= j < i ==> is_ident_spec(#[trigger] fs[j]),
        decreases fields@.len() - i,
    {
        if !is_ident(fields[i].as_str()) {
            proof {
                assert(!is_ident_spec(fs[i as int]));
                let c = choose|k: int| 0 <= k < fs.len() && !is_ident_spec(#[trigger] fs[k]) && forall|j: int| 0 <= j < k ==> is_ident_spec(#[trigger] fs[j]);
                if c < i {
                    assert(is_ident_spec(fs[c]));
                }
                if c > i {
                    assert(is_ident_spec(fs[i as int]));
                }
            }
            return Some(i);
        }
        i = i + 1;
    }
    None
}

/// The WHERE conditions (see [`conditions`]).
fn build_conditions(has_id: bool, fields: &Vec<String>) -> (conds: Vec<String>)
    requires
        fields@.len() < usize::MAX,
    ensures
        views(conds@) == conditions(has_id, views(fields@)),
{
    let ghost fs = views(fields@);
    let mut conds: Vec<String> = Vec::new();
    if has_id {
        conds.push(String::from_str("record::id(id) = $id"));
    }
    let mut i: usize = 0;
    while i < fields.len()
        invariant
            i <= fields@.len(),
            fields@.len() < usize::MAX,
            fs == views(fields@),
            views(conds@) == conditions(has_id, fs.subrange(0, i as int)),
        decreases fields@.len() - i,
    {
        let mut cond = String::from_str("data.");
        push(&mut cond, fields[i].as_str());
        push(&mut cond, " = $f");
        push_decimal(&mut cond, i as u64);
        let ghost before = conds@;
        let ghost c = cond@;
        conds.push(cond);
        proof {
            let p = fs.subrange(0, i + 1);
            let q = fs.subrange(0, i as int);
            assert(views(conds@) =~= views(before).push(c));
            let id_cond: Seq<Seq<char>> = if has_id {
                seq!["record::id(id) = $id"@]
            } else {
                Seq::empty()
            };
            let a = Seq::new(p.len(), |k: int| "data."@ + p[k] + " = $f"@ + decimal(k as nat));
            let b = Seq::new(q.len(), |k: int| "data."@ + q[k] + " = $f"@ + decimal(k as nat));
            assert(a =~= b.push(c));
            assert(conditions(has_id, p) == id_cond + a);
            assert(conditions(has_id, q) == id_cond + b);
            assert(id_cond + b.push(c) =~= (id_cond + b).push(c));
            assert(views(conds@) =~= conditions(has_id, p));
        }
        i = i + 1;
    }
    assert(fs.subrange(0, fs.len() as int) =~= fs);
    conds
}

/// The field names of a filter, copied.
fn filter_keys(filter: &Vec<(String, Json)>) -> (keys: Vec<String>)
    ensures
        views(keys@) == field_names(filter@),
{
    let mut keys: Vec<String> = Vec::new();
    let mut i: usize = 0;
    while i < filter.len()
        invariant
            i <= filter@.len(),
            keys@.len() == i,
            forall|j: int| 0 <= j < i ==> (#[trigger] keys@[j])@ == filter@[j].0@,
        decreases filter@.len() - i,
    {
        keys.push(filter[i].0.clone());
        i = i + 1;
    }
    assert(views(keys@) =~= field_names(filter@));
    keys
}

/// The variable bindings (see [`vars_as`]); the filter's values move into them.
fn build_vars(table: &str, id: Option<&str>, filter: Vec<(String, Json)>) -> (vars: Vec<(String, Json)>)
    requires
        filter@.len() < usize::MAX,
    ensures
        vars_as(vars@, table@, id, filter@),
{
    let ghost g = filter@;
    let n = filter.len();
    let mut rest = filter;
    let mut vars: Vec<(String, Json)> = Vec::new();
    vars.push((String::from_str("tb"), Json::Str(String::from_str(table))));
    match id {
        Some(x) => {
            vars.push((String::from_str("id"), Json::Str(String::from_str(x))));
        },
        None => {},
    }
    let base = vars.len();
    let mut i: usize = 0;
    while i < n
        invariant
            i <= n,
            n == g.len(),
            n < usize::MAX,
            rest@ == g.subrange(i as int, n as int),
            base == filter_base(id.is_some()),
            vars@.len() == base + i,
            vars@[0].0@ == "tb"@,
            vars@[0].1 matches Json::Str(t) && t@ == table@,
            id matches Some(x) ==> (vars@[1].0@ == "id"@ && (vars@[1].1 matches Json::Str(t) && t@ == x@)),
            forall|j: int|
                0 <= j < i ==> (#[trigger] vars@[base + j]).0@ == "f"@ + decimal(j as nat) && vars@[base + j].1 == g[j].1,
        decreases n - i,
    {
        let (_, value) = rest.remove(0);
        assert(rest@ =~= g.subrange(i + 1, n as int));
        let mut name = String::from_str("f");
        push_decimal(&mut name, i as u64);
        vars.push((name, value));
        i = i + 1;
    }
    vars
}

/// Append `parts` joined with ` AND `.
fn push_joined(sql: &mut String, parts: &Vec<String>)
    ensures
        final(sql)@ == old(sql)@ + join(views(parts@), " AND "@),
{
    let ghost cv = views(parts@);
    let ghost start = sql@;
    let mut k: usize = 0;
    while k < parts.len()
        invariant
            k <= parts@.len(),
            cv == views(parts@),
            sql@ == start + join(cv.subrange(0, k as int), " AND "@),
        decreases parts@.len() - k,
    {
        if k > 0 {
            push(sql, " AND ");
        }
        push(sql, parts[k].as_str());
        proof {
            let p = cv.subrange(0, k + 1);
            assert(p.drop_last() =~= cv.subrange(0, k as int));
            if k == 0 {
                assert(sql@ =~= start + join(p, " AND "@));
            } else {
                assert(sql@ =~= start + join(p, " AND "@));
            }
        }
        k = k + 1;
    }
    assert(cv.subrange(0, cv.len() as int) =~= cv);
}

/// The statement text from its conditions.
fn assemble_sql(
    has_id: bool,
    conds: &Vec<String>,
    limit: Option<u64>,
    order_by: Option<&str>,
    desc: bool,
    Ghost(fields): Ghost<Seq<Seq<char>>>,
) -> (sql: String)
    requires
        views(conds@) == conditions(has_id, fields),
    ensures
        sql@ == read_sql(has_id, fields, limit, opt_seq(order_by), desc),
{
    let mut sql = String::from_str("SELECT record::id(id) AS id, data, rev");
    match order_by {
        Some(f) => {
            push(&mut sql, ", data.");
            push(&mut sql, f);
            push(&mut sql, " AS _ord OMIT _ord");
        },
        None => {},
    }
    push(&mut sql, " FROM type::table($tb)");
    if conds.len() > 0 {
        push(&mut sql, " WHERE ");
        push_joined(&mut sql, conds);
    }
    match order_by {
        Some(_) => {
            push(&mut sql, " ORDER BY _ord");
            if desc {
                push(&mut sql, " DESC");
            }
        },
        None => {},
    }
    let l = match limit {
        Some(l) => l,
        None => DEFAULT_LIMIT,
    };
    let l = if l < 1 {
        1
    } else if l > MAX_LIMIT {
        MAX_LIMIT
    } else {
        l
    };
    push(&mut sql, " LIMIT ");
    push_decimal(&mut sql, l);
    proof {
        assert(views(conds@).len() == conds@.len());
        assert(sql@ =~= read_sql(has_id, fields, limit, opt_seq(order_by), desc));
    }
    sql
}

/// Build the parameterized SELECT for a `store-read` over `table`, optionally one row by `id`,
/// filtered by the equality of each filter entry's field to its value (the value bound as `$f{i}`,
/// never spliced), ordered by a field (ascending unless `desc`), limited to the clamped limit. A
/// table, filter field or order field that is not an identifier is refused before anything is
/// built, in that order.
pub fn build_read_sql(
    table: &str,
    id: Option<&str>,
    filter: Vec<(String, Json)>,
    limit: Option<u64>,
    order_by: Option<&str>,
    desc: bool,
) -> (r: Result<ReadSql, String>)
    requires
        filter@.len() < usize::MAX,
    ensures
        match sql_error(table@, field_names(filter@), opt_seq(order_by)) {
            Some(msg) => r matches Err(e) && e@ == msg,
            None => r matches Ok(b) && built_as(b, table@, id, filter@, limit, opt_seq(order_by), desc),
        },
{
    let fields = filter_keys(&filter);
    if !is_ident(table) {
        return Err(crate::text::concat2("invalid table identifier: ", table));
    }
    match first_invalid_field(&fields) {
        Some(i) => {
            return Err(crate::text::concat2("invalid filter field identifier: ", fields[i].as_str()));
        },
        None => {},
    }
    match order_by {
        Some(f) => {
            if !is_ident(f) {
                return Err(crate::text::concat2("invalid order_by identifier: ", f));
            }
        },
        None => {},
    }
    assert(views(fields@).len() == fields@.len());
    let conds = build_conditions(id.is_some(), &fields);
    let sql = assemble_sql(id.is_some(), &conds, limit, order_by, desc, Ghost(views(fields@)));
    let vars = build_vars(table, id, filter);
    Ok(ReadSql { sql, vars })
}

} // verus!
