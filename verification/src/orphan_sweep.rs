//! The leaked-socket collector's marker reading: an armed-source marker is a node-state row carrying
//! `armed: true` and a `series`, keyed `{table}:{flow}:{node}`; a marker whose flow or node no longer
//! exists is disarmed.
use vstd::prelude::*;

use crate::ids::last_index_of;
use crate::text::{has_prefix, starts_with};

verus! {

/// A row is an armed-source marker when it is armed and names a series.
pub fn is_marker(armed: Option<bool>, has_series: bool) -> (b: bool)
    ensures
        b == (armed == Some(true) && has_series),
{
    match armed {
        Some(a) => a && has_series,
        None => false,
    }
}

/// The `(flow, node)` of a marker row id `{table}:{flow}:{node}`: strip the table prefix, split at
/// the last colon; `None` when either step fails.
pub open spec fn marker_key(table: Seq<char>, row_id: Seq<char>) -> Option<(Seq<char>, Seq<char>)> {
    let p = table + ":"@;
    if !has_prefix(row_id, p) {
        None
    } else {
        let rest = row_id.subrange(p.len() as int, row_id.len() as int);
        match last_index_of(rest, ':') {
            Some(i) => Some((rest.subrange(0, i), rest.subrange(i + 1, rest.len() as int))),
            None => None,
        }
    }
}

proof fn lemma_last_index(s: Seq<char>, c: char)
    ensures
        match last_index_of(s, c) {
            Some(i) => 0 <= i < s.len() && s[i] == c && forall|j: int| i < j < s.len() ==> s[j] != c,
            None => forall|j: int| 0 <= j < s.len() ==> s[j] != c,
        },
    decreases s.len(),
{
    if s.len() > 0 && s.last() != c {
        let t = s.drop_last();
        lemma_last_index(t, c);
        assert forall|j: int| 0 <= j < t.len() implies t[j] == s[j] by {}
    }
}

/// Parse a marker row id (see [`marker_key`]).
pub fn parse_marker_id(table: &str, row_id: &str) -> (r: Option<(String, String)>)
    ensures
        match r {
            Some((f, n)) => marker_key(table@, row_id@) == Some((f@, n@)),
            None => marker_key(table@, row_id@).is_none(),
        },
{
    let p = crate::text::concat2(table, ":");
    if !starts_with(row_id, p.as_str()) {
        return None;
    }
    let n = row_id.unicode_len();
    let start = p.as_str().unicode_len();
    let ghost rest = row_id@.subrange(start as int, n as int);
    let mut i = n;
    while i > start
        invariant
            start <= i <= n,
            n == row_id@.len(),
            start == p@.len(),
            p@ == table@ + ":"@,
            has_prefix(row_id@, p@),
            rest == row_id@.subrange(start as int, n as int),
            forall|j: int| i <= j < n ==> row_id@[j] != ':',
        decreases i,
    {
        if row_id.get_char(i - 1) == ':' {
            let f = row_id.substring_char(start, i - 1);
            let nd = row_id.substring_char(i, n);
            proof {
                lemma_last_index(rest, ':');
                let k = (i - 1 - start) as int;
                assert(rest[k] == ':');
                assert forall|j: int| k < j < rest.len() implies rest[j] != ':' by {
                    assert(rest[j] == row_id@[start + j]);
                }
                match last_index_of(rest, ':') {
                    Some(m) => {
                        assert(m == k);
                    },
                    None => {
                        assert(false);
                    },
                }
                assert(f@ =~= rest.subrange(0, k));
                assert(nd@ =~= rest.subrange(k + 1, rest.len() as int));
            }
            return Some((String::from_str(f), String::from_str(nd)));
        }
        i = i - 1;
    }
    proof {
        lemma_last_index(rest, ':');
        assert forall|j: int| 0 <= j < rest.len() implies rest[j] != ':' by {
            assert(rest[j] == row_id@[start + j]);
        }
        match last_index_of(rest, ':') {
            Some(m) => {
                assert(rest[m] == ':');
                assert(false);
            },
            None => {},
        }
    }
    None
}

/// An armed source's marker: the flow and node it was armed for.
pub struct ArmedMarker {
    pub flow_id: String,
    pub node_id: String,
}

/// The marker a scanned node-state row `(row_id, data)` holds: an armed row naming a series, whose
/// id parses as `{table}:{flow}:{node}`.
pub open spec fn marker_of(row_id: Seq<char>, data: crate::json::Json, table: Seq<char>) -> Option<(Seq<char>, Seq<char>)> {
    let body = crate::node_state::record_value(data);
    if crate::json::bool_field(body, "armed"@) == Some(true) && crate::json::str_field(body, "series"@).is_some() {
        marker_key(table, row_id)
    } else {
        None
    }
}

/// The markers of the scanned rows, in row order.
pub open spec fn markers_of(rows: Seq<(String, crate::json::Json)>, table: Seq<char>) -> Seq<(Seq<char>, Seq<char>)>
    decreases rows.len(),
{
    if rows.len() == 0 {
        Seq::empty()
    } else {
        let rest = markers_of(rows.drop_last(), table);
        match marker_of(rows.last().0@, rows.last().1, table) {
            Some(m) => rest.push(m),
            None => rest,
        }
    }
}

/// The armed markers among the scanned node-state rows of `table` (see [`marker_of`]).
pub fn armed_markers(rows: &Vec<(String, crate::json::Json)>, table: &str) -> (r: Vec<ArmedMarker>)
    ensures
        r@.len() == markers_of(rows@, table@).len(),
        forall|i: int| 0 <= i < r@.len() ==> ((#[trigger] r@[i]).flow_id@, r@[i].node_id@) == markers_of(rows@, table@)[i],
{
    let mut out: Vec<ArmedMarker> = Vec::new();
    let mut i: usize = 0;
    while i < rows.len()
        invariant
            i <= rows@.len(),
            out@.len() == markers_of(rows@.subrange(0, i as int), table@).len(),
            forall|j: int| 0 <= j < out@.len() ==> ((#[trigger] out@[j]).flow_id@, out@[j].node_id@) == markers_of(
                rows@.subrange(0, i as int),
                table@,
            )[j],
        decreases rows@.len() - i,
    {
        let ghost pre = rows@.subrange(0, i as int);
        let ghost nxt = rows@.subrange(0, i + 1);
        assert(nxt.drop_last() =~= pre);
        assert(nxt.last() == rows@[i as int]);
        let data = &rows[i].1;
        let body: &crate::json::Json = match data {
            crate::json::Json::Object(o) => match crate::json::entries_get(o, "data") {
                Some(b) => b,
                None => &crate::json::Json::Null,
            },
            other => other,
        };
        assert(*body == crate::node_state::record_value(*data));
        let armed = match crate::json::get_bool(body, "armed") {
            Some(b) => b,
            None => false,
        };
        let series = crate::json::get_str(body, "series").is_some();
        if is_marker(Some(armed), series) {
            match parse_marker_id(table, rows[i].0.as_str()) {
                Some((f, n)) => out.push(ArmedMarker { flow_id: f, node_id: n }),
                None => {},
            }
        }
        i = i + 1;
    }
    assert(rows@.subrange(0, rows@.len() as int) =~= rows@);
    out
}

/// A marker is an orphan when its `(flow, node)` is not among the live pairs.
pub open spec fn orphan(m: ArmedMarker, live: Seq<(String, String)>) -> bool {
    forall|j: int| 0 <= j < live.len() ==> !(#[trigger] live[j].0@ == m.flow_id@ && live[j].1@ == m.node_id@)
}

/// The orphaned markers (by index, ascending): those whose flow is gone or no longer declares the
/// node.
pub fn orphan_markers(markers: &Vec<ArmedMarker>, live: &Vec<(String, String)>) -> (r: Vec<usize>)
    ensures
        forall|a: int, b: int| 0 <= a < b < r@.len() ==> r@[a] < r@[b],
        forall|a: int| 0 <= a < r@.len() ==> r@[a] < markers@.len(),
        forall|i: int|
            0 <= i < markers@.len() ==> (orphan(#[trigger] markers@[i], live@) <==> r@.contains(i as usize)),
{
    let mut out: Vec<usize> = Vec::new();
    let mut i: usize = 0;
    while i < markers.len()
        invariant
            i <= markers@.len(),
            forall|a: int, b: int| 0 <= a < b < out@.len() ==> out@[a] < out@[b],
            forall|a: int| 0 <= a < out@.len() ==> out@[a] < i,
            forall|q: int| 0 <= q < markers@.len() ==> (orphan(#[trigger] markers@[q], live@) && q < i <==> out@.contains(q as usize)),
        decreases markers@.len() - i,
    {
        let mut j: usize = 0;
        let mut found = false;
        while j < live.len()
            invariant
                j <= live@.len(),
                i < markers@.len(),
                found == exists|k: int| 0 <= k < j && (#[trigger] live@[k]).0@ == markers@[i as int].flow_id@ && live@[k].1@ == markers@[i as int].node_id@,
            decreases live@.len() - j,
        {
            if crate::json::str_eq(live[j].0.as_str(), markers[i].flow_id.as_str()) && crate::json::str_eq(
                live[j].1.as_str(),
                markers[i].node_id.as_str(),
            ) {
                found = true;
            }
            j = j + 1;
        }
        let ghost before = out@;
        if !found {
            out.push(i);
        }
        proof {
            assert forall|q: int| 0 <= q < markers@.len() implies (orphan(#[trigger] markers@[q], live@) && q < i + 1 <==> out@.contains(q as usize)) by {
                if out@.contains(q as usize) {
                    let a = choose|a: int| 0 <= a < out@.len() && out@[a] == q as usize;
                    if a < before.len() {
                        assert(before.contains(q as usize));
                    }
                }
                if q < i && orphan(markers@[q], live@) {
                    assert(before.contains(q as usize));
                    let a = choose|a: int| 0 <= a < before.len() && before[a] == q as usize;
                    assert(out@[a] == q as usize);
                }
                if q == i && !found {
                    assert(out@[out@.len() - 1] == q as usize);
                }
                if q == i && found {
                    let k = choose|k: int| 0 <= k < live@.len() && (#[trigger] live@[k]).0@ == markers@[i as int].flow_id@ && live@[k].1@ == markers@[i as int].node_id@;
                    assert(!orphan(markers@[q], live@));
                }
            }
        }
        i = i + 1;
    }
    out
}

} // verus!
