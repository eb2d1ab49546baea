//! The `subflow` node's reference and the extension nodes' calls: a child flow is named `id` or
//! `id@version`; an `ext-call` names `ext` and `tool`; an `ext-list` keeps the listed extensions
//! (or only the running ones).
use vstd::prelude::*;

use crate::text::{concat3, is_ascii_digit};

verus! {

/// The value of a run of decimal digits.
pub open spec fn digits_value(s: Seq<char>) -> nat
    decreases s.len(),
{
    if s.len() == 0 {
        0
    } else {
        digits_value(s.drop_last()) * 10 + ((s.last() as int) - ('0' as int)) as nat
    }
}

/// The text after an optional leading `+`.
pub open spec fn unsigned_part(s: Seq<char>) -> Seq<char> {
    if s.len() > 0 && s[0] == '+' {
        s.drop_first()
    } else {
        s
    }
}

/// Every character is a decimal digit.
pub open spec fn all_digits(d: Seq<char>) -> bool {
    forall|i: int| 0 <= i < d.len() ==> is_ascii_digit(#[trigger] d[i])
}

/// `u32::from_str`: an optional `+`, then at least one decimal digit, with a value that fits.
pub open spec fn parse_u32_spec(s: Seq<char>) -> Option<u32> {
    if unsigned_part(s).len() > 0 && all_digits(unsigned_part(s)) && digits_value(unsigned_part(s)) <= u32::MAX {
        Some(digits_value(unsigned_part(s)) as u32)
    } else {
        None
    }
}

proof fn lemma_digits_monotone(d: Seq<char>, k: int)
    requires
        0 <= k <= d.len(),
        forall|i: int| 0 <= i < d.len() ==> is_ascii_digit(#[trigger] d[i]),
    ensures
        digits_value(d.subrange(0, k)) <= digits_value(d),
    decreases d.len() - k,
{
    if k < d.len() {
        lemma_digits_monotone(d, k + 1);
        let p = d.subrange(0, k + 1);
        assert(p.drop_last() =~= d.subrange(0, k));
    } else {
        assert(d.subrange(0, k) =~= d);
    }
}

/// Parse a `u32` as `str::parse::<u32>` does.
pub fn parse_u32(s: &str) -> (r: Option<u32>)
    ensures
        r == parse_u32_spec(s@),
{
    let n = s.unicode_len();
    let start: usize = if n > 0 && s.get_char(0) == '+' {
        1
    } else {
        0
    };
    let ghost d = unsigned_part(s@);
    assert(d =~= s@.subrange(start as int, n as int));
    if start == n {
        return None;
    }
    let mut acc: u64 = 0;
    let mut i = start;
    while i < n
        invariant
            start <= i <= n,
            n == s@.len(),
            start < n,
            d == s@.subrange(start as int, n as int),
            d == unsigned_part(s@),
            forall|j: int| start <= j < i ==> is_ascii_digit(#[trigger] s@[j]),
            acc == digits_value(d.subrange(0, i - start)),
            acc <= u32::MAX,
        decreases n - i,
    {
        let c = s.get_char(i);
        if !('0' <= c && c <= '9') {
            proof {
                assert(!is_ascii_digit(d[i - start]));
                assert(!all_digits(d));
            }
            return None;
        }
        let v = (c as u32 - '0' as u32) as u64;
        let next = acc * 10 + v;
        proof {
            let p = d.subrange(0, i + 1 - start);
            assert(p.drop_last() =~= d.subrange(0, i - start));
            assert(p.last() == c);
        }
        if next > u32::MAX as u64 {
            proof {
                assert forall|j: int| 0 <= j < d.len() implies is_ascii_digit(#[trigger] d[j]) || j > i - start by {}
                if all_digits(d) {
                    lemma_digits_monotone(d, i + 1 - start);
                }
            }
            return None;
        }
        acc = next;
        i = i + 1;
    }
    proof {
        assert(d.subrange(0, n - start) =~= d);
        assert forall|j: int| 0 <= j < d.len() implies is_ascii_digit(#[trigger] d[j]) by {
            assert(d[j] == s@[start + j]);
        }
        assert(all_digits(d));
    }
    Some(acc as u32)
}

/// The index of the first `@` in `s`, if any.
pub open spec fn first_at(s: Seq<char>) -> Option<int> {
    if exists|i: int| 0 <= i < s.len() && s[i] == '@' {
        Some(choose|i: int| 0 <= i < s.len() && s[i] == '@' && forall|j: int| 0 <= j < i ==> s[j] != '@')
    } else {
        None
    }
}

/// A subflow reference: `id@version` (an unparsable version reads 0), or a bare `id` (version 0).
pub fn split_subflow_spec(spec: &str) -> (r: (String, u32))
    ensures
        match first_at(spec@) {
            Some(i) => r.0@ == spec@.subrange(0, i) && r.1 == match parse_u32_spec(spec@.subrange(i + 1, spec@.len() as int)) {
                Some(v) => v,
                None => 0u32,
            },
            None => r.0@ == spec@ && r.1 == 0,
        },
{
    let n = spec.unicode_len();
    let mut i: usize = 0;
    while i < n
        invariant
            i <= n,
            n == spec@.len(),
            forall|j: int| 0 <= j < i ==> spec@[j] != '@',
        decreases n - i,
    {
        if spec.get_char(i) == '@' {
            let id = spec.substring_char(0, i);
            let ver = spec.substring_char(i + 1, n);
            let v = match parse_u32(ver) {
                Some(v) => v,
                None => 0,
            };
            proof {
                let c = choose|k: int| 0 <= k < spec@.len() && spec@[k] == '@' && forall|j: int| 0 <= j < k ==> spec@[j] != '@';
                if c < i {
                    assert(spec@[c] != '@');
                }
                if c > i {
                    assert(spec@[i as int] != '@');
                }
            }
            return (String::from_str(id), v);
        }
        i = i + 1;
    }
    (String::from_str(spec), 0)
}

/// The verb an `ext-call` node dispatches: `{ext}.{tool}`, refused when either part is empty (the
/// extension first).
pub fn ext_call_verb(ext: &str, tool: &str) -> (r: Result<String, String>)
    ensures
        ext@.len() == 0 ==> (r matches Err(e) && e@ == "ext-call node missing config.ext"@),
        ext@.len() > 0 && tool@.len() == 0 ==> (r matches Err(e) && e@ == "ext-call node missing config.tool"@),
        ext@.len() > 0 && tool@.len() > 0 ==> (r matches Ok(v) && v@ == ext@ + "."@ + tool@),
{
    if ext.unicode_len() == 0 {
        return Err(String::from_str("ext-call node missing config.ext"));
    }
    if tool.unicode_len() == 0 {
        return Err(String::from_str("ext-call node missing config.tool"));
    }
    Ok(concat3(ext, ".", tool))
}

/// An extension row reports itself running.
pub open spec fn is_running(row: crate::json::Json) -> bool {
    crate::json::bool_field(row, "running"@) == Some(true)
}

/// The rows kept from a list: all of them, or (when `running_only`) the running ones, in order.
pub open spec fn kept_rows(rows: Seq<crate::json::Json>, running_only: bool) -> Seq<crate::json::Json>
    decreases rows.len(),
{
    if rows.len() == 0 {
        Seq::empty()
    } else {
        let rest = kept_rows(rows.drop_last(), running_only);
        if !running_only || is_running(rows.last()) {
            rest.push(rows.last())
        } else {
            rest
        }
    }
}

/// The `ext-list` node's payload from the `ext.list` reply: its `extensions` array (empty when
/// absent or not an array), keeping only the running extensions when `running_only`.
pub fn extension_rows(emitted: crate::json::Json, running_only: bool) -> (r: Vec<crate::json::Json>)
    ensures
        r@ == kept_rows(
            match emitted.field("extensions"@) {
                Some(crate::json::Json::Array(a)) => a@,
                _ => Seq::empty(),
            },
            running_only,
        ),
{
    let ghost g = emitted;
    let rows = match emitted.take_field("extensions") {
        Some(crate::json::Json::Array(a)) => a,
        _ => Vec::new(),
    };
    let ghost all = rows@;
    assert(all.len() == rows.len());
    let mut rest = rows;
    let mut out: Vec<crate::json::Json> = Vec::new();
    let mut k: usize = 0;
    while rest.len() > 0
        invariant
            all.len() <= usize::MAX,
            k + rest@.len() == all.len(),
            rest@ == all.subrange(k as int, all.len() as int),
            out@ == kept_rows(all.subrange(0, k as int), running_only),
        decreases rest@.len(),
    {
        let row = rest.remove(0);
        assert(rest@ =~= all.subrange(k + 1, all.len() as int));
        let ghost pre = all.subrange(0, k as int);
        let ghost nxt = all.subrange(0, k + 1);
        assert(nxt.drop_last() =~= pre);
        assert(nxt.last() == row);
        let keep = !running_only || match crate::json::get_bool(&row, "running") {
            Some(b) => b,
            None => false,
        };
        if keep {
            out.push(row);
        }
        k = k + 1;
    }
    assert(all.subrange(0, all.len() as int) =~= all);
    out
}

} // verus!
