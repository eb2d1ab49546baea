//! The `forms.*` verb bridge's argument reading: a verb name selects the verb, a string argument
//! must be a string, and a time argument is a non-negative integer or its decimal text (surrounding
//! whitespace tolerated), with steering messages naming the expected encoding.
use vstd::prelude::*;

use crate::json::Json;
use crate::save::{trim, trim_str};
use crate::subflow::{all_digits, digits_value, unsigned_part};

verus! {

/// A `forms.*` verb.
#[derive(Clone, Copy, Debug, PartialEq, Eq, Structural)]
pub enum FormsVerb {
    Get,
    List,
    Save,
    Delete,
}

/// The verb a qualified tool name selects (`None`: not a form verb).
pub fn forms_verb(qualified: &str) -> (v: Option<FormsVerb>)
    ensures
        v == if qualified@ == "forms.get"@ {
            Some(FormsVerb::Get)
        } else if qualified@ == "forms.list"@ {
            Some(FormsVerb::List)
        } else if qualified@ == "forms.save"@ {
            Some(FormsVerb::Save)
        } else if qualified@ == "forms.delete"@ {
            Some(FormsVerb::Delete)
        } else {
            None
        },
{
    if crate::json::str_eq(qualified, "forms.get") {
        Some(FormsVerb::Get)
    } else if crate::json::str_eq(qualified, "forms.list") {
        Some(FormsVerb::List)
    } else if crate::json::str_eq(qualified, "forms.save") {
        Some(FormsVerb::Save)
    } else if crate::json::str_eq(qualified, "forms.delete") {
        Some(FormsVerb::Delete)
    } else {
        None
    }
}

/// `u64::from_str`: an optional `+`, then at least one decimal digit, with a value that fits.
pub open spec fn parse_u64_spec(s: Seq<char>) -> Option<u64> {
    if unsigned_part(s).len() > 0 && all_digits(unsigned_part(s)) && digits_value(unsigned_part(s)) <= u64::MAX {
        Some(digits_value(unsigned_part(s)) as u64)
    } else {
        None
    }
}

proof fn lemma_digits_prefix_le(d: Seq<char>, k: int)
    requires
        0 <= k <= d.len(),
        all_digits(d),
    ensures
        digits_value(d.subrange(0, k)) <= digits_value(d),
    decreases d.len() - k,
{
    if k < d.len() {
        lemma_digits_prefix_le(d, k + 1);
        let p = d.subrange(0, k + 1);
        assert(p.drop_last() =~= d.subrange(0, k));
    } else {
        assert(d.subrange(0, k) =~= d);
    }
}

/// Parse a `u64` as `str::parse::<u64>` does.
pub fn parse_u64(s: &str) -> (r: Option<u64>)
    ensures
        r == parse_u64_spec(s@),
{
    let n = s.unicode_len();
    let start: usize = if n > 0 && s.get_char(0) == '+' {
        1
    } else {
        0
    };
    let ghost d = unsigned_part(s@);
    assert(d =~= s@.subrange(start as int, n as int));
    if start == n {
        return None;
    }
    let mut acc: u128 = 0;
    let mut i = start;
    while i < n
        invariant
            start <= i <= n,
            n == s@.len(),
            start < n,
            d == s@.subrange(start as int, n as int),
            d == unsigned_part(s@),
            forall|j: int| start <= j < i ==> crate::text::is_ascii_digit(#[trigger] s@[j]),
            acc == digits_value(d.subrange(0, i - start)),
            acc <= u64::MAX,
        decreases n - i,
    {
        let c = s.get_char(i);
        if !('0' <= c && c <= '9') {
            proof {
                assert(!crate::text::is_ascii_digit(d[i - start]));
                assert(!all_digits(d));
            }
            return None;
        }
        let v = (c as u32 - '0' as u32) as u128;
        let next = acc * 10 + v;
        proof {
            let p = d.subrange(0, i + 1 - start);
            assert(p.drop_last() =~= d.subrange(0, i - start));
            assert(p.last() == c);
        }
        if next > u64::MAX as u128 {
            proof {
                if all_digits(d) {
                    lemma_digits_prefix_le(d, i + 1 - start);
                }
            }
            return None;
        }
        acc = next;
        i = i + 1;
    }
    proof {
        assert(d.subrange(0, n - start) =~= d);
        assert forall|j: int| 0 <= j < d.len() implies crate::text::is_ascii_digit(#[trigger] d[j]) by {
            assert(d[j] == s@[start + j]);
        }
    }
    Some(acc as u64)
}

/// The string argument `key` of a verb call, or the refusal: `missing arg: {key}` when absent,
/// `arg not a string: {key}` when not a string.
pub fn str_arg<'a>(input: &'a Json, key: &str) -> (r: Result<&'a str, String>)
    ensures
        match input.field(key@) {
            None => r matches Err(e) && e@ == "missing arg: "@ + key@,
            Some(Json::Str(s)) => r matches Ok(t) && t@ == s@,
            Some(_) => r matches Err(e) && e@ == "arg not a string: "@ + key@,
        },
{
    match input.get(key) {
        None => Err(crate::text::concat2("missing arg: ", key)),
        Some(v) => match v {
            Json::Str(s) => Ok(s.as_str()),
            _ => Err(crate::text::concat2("arg not a string: ", key)),
        },
    }
}

/// The time argument `key` of a verb call: a non-negative integer, or a string whose trimmed text
/// parses as one; else the refusal naming the expected encoding.
pub fn u64_arg(input: &Json, key: &str) -> (r: Result<u64, String>)
    ensures
        match input.field(key@) {
            None => r matches Err(e) && e@ == "missing arg: "@ + key@,
            Some(Json::UInt(n)) => r == Ok::<u64, String>(n),
            Some(Json::Str(s)) => match parse_u64_spec(trim(s@)) {
                Some(n) => r == Ok::<u64, String>(n),
                None => r matches Err(e) && e@ == "arg not a u64: "@ + key@ + " — pass unix epoch seconds as a JSON number"@,
            },
            Some(_) => r matches Err(e) && e@ == "arg not a u64: "@ + key@ + " — pass unix epoch seconds as a JSON number"@,
        },
{
    let v = match input.get(key) {
        None => {
            return Err(crate::text::concat2("missing arg: ", key));
        },
        Some(v) => v,
    };
    let parsed = match v {
        Json::UInt(n) => Some(*n),
        Json::Str(s) => parse_u64(trim_str(s.as_str())),
        _ => None,
    };
    match parsed {
        Some(n) => Ok(n),
        None => Err(crate::text::concat3("arg not a u64: ", key, " — pass unix epoch seconds as a JSON number")),
    }
}

/// The steering refusal for a structured argument `key` that arrived as text that is not JSON.
pub open spec fn typed_arg_refusal(key: Seq<char>) -> Seq<char> {
    key + ": arrived as a string that is not valid JSON — pass a JSON object, not a JSON-encoded string"@
}

/// A structured argument `key` that arrived as text, given what reading the text as JSON gave: the
/// value read, or the refusal naming the right encoding.
pub fn typed_arg_of_text(key: &str, parsed: Result<Json, String>) -> (r: Result<Json, String>)
    ensures
        match parsed {
            Ok(j) => r == Ok::<Json, String>(j),
            Err(_) => r matches Err(e) && e@ == typed_arg_refusal(key@),
        },
{
    match parsed {
        Ok(j) => Ok(j),
        Err(_) => Err(crate::text::concat2(
            key,
            ": arrived as a string that is not valid JSON — pass a JSON object, not a JSON-encoded string",
        )),
    }
}

/// A structured argument, tolerating the JSON-encoded-string form: a string is read as JSON text
/// (text that is not JSON is refused with a message naming the right encoding); any other value is
/// taken as it is.
pub fn typed_arg(v: &Json, key: &str) -> (r: Result<Json, String>)
    ensures
        match *v {
            Json::Str(s) => match crate::json_text::json_text_value(s@) {
                Ok(j) => r == Ok::<Json, String>(j),
                Err(_) => r matches Err(e) && e@ == typed_arg_refusal(key@),
            },
            _ => r matches Ok(j) && crate::json::same_json(*v, j),
        },
{
    match v {
        Json::Str(s) => typed_arg_of_text(key, crate::json_text::parse_json_text(s.as_str())),
        other => Ok(other.duplicate()),
    }
}

} // verus!
