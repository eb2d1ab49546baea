//! The debug stream's content format: an explicit `format` is authoritative; `auto` sniffs the
//! payload (a JSON container, or a string that parses as one, is `json`; a string with markdown
//! markers is `markdown`; anything else is `text`).
use vstd::prelude::*;

use crate::json::{str_eq, Json};
use crate::json_text::{json_text_value, parse_json_text};
use crate::text::{has_prefix, starts_with};

verus! {

/// A resolved content format.
#[derive(Clone, Copy, Debug, PartialEq, Eq, Structural)]
pub enum DebugFormat {
    JsonFormat,
    Text,
    Markdown,
}

/// The wire label of a format.
pub fn format_label(f: DebugFormat) -> (s: &'static str)
    ensures
        s@ == match f {
            DebugFormat::JsonFormat => "json"@,
            DebugFormat::Text => "text"@,
            DebugFormat::Markdown => "markdown"@,
        },
{
    match f {
        DebugFormat::JsonFormat => "json",
        DebugFormat::Text => "text",
        DebugFormat::Markdown => "markdown",
    }
}

/// Whether `text` reads (with `serde_json`) as a JSON object or array.
pub open spec fn parses_as_json_container(text: Seq<char>) -> bool {
    match json_text_value(text) {
        Ok(Json::Object(_)) => true,
        Ok(Json::Array(_)) => true,
        _ => false,
    }
}

/// Whether a JSON reading gave an object or an array.
pub fn is_container_reading(parsed: &Result<Json, String>) -> (b: bool)
    ensures
        b == match parsed {
            Ok(Json::Object(_)) => true,
            Ok(Json::Array(_)) => true,
            _ => false,
        },
{
    match parsed {
        Ok(Json::Object(_)) => true,
        Ok(Json::Array(_)) => true,
        _ => false,
    }
}

/// Does `text` read as a JSON object or array?
fn json_text_is_container(text: &str) -> (b: bool)
    ensures
        b == parses_as_json_container(text@),
{
    let parsed = parse_json_text(text);
    is_container_reading(&parsed)
}

/// `char::is_whitespace`: the Unicode `White_Space` characters.
pub open spec fn is_ws(c: char) -> bool {
    c == '\t' || c == '\n' || c == '\u{0B}' || c == '\u{0C}' || c == '\r' || c == ' ' || c
        == '\u{85}' || c == '\u{A0}' || c == '\u{1680}' || ('\u{2000}' <= c && c <= '\u{200A}')
        || c == '\u{2028}' || c == '\u{2029}' || c == '\u{202F}' || c == '\u{205F}' || c
        == '\u{3000}'
}

/// `char::is_whitespace`.
pub fn ws(c: char) -> (b: bool)
    ensures
        b == is_ws(c),
{
    c == '\t' || c == '\n' || c == '\u{0B}' || c == '\u{0C}' || c == '\r' || c == ' ' || c
        == '\u{85}' || c == '\u{A0}' || c == '\u{1680}' || ('\u{2000}' <= c && c <= '\u{200A}')
        || c == '\u{2028}' || c == '\u{2029}' || c == '\u{202F}' || c == '\u{205F}' || c
        == '\u{3000}'
}

/// The number of leading whitespace characters of `s`.
pub open spec fn leading_ws(s: Seq<char>) -> nat
    decreases s.len(),
{
    if s.len() > 0 && is_ws(s[0]) {
        1 + leading_ws(s.drop_first())
    } else {
        0
    }
}

/// `str::trim_start`.
pub open spec fn trim_start(s: Seq<char>) -> Seq<char> {
    s.subrange(leading_ws(s) as int, s.len() as int)
}

proof fn lemma_leading_ws(s: Seq<char>)
    ensures
        leading_ws(s) <= s.len(),
        forall|i: int| 0 <= i < leading_ws(s) ==> is_ws(s[i]),
        leading_ws(s) < s.len() ==> !is_ws(s[leading_ws(s) as int]),
    decreases s.len(),
{
    if s.len() > 0 && is_ws(s[0]) {
        let t = s.drop_first();
        lemma_leading_ws(t);
        assert forall|i: int| 0 <= i < leading_ws(s) implies is_ws(s[i]) by {
            if i > 0 {
                assert(s[i] == t[i - 1]);
            }
        }
        if leading_ws(s) < s.len() {
            assert(s[leading_ws(s) as int] == t[leading_ws(t) as int]);
        }
    }
}

/// The leading-whitespace facts, for other modules.
pub proof fn lemma_leading_ws_pub(s: Seq<char>)
    ensures
        leading_ws(s) <= s.len(),
        forall|i: int| 0 <= i < leading_ws(s) ==> is_ws(s[i]),
        leading_ws(s) < s.len() ==> !is_ws(s[leading_ws(s) as int]),
{
    lemma_leading_ws(s);
}

/// The index where `s`'s leading whitespace ends.
fn trim_start_index(s: &str, from: usize, to: usize) -> (k: usize)
    requires
        from <= to <= s@.len(),
    ensures
        k == from + leading_ws(s@.subrange(from as int, to as int)),
        k <= to,
{
    let ghost t = s@.subrange(from as int, to as int);
    proof {
        lemma_leading_ws(t);
    }
    let mut k = from;
    while k < to && ws(s.get_char(k))
        invariant
            from <= k <= to,
            to <= s@.len(),
            t == s@.subrange(from as int, to as int),
            k - from <= leading_ws(t),
            leading_ws(t) <= t.len(),
            forall|i: int| 0 <= i < leading_ws(t) ==> is_ws(t[i]),
            leading_ws(t) < t.len() ==> !is_ws(t[leading_ws(t) as int]),
        decreases to - k,
    {
        assert(t[k - from] == s@[k as int]);
        k = k + 1;
    }
    proof {
        if k < to {
            assert(t[k - from] == s@[k as int]);
        }
    }
    k
}

/// The lines of `s` (as `str::lines`): split at `\n`, a `\r` right before a `\n` dropped, and no
/// empty line after a final line ending. Each line is given as `(start, end)` indices into `s`.
pub open spec fn line_at(s: Seq<char>, start: int) -> (int, int, int) {
    // (line start, line end without the terminator, next line start)
    let nl = first_newline(s, start);
    if nl < s.len() {
        let end = if nl > start && s[nl - 1] == '\r' {
            nl - 1
        } else {
            nl
        };
        (start, end, nl + 1)
    } else {
        (start, s.len() as int, s.len() as int)
    }
}

/// The index of the first `\n` at or after `start` (`s.len()` when none).
pub open spec fn first_newline(s: Seq<char>, start: int) -> int
    decreases s.len() - start,
{
    if start >= s.len() || start < 0 {
        s.len() as int
    } else if s[start] == '\n' {
        start
    } else {
        first_newline(s, start + 1)
    }
}

proof fn lemma_first_newline(s: Seq<char>, start: int)
    requires
        0 <= start <= s.len(),
    ensures
        start <= first_newline(s, start) <= s.len(),
        first_newline(s, start) < s.len() ==> s[first_newline(s, start)] == '\n',
        forall|i: int| start <= i < first_newline(s, start) ==> s[i] != '\n',
    decreases s.len() - start,
{
    if start < s.len() && s[start] != '\n' {
        lemma_first_newline(s, start + 1);
    }
}

/// A line (already start-trimmed) that marks markdown: a heading (`#` followed by whitespace, `#`,
/// or nothing), a bullet or checkbox (`- ` or `* ` with something after it), or a blockquote (`> `).
pub open spec fn marker_line(l: Seq<char>) -> bool {
    (l.len() >= 1 && l[0] == '#' && (l.len() == 1 || is_ws(l[1]) || l[1] == '#'))
        || ((has_prefix(l, "- "@) || has_prefix(l, "* "@)) && l.len() > 2)
        || has_prefix(l, "> "@)
}

/// Whether one of the first `budget` lines of `t` from `start` is a marker line.
pub open spec fn marked_lines(t: Seq<char>, start: int, budget: nat) -> bool
    decreases budget, t.len() - start,
{
    if budget == 0 || start >= t.len() || start < 0 {
        false
    } else {
        let (a, b, next) = line_at(t, start);
        marker_line(trim_start(t.subrange(a, b))) || (next > start && marked_lines(t, next, (budget - 1) as nat))
    }
}

/// Markdown heuristic: after leading whitespace, a fenced code block, or one of the first eight lines
/// (each start-trimmed) is a heading, a bullet or a blockquote.
pub open spec fn looks_like_markdown_spec(s: Seq<char>) -> bool {
    let t = trim_start(s);
    has_prefix(t, "```"@) || marked_lines(t, 0, 8)
}

/// Is the trimmed line `s[from..to]` a marker line?
fn is_marker_line(s: &str, from: usize, to: usize) -> (b: bool)
    requires
        from <= to <= s@.len(),
    ensures
        b == marker_line(trim_start(s@.subrange(from as int, to as int))),
{
    let k = trim_start_index(s, from, to);
    let l = s.substring_char(k, to);
    proof {
        let t = s@.subrange(from as int, to as int);
        assert(l@ =~= trim_start(t));
        reveal_strlit("- ");
        reveal_strlit("* ");
        reveal_strlit("> ");
    }
    let n = l.unicode_len();
    if n >= 1 && l.get_char(0) == '#' && (n == 1 || ws(l.get_char(1)) || l.get_char(1) == '#') {
        return true;
    }
    if (starts_with(l, "- ") || starts_with(l, "* ")) && n > 2 {
        return true;
    }
    starts_with(l, "> ")
}

/// The markdown heuristic (see [`looks_like_markdown_spec`]).
pub fn looks_like_markdown(s: &str) -> (b: bool)
    ensures
        b == looks_like_markdown_spec(s@),
{
    let n = s.unicode_len();
    let k0 = trim_start_index(s, 0, n);
    let t = s.substring_char(k0, n);
    proof {
        assert(s@.subrange(0, n as int) =~= s@);
        assert(t@ =~= trim_start(s@));
    }
    if starts_with(t, "```") {
        return true;
    }
    let m = t.unicode_len();
    let mut start: usize = 0;
    let mut budget: usize = 8;
    while budget > 0 && start < m
        invariant
            m == t@.len(),
            t@ == trim_start(s@),
            start <= m,
            budget <= 8,
            marked_lines(t@, 0, 8) == marked_lines(t@, start as int, budget as nat),
        decreases budget,
    {
        let mut nl = start;
        while nl < m && t.get_char(nl) != '\n'
            invariant
                start <= nl <= m,
                m == t@.len(),
                first_newline(t@, start as int) == first_newline(t@, nl as int),
            decreases m - nl,
        {
            nl = nl + 1;
        }
        proof {
            lemma_first_newline(t@, start as int);
            assert(first_newline(t@, nl as int) == nl);
        }
        let (end, next) = if nl < m {
            let e = if nl > start && t.get_char(nl - 1) == '\r' {
                nl - 1
            } else {
                nl
            };
            (e, nl + 1)
        } else {
            (m, m)
        };
        proof {
            assert(line_at(t@, start as int) == (start as int, end as int, next as int));
        }
        if is_marker_line(t, start, end) {
            proof {
                assert(marker_line(trim_start(t@.subrange(start as int, end as int))));
                assert(marked_lines(t@, start as int, budget as nat));
                assert(marked_lines(t@, 0, 8));
                assert(looks_like_markdown_spec(s@));
            }
            return true;
        }
        if next <= start {
            proof {
                assert(!marked_lines(t@, start as int, budget as nat));
            }
            return false;
        }
        start = next;
        budget = budget - 1;
    }
    false
}

/// Resolve a payload's content format. An explicit `json`/`text`/`markdown` is returned as is;
/// otherwise (`auto`, or anything else) a JSON object or array is `json`, a string that parses as a
/// JSON object or array is `json`, a string that looks like markdown is `markdown`, and anything
/// else is `text`.
pub fn resolve_format(declared: &str, payload: &Json) -> (f: DebugFormat)
    ensures
        f == if declared@ == "json"@ {
            DebugFormat::JsonFormat
        } else if declared@ == "text"@ {
            DebugFormat::Text
        } else if declared@ == "markdown"@ {
            DebugFormat::Markdown
        } else {
            match payload {
                Json::Object(_) => DebugFormat::JsonFormat,
                Json::Array(_) => DebugFormat::JsonFormat,
                Json::Str(s) => if parses_as_json_container(s@) {
                    DebugFormat::JsonFormat
                } else if looks_like_markdown_spec(s@) {
                    DebugFormat::Markdown
                } else {
                    DebugFormat::Text
                },
                _ => DebugFormat::Text,
            }
        },
{
    if str_eq(declared, "json") {
        return DebugFormat::JsonFormat;
    }
    if str_eq(declared, "text") {
        return DebugFormat::Text;
    }
    if str_eq(declared, "markdown") {
        return DebugFormat::Markdown;
    }
    match payload {
        Json::Object(_) => DebugFormat::JsonFormat,
        Json::Array(_) => DebugFormat::JsonFormat,
        Json::Str(s) => {
            if json_text_is_container(s.as_str()) {
                DebugFormat::JsonFormat
            } else if looks_like_markdown(s.as_str()) {
                DebugFormat::Markdown
            } else {
                DebugFormat::Text
            }
        },
        _ => DebugFormat::Text,
    }
}

} // verus!
