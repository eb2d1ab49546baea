//! The node registry's view of an installed extension: the tools its install grant names.
use vstd::prelude::*;

use crate::text::{concat3, ends_with, has_prefix, has_suffix, starts_with};

verus! {

/// The tool an install grant names for extension `ext`: a grant `mcp:{ext}.{tool}:call` names
/// `tool`; any other grant names none.
pub open spec fn tool_of(ext: Seq<char>, grant: Seq<char>) -> Option<Seq<char>> {
    let p = "mcp:"@ + ext + "."@;
    if has_prefix(grant, p) {
        let rest = grant.subrange(p.len() as int, grant.len() as int);
        if has_suffix(rest, ":call"@) {
            Some(rest.subrange(0, rest.len() - 5))
        } else {
            None
        }
    } else {
        None
    }
}

/// The tools named by the grants, in order.
pub open spec fn tools_of(ext: Seq<char>, grants: Seq<String>) -> Seq<Seq<char>>
    decreases grants.len(),
{
    if grants.len() == 0 {
        Seq::empty()
    } else {
        let rest = tools_of(ext, grants.drop_last());
        match tool_of(ext, grants.last()@) {
            Some(t) => rest.push(t),
            None => rest,
        }
    }
}

/// The tools an extension's install grant names (see [`tool_of`]), in grant order.
pub fn install_tool_names(ext_id: &str, granted: &Vec<String>) -> (r: Vec<String>)
    ensures
        r@.len() == tools_of(ext_id@, granted@).len(),
        forall|i: int| 0 <= i < r@.len() ==> (#[trigger] r@[i])@ == tools_of(ext_id@, granted@)[i],
{
    let prefix = concat3("mcp:", ext_id, ".");
    let mut out: Vec<String> = Vec::new();
    let mut i: usize = 0;
    proof {
        reveal_strlit(":call");
    }
    while i < granted.len()
        invariant
            i <= granted@.len(),
            prefix@ == "mcp:"@ + ext_id@ + "."@,
            ":call"@.len() == 5,
            out@.len() == tools_of(ext_id@, granted@.subrange(0, i as int)).len(),
            forall|j: int| 0 <= j < out@.len() ==> (#[trigger] out@[j])@ == tools_of(ext_id@, granted@.subrange(0, i as int))[j],
        decreases granted@.len() - i,
    {
        let ghost pre = granted@.subrange(0, i as int);
        let ghost nxt = granted@.subrange(0, i + 1);
        assert(nxt.drop_last() =~= pre);
        assert(nxt.last() == granted@[i as int]);
        let c = granted[i].as_str();
        if starts_with(c, prefix.as_str()) {
            let n = c.unicode_len();
            let p = prefix.as_str().unicode_len();
            let rest = c.substring_char(p, n);
            if ends_with(rest, ":call") {
                let m = rest.unicode_len();
                let t = rest.substring_char(0, m - 5);
                out.push(String::from_str(t));
            }
        }
        i = i + 1;
    }
    assert(granted@.subrange(0, granted@.len() as int) =~= granted@);
    out
}

} // verus!
