//! The `switch` node's edge gating: ordered rules, each naming the dependents wired to its output.
//! The matched rules' targets fire (only the first match under `stop_on_first`); an `else` rule is a
//! fallthrough that contributes only when no concrete rule matched. Unmatched dependents are gated.
use vstd::prelude::*;

use crate::json::{get_str, str_eq, Json};
use crate::text::{contains_str, seq_has};

verus! {

/// One routing rule: whether it is the `else` fallthrough, whether its predicate matched the routed
/// value (meaningless for `else`), and the dependents it fires.
pub struct SwitchRule {
    pub is_else: bool,
    pub matched: bool,
    pub to: Vec<String>,
}

/// A concrete (non-`else`) rule that matched.
pub open spec fn hit(r: SwitchRule) -> bool {
    !r.is_else && r.matched
}

/// The index of the first rule satisfying `p` among `rules[from..]`.
pub open spec fn first_where(rules: Seq<SwitchRule>, from: int, want_else: bool) -> Option<int>
    decreases rules.len() - from,
{
    if from >= rules.len() || from < 0 {
        None
    } else if (want_else && rules[from].is_else) || (!want_else && hit(rules[from])) {
        Some(from)
    } else {
        first_where(rules, from + 1, want_else)
    }
}

/// `t` is a target of a concrete hit among the first `n` rules.
pub open spec fn hit_targets(rules: Seq<SwitchRule>, n: int, t: Seq<char>) -> bool {
    exists|j: int| 0 <= j < n && #[trigger] hit(rules[j]) && seq_has(rules[j].to@, t)
}

/// `t` is a target of an `else` rule among the first `n` rules.
pub open spec fn else_targets(rules: Seq<SwitchRule>, n: int, t: Seq<char>) -> bool {
    exists|j: int| 0 <= j < n && #[trigger] rules[j].is_else && seq_has(rules[j].to@, t)
}

/// Does some rule hit?
pub open spec fn any_hit(rules: Seq<SwitchRule>) -> bool {
    exists|i: int| 0 <= i < rules.len() && #[trigger] hit(rules[i])
}

/// Does dependent `t` fire? With a concrete match: a target of the first hit (under
/// `stop_on_first`) or of any hit. Without one: a target of the first `else` rule (under
/// `stop_on_first`) or of any `else` rule.
pub open spec fn fires(rules: Seq<SwitchRule>, stop_on_first: bool, t: Seq<char>) -> bool {
    if any_hit(rules) {
        if stop_on_first {
            first_where(rules, 0, false) matches Some(i) && seq_has(rules[i].to@, t)
        } else {
            hit_targets(rules, rules.len() as int, t)
        }
    } else {
        if stop_on_first {
            first_where(rules, 0, true) matches Some(i) && seq_has(rules[i].to@, t)
        } else {
            else_targets(rules, rules.len() as int, t)
        }
    }
}

proof fn lemma_first_where(rules: Seq<SwitchRule>, from: int, want_else: bool)
    requires
        0 <= from,
    ensures
        match first_where(rules, from, want_else) {
            Some(i) => from <= i < rules.len() && ((want_else && rules[i].is_else) || (!want_else && hit(rules[i])))
                && forall|j: int| from <= j < i ==> !((want_else && rules[j].is_else) || (!want_else && hit(#[trigger] rules[j]))),
            None => forall|j: int| from <= j < rules.len() ==> !((want_else && rules[j].is_else) || (!want_else && hit(#[trigger] rules[j]))),
        },
    decreases rules.len() - from,
{
    if from < rules.len() {
        lemma_first_where(rules, from + 1, want_else);
    }
}

/// `t` is among the first `n` strings.
pub open spec fn prefix_has(to: Seq<String>, n: int, t: Seq<char>) -> bool {
    exists|j: int| 0 <= j < n && #[trigger] to[j]@ == t
}

/// Some concrete rule among the first `n` hit.
pub open spec fn hit_upto(rules: Seq<SwitchRule>, n: int) -> bool {
    exists|j: int| 0 <= j < n && #[trigger] hit(rules[j])
}

/// No string occurs twice.
pub open spec fn no_repeats(v: Seq<String>) -> bool {
    forall|a: int, b: int| 0 <= a < b < v.len() ==> v[a]@ != v[b]@
}

/// Is `t` among `v`?
fn has_str(v: &Vec<String>, t: &str) -> (b: bool)
    ensures
        b == seq_has(v@, t@),
{
    let mut i: usize = 0;
    while i < v.len()
        invariant
            i <= v@.len(),
            forall|j: int| 0 <= j < i ==> v@[j]@ != t@,
        decreases v@.len() - i,
    {
        if crate::json::str_eq(v[i].as_str(), t) {
            return true;
        }
        i = i + 1;
    }
    false
}

fn push_all(out: &mut Vec<String>, to: &Vec<String>)
    requires
        no_repeats(old(out)@),
    ensures
        no_repeats(final(out)@),
        forall|t: Seq<char>| #[trigger] seq_has(final(out)@, t) <==> (seq_has(old(out)@, t) || seq_has(to@, t)),
{
    let ghost start = out@;
    let mut i: usize = 0;
    while i < to.len()
        invariant
            i <= to@.len(),
            no_repeats(out@),
            forall|t: Seq<char>| #[trigger] seq_has(out@, t) <==> (seq_has(start, t) || prefix_has(to@, i as int, t)),
        decreases to@.len() - i,
    {
        let ghost before = out@;
        if !has_str(out, to[i].as_str()) {
            out.push(to[i].clone());
            proof {
                assert forall|a: int, b: int| 0 <= a < b < out@.len() implies out@[a]@ != out@[b]@ by {
                    if b == before.len() {
                        assert(out@[a] == before[a]);
                        if out@[a]@ == out@[b]@ {
                            assert(seq_has(before, to@[i as int]@));
                        }
                    } else {
                        assert(out@[a] == before[a] && out@[b] == before[b]);
                    }
                }
            }
        } else {
            proof {
                assert forall|t: Seq<char>| #[trigger] seq_has(out@, t) <==> (seq_has(start, t) || prefix_has(to@, i + 1, t)) by {
                    if prefix_has(to@, i + 1, t) {
                        let j = choose|j: int| 0 <= j < i + 1 && #[trigger] to@[j]@ == t;
                        if j < i {
                            assert(prefix_has(to@, i as int, t));
                        }
                    }
                    if prefix_has(to@, i as int, t) {
                        let j = choose|j: int| 0 <= j < i && #[trigger] to@[j]@ == t;
                        assert(prefix_has(to@, i + 1, t));
                    }
                }
            }
            i = i + 1;
            continue;
        }
        proof {
            assert forall|t: Seq<char>| #[trigger] seq_has(out@, t) <==> (seq_has(start, t) || prefix_has(to@, i + 1, t)) by {
                if seq_has(out@, t) {
                    let k = choose|k: int| 0 <= k < out@.len() && #[trigger] out@[k]@ == t;
                    if k < before.len() {
                        assert(before[k]@ == t);
                        assert(seq_has(before, t));
                        if prefix_has(to@, i as int, t) {
                            let j = choose|j: int| 0 <= j < i && #[trigger] to@[j]@ == t;
                            assert(prefix_has(to@, i + 1, t));
                        }
                    } else {
                        assert(to@[i as int]@ == t);
                        assert(prefix_has(to@, i + 1, t));
                    }
                }
                if prefix_has(to@, i + 1, t) {
                    let j = choose|j: int| 0 <= j < i + 1 && #[trigger] to@[j]@ == t;
                    if j < i {
                        assert(prefix_has(to@, i as int, t));
                        assert(seq_has(before, t));
                        let k = choose|k: int| 0 <= k < before.len() && #[trigger] before[k]@ == t;
                        assert(out@[k] == before[k]);
                    } else {
                        assert(out@[before.len() as int]@ == t);
                    }
                }
                if seq_has(start, t) {
                    assert(seq_has(before, t));
                    let k = choose|k: int| 0 <= k < before.len() && #[trigger] before[k]@ == t;
                    assert(out@[k] == before[k]);
                }
            }
        }
        i = i + 1;
    }
    proof {
        assert forall|t: Seq<char>| prefix_has(to@, to@.len() as int, t) == seq_has(to@, t) by {
            if seq_has(to@, t) {
                let k = choose|k: int| 0 <= k < to@.len() && #[trigger] to@[k]@ == t;
                assert(prefix_has(to@, to@.len() as int, t));
            }
        }
    }
}

/// The set of dependents a switch fires (see [`fires`]): each exactly once.
pub fn matched_targets(rules: &Vec<SwitchRule>, stop_on_first: bool) -> (fire: Vec<String>)
    ensures
        no_repeats(fire@),
        forall|t: Seq<char>| seq_has(fire@, t) <==> fires(rules@, stop_on_first, t),
{
    let mut fire: Vec<String> = Vec::new();
    let mut matched_any = false;
    let mut i: usize = 0;
    while i < rules.len()
        invariant
            i <= rules@.len(),
            no_repeats(fire@),
            matched_any == hit_upto(rules@, i as int),
            !stop_on_first ==> forall|t: Seq<char>| #[trigger] seq_has(fire@, t) <==> hit_targets(rules@, i as int, t),
            stop_on_first ==> !matched_any && fire@.len() == 0,
        decreases rules@.len() - i,
    {
        let r = &rules[i];
        if !r.is_else && r.matched {
            push_all(&mut fire, &r.to);
            matched_any = true;
            proof {
                assert(hit(rules@[i as int]));
                assert(hit_upto(rules@, i + 1));
            }
            if stop_on_first {
                proof {
                    lemma_first_where(rules@, 0, false);
                    assert(any_hit(rules@));
                    match first_where(rules@, 0, false) {
                        Some(k) => {
                            if k < i {
                                assert(hit_upto(rules@, i as int));
                            }
                            assert(k == i);
                        },
                        None => {
                            assert(hit(rules@[i as int]));
                        },
                    }
                }
                return fire;
            }
            proof {
                assert forall|t: Seq<char>| #[trigger] seq_has(fire@, t) <==> hit_targets(rules@, i + 1, t) by {
                    if hit_targets(rules@, i + 1, t) {
                        let j = choose|j: int| 0 <= j < i + 1 && #[trigger] hit(rules@[j]) && seq_has(rules@[j].to@, t);
                        if j < i {
                            assert(hit_targets(rules@, i as int, t));
                        }
                    }
                    if hit_targets(rules@, i as int, t) {
                        let j = choose|j: int| 0 <= j < i && #[trigger] hit(rules@[j]) && seq_has(rules@[j].to@, t);
                        assert(hit_targets(rules@, i + 1, t));
                    }
                    if seq_has(rules@[i as int].to@, t) {
                        assert(hit_targets(rules@, i + 1, t));
                    }
                }
            }
        } else {
            proof {
                assert(!hit(rules@[i as int]));
                assert(hit_upto(rules@, i + 1) == hit_upto(rules@, i as int)) by {
                    if hit_upto(rules@, i + 1) {
                        let j = choose|j: int| 0 <= j < i + 1 && #[trigger] hit(rules@[j]);
                        assert(j != i);
                    }
                }
                assert forall|t: Seq<char>| #[trigger] hit_targets(rules@, i + 1, t) == hit_targets(rules@, i as int, t) by {
                    if hit_targets(rules@, i as int, t) {
                        let j = choose|j: int| 0 <= j < i && #[trigger] hit(rules@[j]) && seq_has(rules@[j].to@, t);
                        assert(hit_targets(rules@, i + 1, t));
                    }
                    if hit_targets(rules@, i + 1, t) {
                        let j = choose|j: int| 0 <= j < i + 1 && #[trigger] hit(rules@[j]) && seq_has(rules@[j].to@, t);
                        assert(j != i);
                    }
                }
            }
        }
        i = i + 1;
    }
    proof {
        assert(any_hit(rules@) == hit_upto(rules@, rules@.len() as int));
    }
    if !matched_any {
        proof {
            assert forall|t: Seq<char>| !hit_targets(rules@, rules@.len() as int, t) by {
                if hit_targets(rules@, rules@.len() as int, t) {
                    let j = choose|j: int| 0 <= j < rules@.len() && #[trigger] hit(rules@[j]) && seq_has(rules@[j].to@, t);
                    assert(hit_upto(rules@, rules@.len() as int));
                }
            }
            assert forall|t: Seq<char>| !seq_has(fire@, t) by {
                if seq_has(fire@, t) {
                    if stop_on_first {
                        let m = choose|m: int| 0 <= m < fire@.len() && #[trigger] fire@[m]@ == t;
                    } else {
                        assert(hit_targets(rules@, rules@.len() as int, t));
                    }
                }
            }
        }
        let mut k: usize = 0;
        while k < rules.len()
            invariant
                k <= rules@.len(),
                no_repeats(fire@),
                !any_hit(rules@),
                !stop_on_first ==> forall|t: Seq<char>| #[trigger] seq_has(fire@, t) <==> else_targets(rules@, k as int, t),
                stop_on_first ==> fire@.len() == 0 && forall|j: int| 0 <= j < k ==> !(#[trigger] rules@[j]).is_else,
            decreases rules@.len() - k,
        {
            if rules[k].is_else {
                push_all(&mut fire, &rules[k].to);
                if stop_on_first {
                    proof {
                        lemma_first_where(rules@, 0, true);
                        match first_where(rules@, 0, true) {
                            Some(q) => {
                                assert(q == k);
                            },
                            None => {
                                assert(rules@[k as int].is_else);
                            },
                        }
                        assert forall|t: Seq<char>| seq_has(fire@, t) <==> seq_has(rules@[k as int].to@, t) by {
                            if seq_has(fire@, t) {
                                let m = choose|m: int| 0 <= m < fire@.len() && #[trigger] fire@[m]@ == t;
                            }
                        }
                    }
                    return fire;
                }
                proof {
                    assert forall|t: Seq<char>| #[trigger] seq_has(fire@, t) <==> else_targets(rules@, k + 1, t) by {
                        if else_targets(rules@, k + 1, t) {
                            let j = choose|j: int| 0 <= j < k + 1 && #[trigger] rules@[j].is_else && seq_has(rules@[j].to@, t);
                            if j < k {
                                assert(else_targets(rules@, k as int, t));
                            }
                        }
                        if else_targets(rules@, k as int, t) {
                            let j = choose|j: int| 0 <= j < k && #[trigger] rules@[j].is_else && seq_has(rules@[j].to@, t);
                            assert(else_targets(rules@, k + 1, t));
                        }
                        if seq_has(rules@[k as int].to@, t) {
                            assert(else_targets(rules@, k + 1, t));
                        }
                    }
                }
            } else {
                proof {
                    assert forall|t: Seq<char>| #[trigger] else_targets(rules@, k + 1, t) == else_targets(rules@, k as int, t) by {
                        if else_targets(rules@, k as int, t) {
                            let j = choose|j: int| 0 <= j < k && #[trigger] rules@[j].is_else && seq_has(rules@[j].to@, t);
                            assert(else_targets(rules@, k + 1, t));
                        }
                        if else_targets(rules@, k + 1, t) {
                            let j = choose|j: int| 0 <= j < k + 1 && #[trigger] rules@[j].is_else && seq_has(rules@[j].to@, t);
                            assert(j != k);
                        }
                    }
                }
            }
            k = k + 1;
        }
        proof {
            if stop_on_first {
                lemma_first_where(rules@, 0, true);
            }
        }
    }
    fire
}

/// The op of a rule object (`""` when absent or not a string).
pub fn rule_op(rule: &Json) -> (op: &str)
    ensures
        op@ == match crate::json::str_field(*rule, "op"@) {
            Some(s) => s,
            None => ""@,
        },
{
    match get_str(rule, "op") {
        Some(s) => s,
        None => "",
    }
}

/// `t` is one of the strings among the first `n` items.
pub open spec fn str_items(a: Seq<Json>, n: int, t: Seq<char>) -> bool {
    exists|j: int| 0 <= j < n && #[trigger] a[j].str_view() == Some(t)
}

/// The string entries of a rule's `to` array (non-strings skipped; empty when absent).
pub fn rule_targets(rule: &Json) -> (to: Vec<String>)
    ensures
        forall|t: Seq<char>| seq_has(to@, t) <==> (rule.field("to"@) matches Some(Json::Array(a)) && str_items(a@, a@.len() as int, t)),
{
    let mut to: Vec<String> = Vec::new();
    match rule.get("to") {
        Some(Json::Array(a)) => {
            let mut i: usize = 0;
            while i < a.len()
                invariant
                    i <= a@.len(),
                    forall|t: Seq<char>| seq_has(to@, t) <==> #[trigger] str_items(a@, i as int, t),
                decreases a@.len() - i,
            {
                let ghost before = to@;
                match &a[i] {
                    Json::Str(s) => {
                        to.push(s.clone());
                        proof {
                            assert forall|t: Seq<char>| seq_has(to@, t) <==> #[trigger] str_items(a@, i + 1, t) by {
                                if seq_has(to@, t) {
                                    let k = choose|k: int| 0 <= k < to@.len() && #[trigger] to@[k]@ == t;
                                    if k < before.len() {
                                        assert(before[k]@ == t);
                                        assert(seq_has(before, t));
                                    } else {
                                        assert(a@[i as int].str_view() == Some(t));
                                    }
                                }
                                if str_items(a@, i as int, t) {
                                    let j = choose|j: int| 0 <= j < i && #[trigger] a@[j].str_view() == Some(t);
                                    assert(str_items(a@, i + 1, t));
                                }
                                if str_items(a@, i + 1, t) {
                                    let j = choose|j: int| 0 <= j < i + 1 && #[trigger] a@[j].str_view() == Some(t);
                                    if j < i {
                                        assert(str_items(a@, i as int, t));
                                        assert(seq_has(before, t));
                                        let k = choose|k: int| 0 <= k < before.len() && #[trigger] before[k]@ == t;
                                        assert(to@[k] == before[k]);
                                    } else {
                                        assert(to@[before.len() as int]@ == t);
                                    }
                                }
                            }
                        }
                    },
                    _ => {
                        proof {
                            assert forall|t: Seq<char>| #[trigger] str_items(a@, i + 1, t) == str_items(a@, i as int, t) by {
                                if str_items(a@, i + 1, t) {
                                    let j = choose|j: int| 0 <= j < i + 1 && #[trigger] a@[j].str_view() == Some(t);
                                    assert(j != i);
                                    assert(str_items(a@, i as int, t));
                                }
                                if str_items(a@, i as int, t) {
                                    let j = choose|j: int| 0 <= j < i && #[trigger] a@[j].str_view() == Some(t);
                                    assert(str_items(a@, i + 1, t));
                                }
                            }
                        }
                    },
                }
                i = i + 1;
            }
        },
        _ => {},
    }
    to
}

/// How a switch treats each of its dependents: a dependent outside the subgraph is left alone, a
/// fired one is released, any other is gated.
#[derive(Clone, Copy, Debug, PartialEq, Eq, Structural)]
pub enum Route {
    Leave,
    Release,
    Gate,
}

/// The route of dependent `dep` of a switch.
pub fn route_dependent(dep: &str, subgraph: &Vec<String>, fire: &Vec<String>) -> (r: Route)
    ensures
        r == if !seq_has(subgraph@, dep@) {
            Route::Leave
        } else if seq_has(fire@, dep@) {
            Route::Release
        } else {
            Route::Gate
        },
{
    if !contains_str(subgraph, dep) {
        Route::Leave
    } else if contains_str(fire, dep) {
        Route::Release
    } else {
        Route::Gate
    }
}

} // verus!
