//! The run engine's slot table: one record per `(node, fctx)` slot of a run. The CAS claim
//! (`Pending|Enqueued -> Running`) makes a redelivered slot a no-op; a slot's outcome is recorded
//! once; dependents are released per input-port join policy (an `any` firing per settled upstream,
//! or an `all` barrier that enqueues when its count reaches zero); a failed or suppressed slot gates
//! its subtree; and the run is terminal when every minted slot is done and every node of its
//! subgraph has at least one slot.
use vstd::prelude::*;

use crate::json::{entries_insert, entries_insert_exec, Json};
use crate::records::{ClaimState, FlowRunRecord, FlowStepRecord, SlotOutcome};
use crate::text::{contains_str, seq_has};

verus! {

/// The terminal outcome a node's executor reports: the freshly emitted envelope fields plus the
/// carried fields to merge forward, a failure message, or a suppression.
pub enum NodeOutcome {
    Emitted { emitted: Json, carry: Json },
    Failed(String),
    Skipped,
}

impl NodeOutcome {
    /// An emission with no carry-forward.
    pub fn ok(emitted: Json) -> (o: NodeOutcome)
        ensures
            o == (NodeOutcome::Emitted { emitted, carry: Json::Null }),
    {
        NodeOutcome::Emitted { emitted, carry: Json::Null }
    }
}

/// Does record `r` hold slot `(node, fctx)`?
pub open spec fn is_slot(r: FlowStepRecord, node: Seq<char>, fctx: Seq<char>) -> bool {
    r.node_id@ == node && r.fctx@ == fctx
}

/// The index of slot `(node, fctx)` in a table whose keys are unique.
pub open spec fn slot_index(slots: Seq<FlowStepRecord>, node: Seq<char>, fctx: Seq<char>) -> Option<int> {
    if exists|i: int| 0 <= i < slots.len() && is_slot(#[trigger] slots[i], node, fctx) {
        Some(choose|i: int| 0 <= i < slots.len() && is_slot(#[trigger] slots[i], node, fctx))
    } else {
        None
    }
}

/// No two records hold the same slot.
pub open spec fn unique_slots(slots: Seq<FlowStepRecord>) -> bool {
    forall|i: int, j: int|
        0 <= i < slots.len() && 0 <= j < slots.len() && i != j ==> !(slots[i].node_id@
            == slots[j].node_id@ && slots[i].fctx@ == slots[j].fctx@)
}

/// The record of slot `(node, fctx)`, if the table holds one.
pub open spec fn slot_of(slots: Seq<FlowStepRecord>, node: Seq<char>, fctx: Seq<char>) -> Option<FlowStepRecord> {
    match slot_index(slots, node, fctx) {
        Some(i) => Some(slots[i]),
        None => None,
    }
}

/// Every slot other than `(node, fctx)` reads the same in both tables.
pub open spec fn others_unchanged(
    a: Seq<FlowStepRecord>,
    b: Seq<FlowStepRecord>,
    node: Seq<char>,
    fctx: Seq<char>,
) -> bool {
    forall|n: Seq<char>, f: Seq<char>|
        !(n == node && f == fctx) ==> #[trigger] slot_of(a, n, f) == slot_of(b, n, f)
}

/// Apply `entries_insert` for each of `adds` in order.
pub open spec fn insert_all(base: Seq<(String, Json)>, adds: Seq<(String, Json)>) -> Seq<(String, Json)>
    decreases adds.len(),
{
    if adds.len() == 0 {
        base
    } else {
        insert_all(entries_insert(base, adds[0].0, adds[0].1), adds.drop_first())
    }
}

/// The recorded envelope of an emission: the carried fields (when an object), overlaid by the
/// emitted fields (when an object), stamped with the firing context under `fctx_field`.
pub open spec fn envelope_of(
    emitted: Json,
    carry: Json,
    fctx_field: String,
    fctx: String,
) -> Seq<(String, Json)> {
    let base = match carry {
        Json::Object(m) => m@,
        _ => Seq::empty(),
    };
    let merged = match emitted {
        Json::Object(e) => insert_all(base, e@),
        _ => base,
    };
    entries_insert(merged, fctx_field, Json::Str(fctx))
}

/// `new` is `rec` with `outcome` recorded: the slot is done, and the outcome label, the envelope (on
/// an emission) or the error (on a failure) are set; every other field is kept.
pub open spec fn recorded_as(rec: FlowStepRecord, new: FlowStepRecord, outcome: NodeOutcome, fctx_field: String) -> bool {
    &&& new.claim == ClaimState::Done
    &&& new.run_id == rec.run_id
    &&& new.node_id == rec.node_id
    &&& new.fctx == rec.fctx
    &&& new.indegree == rec.indegree
    &&& new.findings == rec.findings
    &&& new.attempts == rec.attempts
    &&& new.ms == rec.ms
    &&& new.patched_config == rec.patched_config
    &&& new.triggered_by == rec.triggered_by
    &&& new.parent_fctx == rec.parent_fctx
    &&& match outcome {
        NodeOutcome::Emitted { emitted, carry } => {
            &&& new.outcome == SlotOutcome::Succeeded
            &&& new.error == rec.error
            &&& new.output matches Json::Object(m) && m@ == envelope_of(
                emitted,
                carry,
                fctx_field,
                rec.fctx,
            )
        },
        NodeOutcome::Failed(e) => {
            &&& new.outcome == SlotOutcome::Failed
            &&& new.error == Some(e)
            &&& new.output == rec.output
        },
        NodeOutcome::Skipped => {
            &&& new.outcome == SlotOutcome::Skipped
            &&& new.error == rec.error
            &&& new.output == rec.output
        },
    }
}

/// In a table with unique keys, a record holding the slot is the one `slot_index` finds.
pub proof fn lemma_slot_index_at(s: Seq<FlowStepRecord>, i: int)
    requires
        unique_slots(s),
        0 <= i < s.len(),
    ensures
        slot_index(s, s[i].node_id@, s[i].fctx@) == Some(i),
        slot_of(s, s[i].node_id@, s[i].fctx@) == Some(s[i]),
{
    let c = choose|k: int| 0 <= k < s.len() && is_slot(#[trigger] s[k], s[i].node_id@, s[i].fctx@);
    assert(is_slot(s[i], s[i].node_id@, s[i].fctx@));
    assert(c == i);
}

/// Replacing a record by one holding the same slot keeps keys unique, reads the new record at
/// that slot, and leaves every other slot as it was.
pub proof fn lemma_update_slot(s: Seq<FlowStepRecord>, i: int, r: FlowStepRecord)
    requires
        unique_slots(s),
        0 <= i < s.len(),
        r.node_id@ == s[i].node_id@,
        r.fctx@ == s[i].fctx@,
    ensures
        unique_slots(s.update(i, r)),
        slot_of(s.update(i, r), r.node_id@, r.fctx@) == Some(r),
        others_unchanged(s, s.update(i, r), r.node_id@, r.fctx@),
{
    let t = s.update(i, r);
    assert(unique_slots(t)) by {
        assert forall|a: int, b: int|
            0 <= a < t.len() && 0 <= b < t.len() && a != b implies !(t[a].node_id@ == t[b].node_id@
            && t[a].fctx@ == t[b].fctx@) by {
            assert(t[a].node_id@ == s[a].node_id@ && t[a].fctx@ == s[a].fctx@);
            assert(t[b].node_id@ == s[b].node_id@ && t[b].fctx@ == s[b].fctx@);
        }
    }
    lemma_slot_index_at(t, i);
    assert forall|n: Seq<char>, f: Seq<char>| !(n == r.node_id@ && f == r.fctx@) implies #[trigger] slot_of(s, n, f)
        == slot_of(t, n, f) by {
        if exists|k: int| 0 <= k < s.len() && is_slot(#[trigger] s[k], n, f) {
            let k = choose|k: int| 0 <= k < s.len() && is_slot(#[trigger] s[k], n, f);
            lemma_slot_index_at(s, k);
            assert(k != i);
            assert(t[k] == s[k]);
            lemma_slot_index_at(t, k);
        } else {
            assert forall|k: int| 0 <= k < t.len() implies !is_slot(#[trigger] t[k], n, f) by {
                if k != i {
                    assert(t[k] == s[k]);
                }
            }
        }
    }
}

/// Appending a record for an absent slot keeps keys unique, reads the new record at that slot, and
/// leaves every other slot as it was.
pub proof fn lemma_push_slot(s: Seq<FlowStepRecord>, r: FlowStepRecord)
    requires
        unique_slots(s),
        slot_index(s, r.node_id@, r.fctx@).is_none(),
    ensures
        unique_slots(s.push(r)),
        slot_of(s.push(r), r.node_id@, r.fctx@) == Some(r),
        others_unchanged(s, s.push(r), r.node_id@, r.fctx@),
{
    let t = s.push(r);
    assert forall|k: int| 0 <= k < s.len() implies !is_slot(#[trigger] s[k], r.node_id@, r.fctx@) by {}
    assert(unique_slots(t)) by {
        assert forall|a: int, b: int|
            0 <= a < t.len() && 0 <= b < t.len() && a != b implies !(t[a].node_id@ == t[b].node_id@
            && t[a].fctx@ == t[b].fctx@) by {
            if a == s.len() {
                assert(!is_slot(s[b], r.node_id@, r.fctx@));
            } else if b == s.len() {
                assert(!is_slot(s[a], r.node_id@, r.fctx@));
            }
        }
    }
    lemma_slot_index_at(t, s.len() as int);
    assert forall|n: Seq<char>, f: Seq<char>| !(n == r.node_id@ && f == r.fctx@) implies #[trigger] slot_of(s, n, f)
        == slot_of(t, n, f) by {
        if exists|k: int| 0 <= k < s.len() && is_slot(#[trigger] s[k], n, f) {
            let k = choose|k: int| 0 <= k < s.len() && is_slot(#[trigger] s[k], n, f);
            lemma_slot_index_at(s, k);
            assert(t[k] == s[k]);
            lemma_slot_index_at(t, k);
        } else {
            assert forall|k: int| 0 <= k < t.len() implies !is_slot(#[trigger] t[k], n, f) by {
                if k < s.len() {
                    assert(t[k] == s[k]);
                }
            }
        }
    }
}

/// The slots of one run.
pub struct SlotTable {
    pub slots: Vec<FlowStepRecord>,
}

impl SlotTable {
    /// The table's records.
    pub open spec fn view(&self) -> Seq<FlowStepRecord> {
        self.slots@
    }

    /// Well-formed: no slot is recorded twice.
    pub open spec fn wf(&self) -> bool {
        unique_slots(self.slots@)
    }

    /// An empty table.
    pub fn new() -> (t: Self)
        ensures
            t.wf(),
            t.view().len() == 0,
    {
        SlotTable { slots: Vec::new() }
    }

    /// Find slot `(node, fctx)`.
    pub fn find(&self, node: &str, fctx: &str) -> (r: Option<usize>)
        requires
            self.wf(),
        ensures
            match r {
                Some(i) => i < self.view().len() && slot_index(self.view(), node@, fctx@) == Some(
                    i as int,
                ),
                None => slot_index(self.view(), node@, fctx@).is_none(),
            },
    {
        let mut i: usize = 0;
        while i < self.slots.len()
            invariant
                i <= self.slots@.len(),
                unique_slots(self.slots@),
                forall|j: int| 0 <= j < i ==> !is_slot(#[trigger] self.slots@[j], node@, fctx@),
            decreases self.slots@.len() - i,
        {
            if crate::json::str_eq(self.slots[i].node_id.as_str(), node) && crate::json::str_eq(
                self.slots[i].fctx.as_str(),
                fctx,
            ) {
                proof {
                    let s = self.slots@;
                    assert(is_slot(s[i as int], node@, fctx@));
                    let c = choose|k: int| 0 <= k < s.len() && is_slot(#[trigger] s[k], node@, fctx@);
                    assert(c == i);
                }
                return Some(i);
            }
            i = i + 1;
        }
        None
    }

    /// The record of slot `(node, fctx)`, if minted.
    pub fn read_step(&self, node: &str, fctx: &str) -> (r: Option<&FlowStepRecord>)
        requires
            self.wf(),
        ensures
            match r {
                Some(rec) => slot_of(self.view(), node@, fctx@) == Some(*rec),
                None => slot_of(self.view(), node@, fctx@).is_none(),
            },
    {
        match self.find(node, fctx) {
            Some(i) => Some(&self.slots[i]),
            None => None,
        }
    }
}

/// Build the recorded envelope of an emission (see [`envelope_of`]).
pub fn build_envelope(emitted: Json, carry: Json, fctx_field: String, fctx: String) -> (v: Vec<(String, Json)>)
    ensures
        v@ == envelope_of(emitted, carry, fctx_field, fctx),
{
    let ghost g_emitted = emitted;
    let ghost g_carry = carry;
    let mut env = match carry {
        Json::Object(m) => m,
        _ => Vec::new(),
    };
    let ghost base = env@;
    match emitted {
        Json::Object(mut e) => {
            let ghost all = e@;
            while e.len() > 0
                invariant
                    insert_all(env@, e@) == insert_all(base, all),
                decreases e.len(),
            {
                let ghost before_env = env@;
                let ghost before_e = e@;
                let (k, v) = e.remove(0);
                assert(e@ =~= before_e.drop_first());
                entries_insert_exec(&mut env, k, v);
            }
        },
        _ => {},
    }
    entries_insert_exec(&mut env, fctx_field, Json::Str(fctx));
    env
}

impl SlotTable {
    /// CAS-claim slot `(node, fctx)`: `Pending|Enqueued -> Running`. Returns whether this call won;
    /// a missing slot or one already running or done is left alone.
    pub fn claim_step(&mut self, node: &str, fctx: &str) -> (won: bool)
        requires
            old(self).wf(),
        ensures
            final(self).wf(),
            won == (slot_of(old(self).view(), node@, fctx@) matches Some(r) && (r.claim
                == ClaimState::Pending || r.claim == ClaimState::Enqueued)),
            won ==> slot_of(final(self).view(), node@, fctx@) == Some(
                FlowStepRecord { claim: ClaimState::Running, ..slot_of(old(self).view(), node@, fctx@).unwrap() },
            ),
            !won ==> final(self).view() == old(self).view(),
            others_unchanged(old(self).view(), final(self).view(), node@, fctx@),
    {
        match self.find(node, fctx) {
            None => false,
            Some(i) => {
                let c = self.slots[i].claim;
                match c {
                    ClaimState::Pending | ClaimState::Enqueued => {
                        let ghost s = self.slots@;
                        self.slots[i].claim = ClaimState::Running;
                        proof {
                            lemma_update_slot(s, i as int, self.slots@[i as int]);
                            assert(self.slots@ == s.update(i as int, self.slots@[i as int]));
                        }
                        true
                    },
                    _ => false,
                }
            },
        }
    }

    /// Park slot `(node, fctx)` back to `Enqueued` without an outcome (a delay or approval wait); a
    /// missing or done slot is left alone.
    pub fn park_step(&mut self, node: &str, fctx: &str)
        requires
            old(self).wf(),
        ensures
            final(self).wf(),
            match slot_of(old(self).view(), node@, fctx@) {
                Some(r) => if r.claim == ClaimState::Done {
                    final(self).view() == old(self).view()
                } else {
                    slot_of(final(self).view(), node@, fctx@) == Some(
                        FlowStepRecord { claim: ClaimState::Enqueued, ..r },
                    )
                },
                None => final(self).view() == old(self).view(),
            },
            others_unchanged(old(self).view(), final(self).view(), node@, fctx@),
    {
        match self.find(node, fctx) {
            None => {},
            Some(i) => {
                if self.slots[i].claim != ClaimState::Done {
                    let ghost s = self.slots@;
                    self.slots[i].claim = ClaimState::Enqueued;
                    proof {
                        lemma_update_slot(s, i as int, self.slots@[i as int]);
                        assert(self.slots@ == s.update(i as int, self.slots@[i as int]));
                    }
                }
            },
        }
    }

    /// Record slot `(node, fctx)`'s terminal outcome (see [`recorded_as`]); a missing slot is left
    /// alone. Returns whether a slot was recorded.
    pub fn record_outcome(&mut self, node: &str, fctx: &str, outcome: NodeOutcome, fctx_field: String) -> (done: bool)
        requires
            old(self).wf(),
        ensures
            final(self).wf(),
            done == slot_of(old(self).view(), node@, fctx@).is_some(),
            !done ==> final(self).view() == old(self).view(),
            done ==> (slot_of(final(self).view(), node@, fctx@) matches Some(n) && recorded_as(
                slot_of(old(self).view(), node@, fctx@).unwrap(),
                n,
                outcome,
                fctx_field,
            )),
            others_unchanged(old(self).view(), final(self).view(), node@, fctx@),
    {
        match self.find(node, fctx) {
            None => false,
            Some(i) => {
                let ghost s = self.slots@;
                let ghost g_outcome = outcome;
                self.slots[i].claim = ClaimState::Done;
                match outcome {
                    NodeOutcome::Emitted { emitted, carry } => {
                        let f = self.slots[i].fctx.clone();
                        let env = build_envelope(emitted, carry, fctx_field, f);
                        self.slots[i].outcome = SlotOutcome::Succeeded;
                        self.slots[i].output = Json::Object(env);
                    },
                    NodeOutcome::Failed(e) => {
                        self.slots[i].outcome = SlotOutcome::Failed;
                        self.slots[i].error = Some(e);
                    },
                    NodeOutcome::Skipped => {
                        self.slots[i].outcome = SlotOutcome::Skipped;
                    },
                }
                proof {
                    lemma_update_slot(s, i as int, self.slots@[i as int]);
                    assert(self.slots@ == s.update(i as int, self.slots@[i as int]));
                    lemma_slot_index_at(s, i as int);
                }
                true
            },
        }
    }
}

/// `r` is a freshly minted slot record for `(node, fctx)` of `run` with the given claim, barrier
/// count, outcome and trigger attribution, and every other field empty.
pub open spec fn fresh_slot(
    r: FlowStepRecord,
    run: Seq<char>,
    node: Seq<char>,
    fctx: Seq<char>,
    claim: ClaimState,
    indegree: u64,
    outcome: SlotOutcome,
    triggered_by: Option<Seq<char>>,
    parent_fctx: Option<Seq<char>>,
) -> bool {
    &&& r.run_id@ == run
    &&& r.node_id@ == node
    &&& r.fctx@ == fctx
    &&& r.claim == claim
    &&& r.indegree == indegree
    &&& r.outcome == outcome
    &&& r.output == Json::Null
    &&& r.findings == Json::Null
    &&& r.error.is_none()
    &&& r.attempts == 0
    &&& r.ms == 0
    &&& r.patched_config.is_none()
    &&& match triggered_by {
        Some(t) => r.triggered_by matches Some(x) && x@ == t,
        None => r.triggered_by.is_none(),
    }
    &&& match parent_fctx {
        Some(t) => r.parent_fctx matches Some(x) && x@ == t,
        None => r.parent_fctx.is_none(),
    }
}

fn opt_string(s: Option<&str>) -> (r: Option<String>)
    ensures
        match s {
            Some(x) => r matches Some(y) && y@ == x@,
            None => r.is_none(),
        },
{
    match s {
        Some(x) => Some(String::from_str(x)),
        None => None,
    }
}

/// A freshly minted slot record.
pub fn new_slot(
    run_id: &str,
    node: &str,
    fctx: &str,
    claim: ClaimState,
    indegree: u64,
    outcome: SlotOutcome,
    triggered_by: Option<&str>,
    parent_fctx: Option<&str>,
) -> (r: FlowStepRecord)
    ensures
        fresh_slot(
            r,
            run_id@,
            node@,
            fctx@,
            claim,
            indegree,
            outcome,
            match triggered_by {
                Some(t) => Some(t@),
                None => None,
            },
            match parent_fctx {
                Some(t) => Some(t@),
                None => None,
            },
        ),
{
    FlowStepRecord {
        run_id: String::from_str(run_id),
        node_id: String::from_str(node),
        claim,
        indegree,
        outcome,
        output: Json::Null,
        findings: Json::Null,
        error: None,
        attempts: 0,
        ms: 0,
        patched_config: None,
        fctx: String::from_str(fctx),
        triggered_by: opt_string(triggered_by),
        parent_fctx: opt_string(parent_fctx),
    }
}

/// The barrier slot after one release: one fewer outstanding upstream (never below zero), enqueued
/// when a pending slot's count reaches zero.
pub open spec fn barrier_decrement(r: FlowStepRecord) -> FlowStepRecord {
    let d = if r.indegree == 0 {
        0u64
    } else {
        (r.indegree - 1) as u64
    };
    FlowStepRecord {
        indegree: d,
        claim: if r.claim == ClaimState::Pending && d == 0 {
            ClaimState::Enqueued
        } else {
            r.claim
        },
        ..r
    }
}

/// A join policy of an input port: a per-message firing, or a barrier over all upstreams.
#[derive(Clone, Copy, Debug, PartialEq, Eq, Structural)]
pub enum JoinPolicy {
    Any,
    All,
}

/// How one settled upstream releases one dependent.
pub enum Release {
    /// Not released: the dependent is outside the run's subgraph or unknown to the flow.
    Ignore,
    /// An explicit-`all` port: decrement the dependent's barrier slot at the same context.
    Barrier,
    /// An `any` port: mint (or re-mint) a firing slot at this context.
    Fire(String),
}

/// Decide how a settled upstream releases dependent `dep`: outside the subgraph or unknown, not at
/// all; on an `all` port, through the barrier; on an `any` port, a firing that keeps the incoming
/// context when the port has a single wire and takes the minted context when it has several.
pub fn release_plan(
    in_subgraph: bool,
    dep_known: bool,
    policy: JoinPolicy,
    wires: usize,
    fctx: &str,
    minted: &str,
) -> (r: Release)
    ensures
        !(in_subgraph && dep_known) ==> r is Ignore,
        in_subgraph && dep_known && policy == JoinPolicy::All ==> r is Barrier,
        in_subgraph && dep_known && policy == JoinPolicy::Any ==> (r matches Release::Fire(f) && f@
            == if wires <= 1 {
            fctx@
        } else {
            minted@
        }),
{
    if !in_subgraph || !dep_known {
        return Release::Ignore;
    }
    match policy {
        JoinPolicy::All => Release::Barrier,
        JoinPolicy::Any => {
            if wires <= 1 {
                Release::Fire(String::from_str(fctx))
            } else {
                Release::Fire(String::from_str(minted))
            }
        },
    }
}

/// The effective name of an input port: an omitted port is the descriptor's primary input.
pub open spec fn effective_port(port: Option<Seq<char>>, primary: Option<Seq<char>>) -> Option<Seq<char>> {
    match port {
        Some(p) => Some(p),
        None => primary,
    }
}

/// The view of an optional string.
pub open spec fn opt_view(o: Option<String>) -> Option<Seq<char>> {
    match o {
        Some(s) => Some(s@),
        None => None,
    }
}

/// The number of in-subgraph wires in `wires[..n]` landing on the effective port `target`.
pub open spec fn wires_on(
    wires: Seq<(String, Option<String>)>,
    n: int,
    target: Option<Seq<char>>,
    primary: Option<Seq<char>>,
    subgraph: Seq<String>,
) -> nat
    decreases n,
{
    if n <= 0 {
        0
    } else {
        wires_on(wires, n - 1, target, primary, subgraph) + if seq_has(subgraph, wires[n - 1].0@)
            && effective_port(opt_view(wires[n - 1].1), primary) == target {
            1nat
        } else {
            0nat
        }
    }
}

fn opt_str_eq(a: Option<&str>, b: Option<&str>) -> (r: bool)
    ensures
        r == (match (a, b) {
            (Some(x), Some(y)) => x@ == y@,
            (None, None) => true,
            _ => false,
        }),
{
    match (a, b) {
        (Some(x), Some(y)) => crate::json::str_eq(x, y),
        (None, None) => true,
        _ => false,
    }
}

/// The number of in-subgraph wires of a dependent that land on the same effective input port as
/// `port` (an omitted port is the primary input, so an omitted port and the primary's own name are
/// one port). One wire means propagate the firing context; several mean mint one per wire.
pub fn port_wire_count(
    wires: &Vec<(String, Option<String>)>,
    port: Option<&str>,
    primary: Option<&str>,
    subgraph: &Vec<String>,
) -> (c: usize)
    ensures
        c == wires_on(
            wires@,
            wires@.len() as int,
            effective_port(
                match port {
                    Some(p) => Some(p@),
                    None => None,
                },
                match primary {
                    Some(p) => Some(p@),
                    None => None,
                },
            ),
            match primary {
                Some(p) => Some(p@),
                None => None,
            },
            subgraph@,
        ),
{
    let this_port = match port {
        Some(p) => Some(p),
        None => primary,
    };
    let mut count: usize = 0;
    let mut i: usize = 0;
    while i < wires.len()
        invariant
            i <= wires@.len(),
            count <= i,
            count == wires_on(
                wires@,
                i as int,
                match this_port {
                    Some(p) => Some(p@),
                    None => None,
                },
                match primary {
                    Some(p) => Some(p@),
                    None => None,
                },
                subgraph@,
            ),
        decreases wires@.len() - i,
    {
        let up_port: Option<&str> = match &wires[i].1 {
            Some(p) => Some(p.as_str()),
            None => primary,
        };
        if contains_str(subgraph, wires[i].0.as_str()) && opt_str_eq(up_port, this_port) {
            count = count + 1;
        }
        i = i + 1;
    }
    count
}

impl SlotTable {
    /// Mint an `any`-port firing slot `(node, new_fctx)` Enqueued, attributed to the triggering
    /// upstream and its context. A slot already minted (a redelivery) is left alone.
    pub fn mint_firing(
        &mut self,
        run_id: &str,
        node: &str,
        new_fctx: &str,
        triggered_by: &str,
        parent_fctx: &str,
    )
        requires
            old(self).wf(),
        ensures
            final(self).wf(),
            slot_of(old(self).view(), node@, new_fctx@).is_some() ==> final(self).view() == old(
                self,
            ).view(),
            slot_of(old(self).view(), node@, new_fctx@).is_none() ==> (slot_of(
                final(self).view(),
                node@,
                new_fctx@,
            ) matches Some(r) && fresh_slot(
                r,
                run_id@,
                node@,
                new_fctx@,
                ClaimState::Enqueued,
                0,
                SlotOutcome::Unset,
                Some(triggered_by@),
                Some(parent_fctx@),
            )),
            others_unchanged(old(self).view(), final(self).view(), node@, new_fctx@),
    {
        if self.find(node, new_fctx).is_some() {
            return;
        }
        let rec = new_slot(
            run_id,
            node,
            new_fctx,
            ClaimState::Enqueued,
            0,
            SlotOutcome::Unset,
            Some(triggered_by),
            Some(parent_fctx),
        );
        proof {
            lemma_push_slot(self.slots@, rec);
        }
        self.slots.push(rec);
    }

    /// Release an explicit-`all` barrier slot `(dep, fctx)` by one upstream: the first touch mints
    /// it Pending with the full barrier count; each touch decrements (never below zero) and
    /// enqueues a pending slot at zero. A done slot is left alone.
    pub fn touch_barrier_slot(&mut self, run_id: &str, dep: &str, fctx: &str, barrier_indegree: u64)
        requires
            old(self).wf(),
        ensures
            final(self).wf(),
            match slot_of(old(self).view(), dep@, fctx@) {
                None => slot_of(final(self).view(), dep@, fctx@) matches Some(r) && fresh_slot(
                    r,
                    run_id@,
                    dep@,
                    fctx@,
                    if barrier_indegree <= 1 {
                        ClaimState::Enqueued
                    } else {
                        ClaimState::Pending
                    },
                    if barrier_indegree == 0 {
                        0u64
                    } else {
                        (barrier_indegree - 1) as u64
                    },
                    SlotOutcome::Unset,
                    None,
                    None,
                ),
                Some(r) => if r.claim == ClaimState::Done {
                    final(self).view() == old(self).view()
                } else {
                    slot_of(final(self).view(), dep@, fctx@) == Some(barrier_decrement(r))
                },
            },
            others_unchanged(old(self).view(), final(self).view(), dep@, fctx@),
    {
        match self.find(dep, fctx) {
            None => {
                let d = if barrier_indegree == 0 {
                    0
                } else {
                    barrier_indegree - 1
                };
                let claim = if d == 0 {
                    ClaimState::Enqueued
                } else {
                    ClaimState::Pending
                };
                let rec = new_slot(run_id, dep, fctx, claim, d, SlotOutcome::Unset, None, None);
                proof {
                    lemma_push_slot(self.slots@, rec);
                }
                self.slots.push(rec);
            },
            Some(i) => {
                if self.slots[i].claim == ClaimState::Done {
                    return;
                }
                let ghost s = self.slots@;
                let d = if self.slots[i].indegree == 0 {
                    0
                } else {
                    self.slots[i].indegree - 1
                };
                self.slots[i].indegree = d;
                if self.slots[i].claim == ClaimState::Pending && d == 0 {
                    self.slots[i].claim = ClaimState::Enqueued;
                }
                proof {
                    lemma_slot_index_at(s, i as int);
                    lemma_update_slot(s, i as int, self.slots@[i as int]);
                    assert(self.slots@ == s.update(i as int, self.slots@[i as int]));
                }
            },
        }
    }

    /// Gate slot `(node, fctx)` as skipped: a pending or enqueued slot becomes done/skipped, a missing
    /// one is minted done/skipped (so the run never waits on it), and a running or done slot is left
    /// alone. Returns whether the slot was marked (the subtree walk continues only past marked slots).
    pub fn skip_slot(&mut self, run_id: &str, node: &str, fctx: &str) -> (made_skip: bool)
        requires
            old(self).wf(),
        ensures
            final(self).wf(),
            made_skip == skippable(old(self).view(), node@, fctx@),
            match slot_of(old(self).view(), node@, fctx@) {
                None => slot_of(final(self).view(), node@, fctx@) matches Some(r) && fresh_slot(
                    r,
                    run_id@,
                    node@,
                    fctx@,
                    ClaimState::Done,
                    0,
                    SlotOutcome::Skipped,
                    None,
                    None,
                ),
                Some(r) => if r.claim == ClaimState::Pending || r.claim == ClaimState::Enqueued {
                    slot_of(final(self).view(), node@, fctx@) == Some(
                        FlowStepRecord { claim: ClaimState::Done, outcome: SlotOutcome::Skipped, ..r },
                    )
                } else {
                    final(self).view() == old(self).view()
                },
            },
            others_unchanged(old(self).view(), final(self).view(), node@, fctx@),
    {
        match self.find(node, fctx) {
            None => {
                let rec = new_slot(
                    run_id,
                    node,
                    fctx,
                    ClaimState::Done,
                    0,
                    SlotOutcome::Skipped,
                    None,
                    None,
                );
                proof {
                    lemma_push_slot(self.slots@, rec);
                }
                self.slots.push(rec);
                true
            },
            Some(i) => {
                let c = self.slots[i].claim;
                if c == ClaimState::Pending || c == ClaimState::Enqueued {
                    let ghost s = self.slots@;
                    self.slots[i].claim = ClaimState::Done;
                    self.slots[i].outcome = SlotOutcome::Skipped;
                    proof {
                        lemma_slot_index_at(s, i as int);
                        lemma_update_slot(s, i as int, self.slots@[i as int]);
                        assert(self.slots@ == s.update(i as int, self.slots@[i as int]));
                    }
                    true
                } else {
                    false
                }
            },
        }
    }
}

/// A slot the gating walk marks: missing, pending or enqueued.
pub open spec fn skippable(slots: Seq<FlowStepRecord>, node: Seq<char>, fctx: Seq<char>) -> bool {
    match slot_of(slots, node, fctx) {
        None => true,
        Some(r) => r.claim == ClaimState::Pending || r.claim == ClaimState::Enqueued,
    }
}

/// A run's terminal status.
#[derive(Clone, Copy, Debug, PartialEq, Eq, Structural)]
pub enum RunStatus {
    PartialFailure,
    Failed,
    Success,
}

/// The wire label of a terminal status.
pub fn status_label(st: RunStatus) -> (r: &'static str)
    ensures
        r@ == (match st {
            RunStatus::PartialFailure => "partialFailure"@,
            RunStatus::Failed => "failed"@,
            RunStatus::Success => "success"@,
        }),
{
    match st {
        RunStatus::PartialFailure => "partialFailure",
        RunStatus::Failed => "failed",
        RunStatus::Success => "success",
    }
}

/// Every minted slot is done.
pub open spec fn all_done(slots: Seq<FlowStepRecord>) -> bool {
    forall|i: int| 0 <= i < slots.len() ==> #[trigger] slots[i].claim == ClaimState::Done
}

/// Node `n` has at least one slot.
pub open spec fn has_slot_for(slots: Seq<FlowStepRecord>, n: Seq<char>) -> bool {
    exists|i: int| 0 <= i < slots.len() && #[trigger] slots[i].node_id@ == n
}

/// Every node of the subgraph has at least one slot.
pub open spec fn all_touched(slots: Seq<FlowStepRecord>, subgraph: Seq<String>) -> bool {
    forall|j: int| 0 <= j < subgraph.len() ==> has_slot_for(slots, #[trigger] subgraph[j]@)
}

/// Some slot settled with outcome `o`.
pub open spec fn any_outcome(slots: Seq<FlowStepRecord>, o: SlotOutcome) -> bool {
    exists|i: int| 0 <= i < slots.len() && #[trigger] slots[i].outcome == o
}

/// The terminal status of a finished run: failures and successes mixed is a partial failure, only
/// failures is failed, and otherwise (successes and skips, or nothing) success.
pub open spec fn terminal_status(slots: Seq<FlowStepRecord>) -> RunStatus {
    let failed = any_outcome(slots, SlotOutcome::Failed);
    let ok = any_outcome(slots, SlotOutcome::Succeeded);
    if failed && ok {
        RunStatus::PartialFailure
    } else if failed {
        RunStatus::Failed
    } else {
        RunStatus::Success
    }
}

/// The keys of the enqueued slots, in table order.
pub open spec fn ready_keys(slots: Seq<FlowStepRecord>) -> Seq<(Seq<char>, Seq<char>)>
    decreases slots.len(),
{
    if slots.len() == 0 {
        Seq::empty()
    } else {
        let rest = ready_keys(slots.drop_last());
        if slots.last().claim == ClaimState::Enqueued {
            rest.push((slots.last().node_id@, slots.last().fctx@))
        } else {
            rest
        }
    }
}

impl SlotTable {
    /// The run's terminal status if it is complete: every minted slot done and every subgraph node
    /// holding at least one slot; `None` while anything is in flight or not yet released.
    pub fn finalize_status(&self, subgraph: &Vec<String>) -> (r: Option<RunStatus>)
        ensures
            r.is_some() == (all_done(self.view()) && all_touched(self.view(), subgraph@)),
            r.is_some() ==> r == Some(terminal_status(self.view())),
    {
        let mut any_failed = false;
        let mut any_ok = false;
        let mut i: usize = 0;
        while i < self.slots.len()
            invariant
                i <= self.slots@.len(),
                forall|j: int| 0 <= j < i ==> #[trigger] self.slots@[j].claim == ClaimState::Done,
                any_failed == exists|j: int|
                    0 <= j < i && #[trigger] self.slots@[j].outcome == SlotOutcome::Failed,
                any_ok == exists|j: int|
                    0 <= j < i && #[trigger] self.slots@[j].outcome == SlotOutcome::Succeeded,
            decreases self.slots@.len() - i,
        {
            if self.slots[i].claim != ClaimState::Done {
                return None;
            }
            match self.slots[i].outcome {
                SlotOutcome::Succeeded => {
                    any_ok = true;
                },
                SlotOutcome::Failed => {
                    any_failed = true;
                },
                _ => {},
            }
            i = i + 1;
        }
        let mut k: usize = 0;
        while k < subgraph.len()
            invariant
                k <= subgraph@.len(),
                forall|j: int| 0 <= j < k ==> has_slot_for(self.slots@, #[trigger] subgraph@[j]@),
            decreases subgraph@.len() - k,
        {
            let mut found = false;
            let mut m: usize = 0;
            while m < self.slots.len()
                invariant
                    m <= self.slots@.len(),
                    k < subgraph@.len(),
                    found ==> has_slot_for(self.slots@, subgraph@[k as int]@),
                    !found ==> forall|j: int|
                        0 <= j < m ==> #[trigger] self.slots@[j].node_id@ != subgraph@[k as int]@,
                decreases self.slots@.len() - m,
            {
                if crate::json::str_eq(self.slots[m].node_id.as_str(), subgraph[k].as_str()) {
                    found = true;
                }
                m = m + 1;
            }
            if !found {
                proof {
                    assert(!has_slot_for(self.slots@, subgraph@[k as int]@));
                    if all_touched(self.slots@, subgraph@) {
                        assert(has_slot_for(self.slots@, subgraph@[k as int]@));
                    }
                }
                return None;
            }
            k = k + 1;
        }
        if any_failed && any_ok {
            Some(RunStatus::PartialFailure)
        } else if any_failed {
            Some(RunStatus::Failed)
        } else {
            Some(RunStatus::Success)
        }
    }

    /// The `(node, fctx)` keys of the enqueued slots (the ready frontier), in table order.
    pub fn ready_slots(&self) -> (r: Vec<(String, String)>)
        ensures
            r@.len() == ready_keys(self.view()).len(),
            forall|j: int|
                0 <= j < r@.len() ==> (#[trigger] r@[j]).0@ == ready_keys(self.view())[j].0 && r@[j].1@
                    == ready_keys(self.view())[j].1,
    {
        let mut out: Vec<(String, String)> = Vec::new();
        let mut i: usize = 0;
        while i < self.slots.len()
            invariant
                i <= self.slots@.len(),
                out@.len() == ready_keys(self.slots@.subrange(0, i as int)).len(),
                forall|j: int|
                    0 <= j < out@.len() ==> (#[trigger] out@[j]).0@ == ready_keys(
                        self.slots@.subrange(0, i as int),
                    )[j].0 && out@[j].1@ == ready_keys(self.slots@.subrange(0, i as int))[j].1,
            decreases self.slots@.len() - i,
        {
            let ghost pre = self.slots@.subrange(0, i as int);
            let ghost nxt = self.slots@.subrange(0, i + 1);
            assert(nxt.drop_last() =~= pre);
            assert(nxt.last() == self.slots@[i as int]);
            if self.slots[i].claim == ClaimState::Enqueued {
                out.push((self.slots[i].node_id.clone(), self.slots[i].fctx.clone()));
            }
            i = i + 1;
        }
        assert(self.slots@.subrange(0, self.slots@.len() as int) =~= self.slots@);
        out
    }
}

/// One node as the seed sees it: its id, whether it is in the run's subgraph, and its in-degree
/// within that subgraph.
pub struct SeedNode {
    pub id: String,
    pub in_subgraph: bool,
    pub indegree: u64,
}

/// The ids of the frontier nodes (in the subgraph, in-degree zero), in flow order, each once.
pub open spec fn frontier(nodes: Seq<SeedNode>) -> Seq<Seq<char>>
    decreases nodes.len(),
{
    if nodes.len() == 0 {
        Seq::empty()
    } else {
        let rest = frontier(nodes.drop_last());
        if nodes.last().in_subgraph && nodes.last().indegree == 0 && !rest.contains(nodes.last().id@) {
            rest.push(nodes.last().id@)
        } else {
            rest
        }
    }
}

/// The run coordinator record `r` seeds: pending, pinned to `version`, with the params, the time and
/// the entry node.
pub open spec fn seeded_run(
    r: FlowRunRecord,
    run_id: Seq<char>,
    flow_id: Seq<char>,
    version: u32,
    params: Json,
    now: u64,
    entry: Option<Seq<char>>,
) -> bool {
    &&& r.run_id@ == run_id
    &&& r.flow_id@ == flow_id
    &&& r.flow_version == version
    &&& r.status@ == "pending"@
    &&& r.params == params
    &&& r.ts == now
    &&& opt_view(r.entry_node) == entry
}

/// Seed a run: the pending coordinator record pinned to the flow's version, and one Enqueued slot at
/// the empty context for each frontier node of the subgraph (in flow order, a repeated id seeded
/// once). Non-frontier slots are minted later, as their upstreams settle. A run that already exists
/// is not re-seeded (`None`).
pub fn seed_run(
    run_exists: bool,
    run_id: &str,
    flow_id: &str,
    version: u32,
    params: Json,
    now: u64,
    entry: Option<&str>,
    nodes: &Vec<SeedNode>,
) -> (r: Option<(FlowRunRecord, SlotTable)>)
    ensures
        run_exists ==> r.is_none(),
        !run_exists ==> (r matches Some((run, table)) && seeded_run(
            run,
            run_id@,
            flow_id@,
            version,
            params,
            now,
            match entry {
                Some(e) => Some(e@),
                None => None,
            },
        ) && table.wf() && table.view().len() == frontier(nodes@).len() && forall|j: int|
            0 <= j < table.view().len() ==> fresh_slot(
                #[trigger] table.view()[j],
                run_id@,
                frontier(nodes@)[j],
                Seq::empty(),
                ClaimState::Enqueued,
                0,
                SlotOutcome::Unset,
                None,
                None,
            )),
{
    if run_exists {
        return None;
    }
    let run = FlowRunRecord {
        run_id: String::from_str(run_id),
        flow_id: String::from_str(flow_id),
        flow_version: version,
        status: String::from_str("pending"),
        params,
        ts: now,
        entry_node: opt_string(entry),
    };
    let mut table = SlotTable::new();
    let mut i: usize = 0;
    while i < nodes.len()
        invariant
            i <= nodes@.len(),
            table.wf(),
            table.view().len() == frontier(nodes@.subrange(0, i as int)).len(),
            forall|j: int|
                0 <= j < table.view().len() ==> fresh_slot(
                    #[trigger] table.view()[j],
                    run_id@,
                    frontier(nodes@.subrange(0, i as int))[j],
                    Seq::empty(),
                    ClaimState::Enqueued,
                    0,
                    SlotOutcome::Unset,
                    None,
                    None,
                ),
        decreases nodes@.len() - i,
    {
        let ghost pre = nodes@.subrange(0, i as int);
        let ghost nxt = nodes@.subrange(0, i + 1);
        assert(nxt.drop_last() =~= pre);
        assert(nxt.last() == nodes@[i as int]);
        proof {
            reveal_strlit("");
            assert(""@ =~= Seq::<char>::empty());
        }
        let fresh = nodes[i].in_subgraph && nodes[i].indegree == 0 && table.find(nodes[i].id.as_str(), "").is_none();
        proof {
            let id = nodes@[i as int].id@;
            let f = frontier(pre);
            if nodes@[i as int].in_subgraph && nodes@[i as int].indegree == 0 {
                if f.contains(id) {
                    let k = choose|k: int| 0 <= k < f.len() && f[k] == id;
                    assert(is_slot(table.view()[k], id, ""@));
                    assert(!fresh);
                } else if !fresh {
                    let k = slot_index(table.view(), id, ""@)->0;
                    assert(is_slot(table.view()[k], id, ""@));
                    assert(f[k] == id);
                    assert(f.contains(id));
                }
            }
        }
        if fresh {
            assert(frontier(nxt) == frontier(pre).push(nodes@[i as int].id@));
            let rec = new_slot(
                run_id,
                nodes[i].id.as_str(),
                "",
                ClaimState::Enqueued,
                0,
                SlotOutcome::Unset,
                None,
                None,
            );
            proof {
                assert forall|k: int| 0 <= k < table.slots@.len() implies !is_slot(
                    #[trigger] table.slots@[k],
                    rec.node_id@,
                    rec.fctx@,
                ) by {
                    if is_slot(table.slots@[k], rec.node_id@, rec.fctx@) {
                        assert(slot_index(table.view(), rec.node_id@, ""@).is_some());
                    }
                }
                lemma_push_slot(table.slots@, rec);
            }
            let ghost before = table.slots@;
            table.slots.push(rec);
            assert(table.view()[table.view().len() - 1] == rec);
            assert forall|j: int| 0 <= j < before.len() implies table.view()[j] == before[j] by {}
        } else {
            assert(frontier(nxt) == frontier(pre));
        }
        i = i + 1;
    }
    assert(nodes@.subrange(0, nodes@.len() as int) =~= nodes@);
    Some((run, table))
}

/// `n` is a dependent of `m` in the dependents map (each entry: a node and the nodes wired from it).
pub open spec fn is_dep(deps: Seq<(String, Vec<String>)>, m: Seq<char>, n: Seq<char>) -> bool {
    exists|i: int| 0 <= i < deps.len() && #[trigger] deps[i].0@ == m && seq_has(deps[i].1@, n)
}

/// The dependents map names each node at most once.
pub open spec fn deps_keys_unique(deps: Seq<(String, Vec<String>)>) -> bool {
    forall|a: int, b: int| 0 <= a < b < deps.len() ==> deps[a].0@ != deps[b].0@
}

/// Every dependent named by the map is one of the flow's nodes.
pub open spec fn deps_within(deps: Seq<(String, Vec<String>)>, nodes: Seq<String>) -> bool {
    forall|m: Seq<char>, n: Seq<char>| #[trigger] is_dep(deps, m, n) ==> seq_has(nodes, n)
}

/// Node ids are distinct.
pub open spec fn distinct_strings(nodes: Seq<String>) -> bool {
    forall|a: int, b: int| 0 <= a < b < nodes.len() ==> nodes[a]@ != nodes[b]@
}

/// `n` is reached from `root` in at most `k + 1` dependent steps, through slots (at context `fctx`)
/// that the gating walk marks: missing, pending or enqueued.
pub open spec fn reach_in(
    deps: Seq<(String, Vec<String>)>,
    slots: Seq<FlowStepRecord>,
    root: Seq<char>,
    fctx: Seq<char>,
    n: Seq<char>,
    k: nat,
) -> bool
    decreases k,
{
    skippable(slots, n, fctx) && (is_dep(deps, root, n) || (k > 0 && exists|m: Seq<char>|
        reach_in(deps, slots, root, fctx, m, (k - 1) as nat) && #[trigger] is_dep(deps, m, n)))
}

/// The nodes a failure (or a gate) at `root` skips under context `fctx`: those reachable through
/// dependents whose slots are missing, pending or enqueued. A running or done slot stops the walk.
pub open spec fn gated(
    deps: Seq<(String, Vec<String>)>,
    slots: Seq<FlowStepRecord>,
    root: Seq<char>,
    fctx: Seq<char>,
    n: Seq<char>,
) -> bool {
    exists|k: nat| reach_in(deps, slots, root, fctx, n, k)
}

/// `new` is the skipped form of a slot that was `orig` (a fresh done/skipped record when missing).
pub open spec fn skipped_version(
    orig: Option<FlowStepRecord>,
    new: FlowStepRecord,
    run: Seq<char>,
    node: Seq<char>,
    fctx: Seq<char>,
) -> bool {
    match orig {
        None => fresh_slot(new, run, node, fctx, ClaimState::Done, 0, SlotOutcome::Skipped, None, None),
        Some(r) => new == FlowStepRecord { claim: ClaimState::Done, outcome: SlotOutcome::Skipped, ..r },
    }
}

/// The number of `true` entries.
pub open spec fn count_true(s: Seq<bool>) -> nat
    decreases s.len(),
{
    if s.len() == 0 {
        0
    } else {
        count_true(s.drop_last()) + if s.last() {
            1nat
        } else {
            0nat
        }
    }
}

proof fn lemma_count_true_bound(s: Seq<bool>)
    ensures
        count_true(s) <= s.len(),
    decreases s.len(),
{
    if s.len() > 0 {
        lemma_count_true_bound(s.drop_last());
    }
}

proof fn lemma_count_true_set(s: Seq<bool>, i: int)
    requires
        0 <= i < s.len(),
        !s[i],
    ensures
        count_true(s.update(i, true)) == count_true(s) + 1,
    decreases s.len(),
{
    let t = s.update(i, true);
    if i == s.len() - 1 {
        assert(t.drop_last() =~= s.drop_last());
    } else {
        assert(t.drop_last() =~= s.drop_last().update(i, true));
        lemma_count_true_set(s.drop_last(), i);
    }
}

/// `count_true`, for other modules.
pub open spec fn count_true_pub(s: Seq<bool>) -> nat {
    count_true(s)
}

/// The count of `true` entries never exceeds the length.
pub proof fn lemma_count_true_bound_pub(s: Seq<bool>)
    ensures
        count_true_pub(s) <= s.len(),
{
    lemma_count_true_bound(s);
}

/// Setting a `false` entry to `true` adds one to the count.
pub proof fn lemma_count_true_set_pub(s: Seq<bool>, i: int)
    requires
        0 <= i < s.len(),
        !s[i],
    ensures
        count_true_pub(s.update(i, true)) == count_true_pub(s) + 1,
{
    lemma_count_true_set(s, i);
}

/// Is `n` a dependent of `m`? (keys of `deps` are unique)
pub fn is_dep_exec(deps: &Vec<(String, Vec<String>)>, m: &str, n: &str) -> (b: bool)
    requires
        deps_keys_unique(deps@),
    ensures
        b == is_dep(deps@, m@, n@),
{
    let mut i: usize = 0;
    while i < deps.len()
        invariant
            i <= deps@.len(),
            deps_keys_unique(deps@),
            forall|j: int| 0 <= j < i ==> deps@[j].0@ != m@,
        decreases deps@.len() - i,
    {
        if crate::json::str_eq(deps[i].0.as_str(), m) {
            let b = contains_str(&deps[i].1, n);
            proof {
                if is_dep(deps@, m@, n@) {
                    let j = choose|j: int| 0 <= j < deps@.len() && #[trigger] deps@[j].0@ == m@ && seq_has(deps@[j].1@, n@);
                    assert(j == i);
                }
            }
            return b;
        }
        i = i + 1;
    }
    false
}

proof fn lemma_reach_member(
    deps: Seq<(String, Vec<String>)>,
    slots: Seq<FlowStepRecord>,
    root: Seq<char>,
    fctx: Seq<char>,
    n: Seq<char>,
    k: nat,
    nodes: Seq<String>,
)
    requires
        deps_within(deps, nodes),
        reach_in(deps, slots, root, fctx, n, k),
    ensures
        seq_has(nodes, n),
{
    if is_dep(deps, root, n) {
    } else {
        let m = choose|m: Seq<char>| reach_in(deps, slots, root, fctx, m, (k - 1) as nat) && #[trigger] is_dep(deps, m, n);
        assert(is_dep(deps, m, n));
    }
}

/// The closure step: a node not yet marked that is skippable and a dependent of the root or of a
/// marked node.
pub open spec fn joins_gate(
    deps: Seq<(String, Vec<String>)>,
    slots: Seq<FlowStepRecord>,
    root: Seq<char>,
    fctx: Seq<char>,
    nodes: Seq<String>,
    marked: Seq<bool>,
    i: int,
) -> bool {
    skippable(slots, nodes[i]@, fctx) && (is_dep(deps, root, nodes[i]@) || exists|j: int|
        0 <= j < nodes.len() && marked[j] && #[trigger] is_dep(deps, nodes[j]@, nodes[i]@))
}

impl SlotTable {
    /// Is slot `(node, fctx)` missing, pending or enqueued?
    fn skippable_exec(&self, node: &str, fctx: &str) -> (b: bool)
        requires
            self.wf(),
        ensures
            b == skippable(self.view(), node@, fctx@),
    {
        match self.read_step(node, fctx) {
            None => true,
            Some(r) => r.claim == ClaimState::Pending || r.claim == ClaimState::Enqueued,
        }
    }

    /// Mark the transitive subtree below `(root, fctx)` skipped: every node reached through the
    /// dependents map whose slot at `fctx` is missing, pending or enqueued is skipped (missing slots
    /// are minted done/skipped so the run never waits on them); a running or done slot is left as
    /// it is and the walk does not continue past it. Every other slot is unchanged.
    pub fn skip_subtree(
        &mut self,
        run_id: &str,
        root: &str,
        fctx: &str,
        nodes: &Vec<String>,
        deps: &Vec<(String, Vec<String>)>,
    )
        requires
            old(self).wf(),
            distinct_strings(nodes@),
            deps_keys_unique(deps@),
            deps_within(deps@, nodes@),
        ensures
            final(self).wf(),
            forall|n: Seq<char>, f: Seq<char>|
                #![trigger slot_of(final(self).view(), n, f)]
                if f == fctx@ && gated(deps@, old(self).view(), root@, fctx@, n) {
                    slot_of(final(self).view(), n, f) matches Some(r) && skipped_version(
                        slot_of(old(self).view(), n, f),
                        r,
                        run_id@,
                        n,
                        f,
                    )
                } else {
                    slot_of(final(self).view(), n, f) == slot_of(old(self).view(), n, f)
                },
    {
        let ghost orig = self.slots@;
        let n = nodes.len();
        let mut marked: Vec<bool> = Vec::new();
        let mut z: usize = 0;
        while z < n
            invariant
                z <= n,
                n == nodes@.len(),
                marked@.len() == z,
                forall|j: int| 0 <= j < z ==> !marked@[j],
            decreases n - z,
        {
            marked.push(false);
            z = z + 1;
        }
        proof {
            assert(count_true(marked@) == 0) by {
                let ghost mm = marked@;
                assert forall|q: nat| q <= mm.len() implies count_true(#[trigger] mm.subrange(0, q as int)) == 0 by {
                    let ghost qq = q;
                    lemma_count_zero(mm, qq);
                }
                assert(mm.subrange(0, mm.len() as int) =~= mm);
            }
        }
        let mut changed = true;
        while changed
            invariant
                self.wf(),
                self.slots@ == orig,
                n == nodes@.len(),
                marked@.len() == n,
                distinct_strings(nodes@),
                deps_keys_unique(deps@),
                deps_within(deps@, nodes@),
                forall|j: int|
                    0 <= j < n && #[trigger] marked@[j] ==> gated(deps@, orig, root@, fctx@, nodes@[j]@),
                !changed ==> forall|j: int|
                    0 <= j < n && !#[trigger] marked@[j] ==> !joins_gate(
                        deps@,
                        orig,
                        root@,
                        fctx@,
                        nodes@,
                        marked@,
                        j,
                    ),
            decreases n - count_true(marked@), if changed { 1int } else { 0int },
        {
            proof {
                lemma_count_true_bound(marked@);
            }
            let ghost start_count = count_true(marked@);
            changed = false;
            let mut i: usize = 0;
            while i < n
                invariant
                    self.wf(),
                    self.slots@ == orig,
                    n == nodes@.len(),
                    marked@.len() == n,
                    i <= n,
                    deps_keys_unique(deps@),
                    deps_within(deps@, nodes@),
                    forall|j: int|
                        0 <= j < n && #[trigger] marked@[j] ==> gated(deps@, orig, root@, fctx@, nodes@[j]@),
                    changed ==> count_true(marked@) > start_count,
                    !changed ==> count_true(marked@) == start_count,
                    !changed ==> forall|j: int|
                        0 <= j < i && !#[trigger] marked@[j] ==> !joins_gate(
                            deps@,
                            orig,
                            root@,
                            fctx@,
                            nodes@,
                            marked@,
                            j,
                        ),
                decreases n - i,
            {
                if !marked[i] && self.skippable_exec(nodes[i].as_str(), fctx) {
                    let mut hit = is_dep_exec(deps, root, nodes[i].as_str());
                    let mut j: usize = 0;
                    while j < n && !hit
                        invariant
                            j <= n,
                            n == nodes@.len(),
                            marked@.len() == n,
                            i < n,
                            deps_keys_unique(deps@),
                            hit ==> (is_dep(deps@, root@, nodes@[i as int]@) || exists|q: int|
                                0 <= q < n && marked@[q] && #[trigger] is_dep(deps@, nodes@[q]@, nodes@[i as int]@)),
                            !hit ==> !is_dep(deps@, root@, nodes@[i as int]@),
                            !hit ==> forall|q: int|
                                0 <= q < j && marked@[q] ==> !#[trigger] is_dep(deps@, nodes@[q]@, nodes@[i as int]@),
                        decreases n - j,
                    {
                        if marked[j] && is_dep_exec(deps, nodes[j].as_str(), nodes[i].as_str()) {
                            hit = true;
                        }
                        j = j + 1;
                    }
                    if hit {
                        proof {
                            let ghost ni = nodes@[i as int]@;
                            if is_dep(deps@, root@, ni) {
                                assert(reach_in(deps@, orig, root@, fctx@, ni, 0));
                            } else {
                                let q = choose|q: int| 0 <= q < n && marked@[q] && #[trigger] is_dep(deps@, nodes@[q]@, ni);
                                assert(gated(deps@, orig, root@, fctx@, nodes@[q]@));
                                let kq = choose|kq: nat| reach_in(deps@, orig, root@, fctx@, nodes@[q]@, kq);
                                assert(reach_in(deps@, orig, root@, fctx@, ni, kq + 1));
                            }
                            lemma_count_true_set(marked@, i as int);
                        }
                        marked.set(i, true);
                        changed = true;
                    }
                }
                i = i + 1;
            }
            proof {
                lemma_count_true_bound(marked@);
            }
        }
        // Apply: skip every marked node's slot at `fctx`.
        let mut i: usize = 0;
        while i < n
            invariant
                self.wf(),
                n == nodes@.len(),
                marked@.len() == n,
                i <= n,
                distinct_strings(nodes@),
                forall|nn: Seq<char>, f: Seq<char>|
                    #![trigger slot_of(self.view(), nn, f)]
                    if f == fctx@ && exists|q: int| 0 <= q < i && marked@[q] && #[trigger] nodes@[q]@ == nn {
                        slot_of(self.view(), nn, f) matches Some(r) && skipped_version(
                            slot_of(orig, nn, f),
                            r,
                            run_id@,
                            nn,
                            f,
                        )
                    } else {
                        slot_of(self.view(), nn, f) == slot_of(orig, nn, f)
                    },
                forall|j: int|
                    0 <= j < n && #[trigger] marked@[j] ==> skippable(orig, nodes@[j]@, fctx@),
            decreases n - i,
        {
            if marked[i] {
                let ghost before = self.slots@;
                let ghost ni = nodes@[i as int]@;
                assert(slot_of(before, ni, fctx@) == slot_of(orig, ni, fctx@)) by {
                    assert(!exists|q: int| 0 <= q < i && marked@[q] && #[trigger] nodes@[q]@ == ni) by {
                        if exists|q: int| 0 <= q < i && marked@[q] && #[trigger] nodes@[q]@ == ni {
                            let q = choose|q: int| 0 <= q < i && marked@[q] && #[trigger] nodes@[q]@ == ni;
                            assert(nodes@[q]@ != nodes@[i as int]@);
                        }
                    }
                    assert(slot_of(self.view(), ni, fctx@) == slot_of(orig, ni, fctx@));
                }
                let _ = self.skip_slot(run_id, nodes[i].as_str(), fctx);
                proof {
                    assert forall|nn: Seq<char>, f: Seq<char>|
                        #![trigger slot_of(self.view(), nn, f)]
                        if f == fctx@ && exists|q: int| 0 <= q < i + 1 && marked@[q] && #[trigger] nodes@[q]@ == nn {
                            slot_of(self.view(), nn, f) matches Some(r) && skipped_version(
                                slot_of(orig, nn, f),
                                r,
                                run_id@,
                                nn,
                                f,
                            )
                        } else {
                            slot_of(self.view(), nn, f) == slot_of(orig, nn, f)
                        } by {
                        if nn == ni && f == fctx@ {
                            assert(nodes@[i as int]@ == nn);
                        } else {
                            assert(slot_of(self.view(), nn, f) == slot_of(before, nn, f));
                            if f == fctx@ && exists|q: int| 0 <= q < i + 1 && marked@[q] && #[trigger] nodes@[q]@ == nn {
                                let q = choose|q: int| 0 <= q < i + 1 && marked@[q] && #[trigger] nodes@[q]@ == nn;
                                assert(q < i);
                            }
                        }
                    }
                }
            }
            i = i + 1;
        }
        proof {
            // `marked` is exactly the gated set.
            assert forall|nn: Seq<char>| gated(deps@, orig, root@, fctx@, nn) implies exists|q: int|
                0 <= q < n && marked@[q] && #[trigger] nodes@[q]@ == nn by {
                let k = choose|k: nat| reach_in(deps@, orig, root@, fctx@, nn, k);
                lemma_gated_marked(deps@, orig, root@, fctx@, nodes@, marked@, nn, k);
            }
            assert forall|nn: Seq<char>, f: Seq<char>|
                #![trigger slot_of(self.view(), nn, f)]
                f == fctx@ && gated(deps@, orig, root@, fctx@, nn) implies exists|q: int|
                0 <= q < n && marked@[q] && #[trigger] nodes@[q]@ == nn by {}
            assert forall|nn: Seq<char>, f: Seq<char>|
                #![trigger slot_of(self.view(), nn, f)]
                f == fctx@ && (exists|q: int| 0 <= q < n && marked@[q] && #[trigger] nodes@[q]@ == nn) implies gated(
                deps@,
                orig,
                root@,
                fctx@,
                nn,
            ) by {
                let q = choose|q: int| 0 <= q < n && marked@[q] && #[trigger] nodes@[q]@ == nn;
                assert(marked@[q]);
            }
        }
    }
}

proof fn lemma_count_zero(s: Seq<bool>, q: nat)
    requires
        q <= s.len(),
        forall|j: int| 0 <= j < s.len() ==> !s[j],
    ensures
        count_true(s.subrange(0, q as int)) == 0,
    decreases q,
{
    if q > 0 {
        let t = s.subrange(0, q as int);
        assert(t.drop_last() =~= s.subrange(0, q - 1));
        lemma_count_zero(s, (q - 1) as nat);
    }
}

proof fn lemma_gated_marked(
    deps: Seq<(String, Vec<String>)>,
    slots: Seq<FlowStepRecord>,
    root: Seq<char>,
    fctx: Seq<char>,
    nodes: Seq<String>,
    marked: Seq<bool>,
    n: Seq<char>,
    k: nat,
)
    requires
        marked.len() == nodes.len(),
        deps_within(deps, nodes),
        reach_in(deps, slots, root, fctx, n, k),
        forall|j: int|
            0 <= j < nodes.len() && !#[trigger] marked[j] ==> !joins_gate(
                deps,
                slots,
                root,
                fctx,
                nodes,
                marked,
                j,
            ),
    ensures
        exists|q: int| 0 <= q < nodes.len() && marked[q] && #[trigger] nodes[q]@ == n,
    decreases k,
{
    lemma_reach_member(deps, slots, root, fctx, n, k, nodes);
    let i = choose|i: int| 0 <= i < nodes.len() && #[trigger] nodes[i]@ == n;
    if !marked[i] {
        assert(!joins_gate(deps, slots, root, fctx, nodes, marked, i));
        if is_dep(deps, root, n) {
        } else {
            let m = choose|m: Seq<char>| reach_in(deps, slots, root, fctx, m, (k - 1) as nat) && #[trigger] is_dep(deps, m, n);
            lemma_gated_marked(deps, slots, root, fctx, nodes, marked, m, (k - 1) as nat);
            let q = choose|q: int| 0 <= q < nodes.len() && marked[q] && #[trigger] nodes[q]@ == m;
            assert(is_dep(deps, nodes[q]@, nodes[i]@));
        }
    }
}

/// `after` is `before` with the whole gated subtree below `(root, fctx)` skipped (the effect of
/// [`SlotTable::skip_subtree`]).
pub open spec fn subtree_skipped(
    before: Seq<FlowStepRecord>,
    after: Seq<FlowStepRecord>,
    run: Seq<char>,
    root: Seq<char>,
    fctx: Seq<char>,
    deps: Seq<(String, Vec<String>)>,
) -> bool {
    forall|n: Seq<char>, f: Seq<char>|
        #![trigger slot_of(after, n, f)]
        if f == fctx && gated(deps, before, root, fctx, n) {
            slot_of(after, n, f) matches Some(r) && skipped_version(slot_of(before, n, f), r, run, n, f)
        } else {
            slot_of(after, n, f) == slot_of(before, n, f)
        }
}

/// `after` is `before` with slot `(node, fctx)` gated (the effect of [`SlotTable::skip_slot`]).
pub open spec fn slot_gated(
    before: Seq<FlowStepRecord>,
    after: Seq<FlowStepRecord>,
    run: Seq<char>,
    node: Seq<char>,
    fctx: Seq<char>,
) -> bool {
    &&& others_unchanged(before, after, node, fctx)
    &&& if skippable(before, node, fctx) {
        slot_of(after, node, fctx) matches Some(r) && skipped_version(slot_of(before, node, fctx), r, run, node, fctx)
    } else {
        slot_of(after, node, fctx) == slot_of(before, node, fctx)
    }
}

impl SlotTable {
    /// Gate `(gated, fctx)` and its exclusive subtree as skipped (a switch's unmatched branch, or a
    /// suppressed node's downstream): the slot itself is gated, then the walk below it runs.
    pub fn skip_gated(
        &mut self,
        run_id: &str,
        gated_node: &str,
        fctx: &str,
        nodes: &Vec<String>,
        deps: &Vec<(String, Vec<String>)>,
    )
        requires
            old(self).wf(),
            distinct_strings(nodes@),
            deps_keys_unique(deps@),
            deps_within(deps@, nodes@),
        ensures
            final(self).wf(),
            exists|mid: Seq<FlowStepRecord>|
                slot_gated(old(self).view(), mid, run_id@, gated_node@, fctx@) && subtree_skipped(
                    mid,
                    final(self).view(),
                    run_id@,
                    gated_node@,
                    fctx@,
                    deps@,
                ),
    {
        let ghost before = self.slots@;
        let _ = self.skip_slot(run_id, gated_node, fctx);
        let ghost mid = self.slots@;
        proof {
            assert(slot_gated(before, mid, run_id@, gated_node@, fctx@)) by {
                if skippable(before, gated_node@, fctx@) {
                    match slot_of(before, gated_node@, fctx@) {
                        Some(r) => {},
                        None => {},
                    }
                }
            }
        }
        self.skip_subtree(run_id, gated_node, fctx, nodes, deps);
        proof {
            assert(subtree_skipped(mid, self.slots@, run_id@, gated_node@, fctx@, deps@));
        }
    }
}

/// `after` is `before` with `outcome` recorded on slot `(node, fctx)` (the effect of
/// [`SlotTable::record_outcome`]; a missing slot leaves the table as it was).
pub open spec fn outcome_recorded(
    before: Seq<FlowStepRecord>,
    after: Seq<FlowStepRecord>,
    node: Seq<char>,
    fctx: Seq<char>,
    outcome: NodeOutcome,
    fctx_field: String,
) -> bool {
    &&& others_unchanged(before, after, node, fctx)
    &&& match slot_of(before, node, fctx) {
        Some(r) => slot_of(after, node, fctx) matches Some(n) && recorded_as(r, n, outcome, fctx_field),
        None => after == before,
    }
}

impl SlotTable {
    /// Settle slot `(node, fctx)` whose dispatch outlived the node's timeout: it is recorded as the
    /// failure `timeout`, and then handled as any other failure: under the halt policy its subtree
    /// is skipped, otherwise its dependents are released (the returned step says which).
    pub fn settle_timeout(
        &mut self,
        run_id: &str,
        node: &str,
        fctx: &str,
        fctx_field: String,
        halt_on_failure: bool,
        nodes: &Vec<String>,
        deps: &Vec<(String, Vec<String>)>,
    ) -> (a: AfterSettle)
        requires
            old(self).wf(),
            distinct_strings(nodes@),
            deps_keys_unique(deps@),
            deps_within(deps@, nodes@),
        ensures
            final(self).wf(),
            a == after_settle_spec(true, halt_on_failure, false, false),
            exists|mid: Seq<FlowStepRecord>, e: String|
                #![trigger outcome_recorded(old(self).view(), mid, node@, fctx@, NodeOutcome::Failed(e), fctx_field)]
                e@ == "timeout"@ && outcome_recorded(
                    old(self).view(),
                    mid,
                    node@,
                    fctx@,
                    NodeOutcome::Failed(e),
                    fctx_field,
                ) && if halt_on_failure {
                    subtree_skipped(mid, final(self).view(), run_id@, node@, fctx@, deps@)
                } else {
                    final(self).view() == mid
                },
    {
        let outcome = crate::execute_node::timed_out_outcome();
        let ghost go = outcome;
        let ghost gf = fctx_field;
        let ghost before = self.slots@;
        let _ = self.record_outcome(node, fctx, outcome, fctx_field);
        let ghost mid = self.slots@;
        proof {
            assert(outcome_recorded(before, mid, node@, fctx@, go, gf));
        }
        let a = after_settle(true, halt_on_failure, false, false);
        match a {
            AfterSettle::SkipSubtree => {
                self.skip_subtree(run_id, node, fctx, nodes, deps);
                proof {
                    assert(subtree_skipped(mid, self.slots@, run_id@, node@, fctx@, deps@));
                }
            },
            _ => {},
        }
        proof {
            match go {
                NodeOutcome::Failed(e) => {
                    assert(outcome_recorded(before, mid, node@, fctx@, NodeOutcome::Failed(e), gf));
                },
                _ => {},
            }
        }
        a
    }
}

/// `after` is `before` with barrier slot `(dep, fctx)` released once (the effect of
/// [`SlotTable::touch_barrier_slot`]).
pub open spec fn barrier_touched(
    before: Seq<FlowStepRecord>,
    after: Seq<FlowStepRecord>,
    run: Seq<char>,
    dep: Seq<char>,
    fctx: Seq<char>,
    barrier_indegree: u64,
) -> bool {
    &&& others_unchanged(before, after, dep, fctx)
    &&& match slot_of(before, dep, fctx) {
        None => slot_of(after, dep, fctx) matches Some(r) && fresh_slot(
            r,
            run,
            dep,
            fctx,
            if barrier_indegree <= 1 {
                ClaimState::Enqueued
            } else {
                ClaimState::Pending
            },
            if barrier_indegree == 0 {
                0u64
            } else {
                (barrier_indegree - 1) as u64
            },
            SlotOutcome::Unset,
            None,
            None,
        ),
        Some(r) => if r.claim == ClaimState::Done {
            slot_of(after, dep, fctx) == slot_of(before, dep, fctx)
        } else {
            slot_of(after, dep, fctx) == Some(barrier_decrement(r))
        },
    }
}

/// `after` is `before` with firing slot `(node, new_fctx)` minted unless already present (the
/// effect of [`SlotTable::mint_firing`]).
pub open spec fn firing_minted(
    before: Seq<FlowStepRecord>,
    after: Seq<FlowStepRecord>,
    run: Seq<char>,
    node: Seq<char>,
    new_fctx: Seq<char>,
    triggered_by: Seq<char>,
    parent_fctx: Seq<char>,
) -> bool {
    &&& others_unchanged(before, after, node, new_fctx)
    &&& match slot_of(before, node, new_fctx) {
        Some(_) => slot_of(after, node, new_fctx) == slot_of(before, node, new_fctx),
        None => slot_of(after, node, new_fctx) matches Some(r) && fresh_slot(
            r,
            run,
            node,
            new_fctx,
            ClaimState::Enqueued,
            0,
            SlotOutcome::Unset,
            Some(triggered_by),
            Some(parent_fctx),
        ),
    }
}

impl SlotTable {
    /// Release dependent `dep` of the settled slot `(finished, fctx)` as `plan` says: not at all, by
    /// one barrier decrement at `fctx`, or by minting the firing slot at the planned context with
    /// `finished`/`fctx` as its trigger attribution.
    pub fn release_one_dependent(
        &mut self,
        run_id: &str,
        dep: &str,
        finished: &str,
        fctx: &str,
        plan: &Release,
        barrier_indegree: u64,
    )
        requires
            old(self).wf(),
        ensures
            final(self).wf(),
            match plan {
                Release::Ignore => final(self).view() == old(self).view(),
                Release::Barrier => barrier_touched(
                    old(self).view(),
                    final(self).view(),
                    run_id@,
                    dep@,
                    fctx@,
                    barrier_indegree,
                ),
                Release::Fire(f) => firing_minted(
                    old(self).view(),
                    final(self).view(),
                    run_id@,
                    dep@,
                    f@,
                    finished@,
                    fctx@,
                ),
            },
    {
        match plan {
            Release::Ignore => {},
            Release::Barrier => {
                self.touch_barrier_slot(run_id, dep, fctx, barrier_indegree);
            },
            Release::Fire(f) => {
                self.mint_firing(run_id, dep, f.as_str(), finished, fctx);
            },
        }
    }
}

/// What follows a slot's settle: gate its subtree, route a switch, or release its dependents.
#[derive(Clone, Copy, Debug, PartialEq, Eq, Structural)]
pub enum AfterSettle {
    SkipSubtree,
    ReleaseMatched,
    ReleaseDependents,
}

/// The step after a settle (see [`after_settle`]).
pub open spec fn after_settle_spec(failed: bool, halt_on_failure: bool, suppressed: bool, is_switch: bool) -> AfterSettle {
    if (failed && halt_on_failure) || suppressed {
        AfterSettle::SkipSubtree
    } else if is_switch && !failed {
        AfterSettle::ReleaseMatched
    } else {
        AfterSettle::ReleaseDependents
    }
}

/// After a node settles: a failure under the halt policy, or a suppression, gates its subtree; a
/// switch that did not fail releases only its matched branches; anything else releases its
/// dependents (a failure under the continue policy included).
pub fn after_settle(failed: bool, halt_on_failure: bool, suppressed: bool, is_switch: bool) -> (a: AfterSettle)
    ensures
        a == after_settle_spec(failed, halt_on_failure, suppressed, is_switch),
        a == if (failed && halt_on_failure) || suppressed {
            AfterSettle::SkipSubtree
        } else if is_switch && !failed {
            AfterSettle::ReleaseMatched
        } else {
            AfterSettle::ReleaseDependents
        },
{
    if (failed && halt_on_failure) || suppressed {
        AfterSettle::SkipSubtree
    } else if is_switch && !failed {
        AfterSettle::ReleaseMatched
    } else {
        AfterSettle::ReleaseDependents
    }
}

/// Whether node `n` is in a run's node set: every node for a whole-graph run; for a run fired from
/// `entry`, the entry and every node reached from it through the dependents map.
pub open spec fn in_run(deps: Seq<(String, Vec<String>)>, entry: Option<Seq<char>>, n: Seq<char>) -> bool {
    match entry {
        None => true,
        Some(e) => n == e || crate::save::is_ancestor(deps, e, n),
    }
}

/// How many entries of `d` are run nodes (of the run over `deps`) whose dependents include `n`: its
/// in-degree within the run's node set.
pub open spec fn run_indegree(deps: Seq<(String, Vec<String>)>, d: Seq<(String, Vec<String>)>, entry: Option<Seq<char>>, n: Seq<char>) -> nat
    decreases d.len(),
{
    if d.len() == 0 {
        0
    } else {
        run_indegree(deps, d.drop_last(), entry, n) + if in_run(deps, entry, d.last().0@) && seq_has(d.last().1@, n) {
            1nat
        } else {
            0nat
        }
    }
}

/// The frontier of a run: its nodes with no upstream inside its node set, in flow order, each once.
pub open spec fn run_frontier(nodes: Seq<String>, deps: Seq<(String, Vec<String>)>, entry: Option<Seq<char>>) -> Seq<Seq<char>>
    decreases nodes.len(),
{
    if nodes.len() == 0 {
        Seq::empty()
    } else {
        let rest = run_frontier(nodes.drop_last(), deps, entry);
        let n = nodes.last()@;
        if in_run(deps, entry, n) && run_indegree(deps, deps, entry, n) == 0 && !rest.contains(n) {
            rest.push(n)
        } else {
            rest
        }
    }
}

/// Is `key` in the run's node set, given the reach flags of `nodes` from the entry?
fn in_run_exec(
    nodes: &Vec<String>,
    deps: &Vec<(String, Vec<String>)>,
    marks: &Vec<bool>,
    entry: Option<&str>,
    key: &str,
) -> (b: bool)
    requires
        marks@.len() == nodes@.len(),
        deps_within(deps@, nodes@),
        entry matches Some(e) ==> forall|i: int| 0 <= i < nodes@.len() ==> (marks@[i] <==> crate::save::is_ancestor(deps@, e@, #[trigger] nodes@[i]@)),
    ensures
        b == in_run(deps@, match entry {
            Some(e) => Some(e@),
            None => None,
        }, key@),
{
    match entry {
        None => true,
        Some(e) => {
            if crate::json::str_eq(key, e) {
                return true;
            }
            let mut q: usize = 0;
            while q < nodes.len()
                invariant
                    q <= nodes@.len(),
                    marks@.len() == nodes@.len(),
                    entry == Some(e),
                    key@ != e@,
                    forall|i: int| 0 <= i < nodes@.len() ==> (marks@[i] <==> crate::save::is_ancestor(deps@, e@, #[trigger] nodes@[i]@)),
                    forall|j: int| 0 <= j < q ==> nodes@[j]@ != key@,
                decreases nodes@.len() - q,
            {
                if crate::json::str_eq(nodes[q].as_str(), key) {
                    return marks[q];
                }
                q = q + 1;
            }
            proof {
                if crate::save::is_ancestor(deps@, e@, key@) {
                    let k = choose|k: nat| crate::save::upstream_in(deps@, e@, key@, k);
                    if !is_dep(deps@, e@, key@) {
                        let m = choose|m: Seq<char>| crate::save::upstream_in(deps@, e@, m, (k - 1) as nat) && #[trigger] is_dep(deps@, m, key@);
                        assert(is_dep(deps@, m, key@));
                    }
                    assert(seq_has(nodes@, key@));
                }
            }
            false
        },
    }
}

/// The seed view of a run's nodes: each node with whether it is in the run's node set and its
/// in-degree within that set (see [`in_run`], [`run_indegree`]).
pub fn run_seed_nodes(nodes: &Vec<String>, deps: &Vec<(String, Vec<String>)>, entry: Option<&str>) -> (r: Vec<SeedNode>)
    requires
        deps_keys_unique(deps@),
        deps_within(deps@, nodes@),
    ensures
        r@.len() == nodes@.len(),
        forall|i: int|
            0 <= i < nodes@.len() ==> (#[trigger] r@[i]).id@ == nodes@[i]@ && r@[i].in_subgraph == in_run(
                deps@,
                match entry {
                    Some(e) => Some(e@),
                    None => None,
                },
                nodes@[i]@,
            ) && r@[i].indegree == run_indegree(
                deps@,
                deps@,
                match entry {
                    Some(e) => Some(e@),
                    None => None,
                },
                nodes@[i]@,
            ),
{
    let ghost ge = match entry {
        Some(e) => Some(e@),
        None => None,
    };
    let marks: Vec<bool> = match entry {
        Some(e) => crate::save::reach_marks(nodes, deps, e),
        None => {
            let mut m: Vec<bool> = Vec::new();
            let mut z: usize = 0;
            while z < nodes.len()
                invariant
                    z <= nodes@.len(),
                    m@.len() == z,
                decreases nodes@.len() - z,
            {
                m.push(true);
                z = z + 1;
            }
            m
        },
    };
    let mut out: Vec<SeedNode> = Vec::new();
    let mut i: usize = 0;
    while i < nodes.len()
        invariant
            i <= nodes@.len(),
            marks@.len() == nodes@.len(),
            deps_within(deps@, nodes@),
            ge == match entry {
                Some(e) => Some(e@),
                None => None,
            },
            entry matches Some(e) ==> forall|q: int| 0 <= q < nodes@.len() ==> (marks@[q] <==> crate::save::is_ancestor(deps@, e@, #[trigger] nodes@[q]@)),
            out@.len() == i,
            forall|q: int|
                0 <= q < i ==> (#[trigger] out@[q]).id@ == nodes@[q]@ && out@[q].in_subgraph == in_run(deps@, ge, nodes@[q]@)
                    && out@[q].indegree == run_indegree(deps@, deps@, ge, nodes@[q]@),
        decreases nodes@.len() - i,
    {
        let inside = in_run_exec(nodes, deps, &marks, entry, nodes[i].as_str());
        let mut deg: u64 = 0;
        let mut j: usize = 0;
        while j < deps.len()
            invariant
                j <= deps@.len(),
                i < nodes@.len(),
                marks@.len() == nodes@.len(),
                deps_within(deps@, nodes@),
                ge == match entry {
                    Some(e) => Some(e@),
                    None => None,
                },
                entry matches Some(e) ==> forall|q: int| 0 <= q < nodes@.len() ==> (marks@[q] <==> crate::save::is_ancestor(deps@, e@, #[trigger] nodes@[q]@)),
                deg == run_indegree(deps@, deps@.subrange(0, j as int), ge, nodes@[i as int]@),
                deg <= j,
            decreases deps@.len() - j,
        {
            let ghost pre = deps@.subrange(0, j as int);
            let ghost nxt = deps@.subrange(0, j + 1);
            assert(nxt.drop_last() =~= pre);
            assert(nxt.last() == deps@[j as int]);
            if in_run_exec(nodes, deps, &marks, entry, deps[j].0.as_str()) && contains_str(&deps[j].1, nodes[i].as_str()) {
                deg = deg + 1;
            }
            j = j + 1;
        }
        assert(deps@.subrange(0, deps@.len() as int) =~= deps@);
        out.push(SeedNode { id: nodes[i].clone(), in_subgraph: inside, indegree: deg });
        i = i + 1;
    }
    out
}

proof fn lemma_seed_frontier(seeds: Seq<SeedNode>, nodes: Seq<String>, deps: Seq<(String, Vec<String>)>, entry: Option<Seq<char>>)
    requires
        seeds.len() == nodes.len(),
        forall|i: int|
            0 <= i < nodes.len() ==> (#[trigger] seeds[i]).id@ == nodes[i]@ && seeds[i].in_subgraph == in_run(deps, entry, nodes[i]@)
                && seeds[i].indegree == run_indegree(deps, deps, entry, nodes[i]@),
    ensures
        frontier(seeds) == run_frontier(nodes, deps, entry),
    decreases nodes.len(),
{
    if nodes.len() > 0 {
        let s2 = seeds.drop_last();
        let n2 = nodes.drop_last();
        assert forall|i: int| 0 <= i < n2.len() implies (#[trigger] s2[i]).id@ == n2[i]@ && s2[i].in_subgraph == in_run(deps, entry, n2[i]@)
            && s2[i].indegree == run_indegree(deps, deps, entry, n2[i]@) by {
            assert(s2[i] == seeds[i] && n2[i] == nodes[i]);
        }
        lemma_seed_frontier(s2, n2, deps, entry);
        assert(seeds.last() == seeds[seeds.len() - 1]);
    }
}

/// Create a run of a flow (see [`seed_run`]): the run's node set is every node, or the entry and
/// the nodes reached from it through the dependents map, and its frontier (the nodes of the set with
/// no upstream inside it, each id once) is seeded Enqueued. An existing run is not re-seeded
/// (`None`).
pub fn create_run(
    run_exists: bool,
    run_id: &str,
    flow_id: &str,
    version: u32,
    params: Json,
    now: u64,
    entry: Option<&str>,
    nodes: &Vec<String>,
    deps: &Vec<(String, Vec<String>)>,
) -> (r: Option<(FlowRunRecord, SlotTable)>)
    requires
        deps_keys_unique(deps@),
        deps_within(deps@, nodes@),
    ensures
        run_exists ==> r.is_none(),
        !run_exists ==> (r matches Some((run, table)) && seeded_run(
            run,
            run_id@,
            flow_id@,
            version,
            params,
            now,
            match entry {
                Some(e) => Some(e@),
                None => None,
            },
        ) && table.wf() && table.view().len() == run_frontier(
            nodes@,
            deps@,
            match entry {
                Some(e) => Some(e@),
                None => None,
            },
        ).len() && forall|j: int|
            0 <= j < table.view().len() ==> fresh_slot(
                #[trigger] table.view()[j],
                run_id@,
                run_frontier(
                    nodes@,
                    deps@,
                    match entry {
                        Some(e) => Some(e@),
                        None => None,
                    },
                )[j],
                Seq::empty(),
                ClaimState::Enqueued,
                0,
                SlotOutcome::Unset,
                None,
                None,
            )),
{
    let seeds = run_seed_nodes(nodes, deps, entry);
    let ghost ge = match entry {
        Some(e) => Some(e@),
        None => None,
    };
    proof {
        lemma_seed_frontier(seeds@, nodes@, deps@, ge);
    }
    seed_run(run_exists, run_id, flow_id, version, params, now, entry, &seeds)
}

} // verus!
