//! The approval reactor's decisions: each resolved inbox item whose id is a flow-approval item
//! `flow-approval:{run}:{node}` names a parked run, which is resumed when approved and cancelled
//! when rejected; any other resolution is ignored. A pass tallies what it resumed and cancelled.
use vstd::prelude::*;

use crate::ids::{run_of, run_of_spec};

verus! {

/// One approval pass's tally.
#[derive(Clone, Copy, Debug, PartialEq, Eq, Structural)]
pub struct FlowApprovalPass {
    pub resumed: usize,
    pub cancelled: usize,
}

impl Default for FlowApprovalPass {
    fn default() -> (p: Self)
        ensures
            p.resumed == 0 && p.cancelled == 0,
    {
        FlowApprovalPass { resumed: 0, cancelled: 0 }
    }
}

impl FlowApprovalPass {
    /// Count one resumed run.
    pub fn count_resumed(&mut self)
        requires
            old(self).resumed < usize::MAX,
        ensures
            final(self).resumed == old(self).resumed + 1,
            final(self).cancelled == old(self).cancelled,
    {
        self.resumed = self.resumed + 1;
    }

    /// Count one cancelled run.
    pub fn count_cancelled(&mut self)
        requires
            old(self).cancelled < usize::MAX,
        ensures
            final(self).cancelled == old(self).cancelled + 1,
            final(self).resumed == old(self).resumed,
    {
        self.cancelled = self.cancelled + 1;
    }
}

/// The runs named by the resolved items, in item order (items that are not flow-approval items
/// name none).
pub open spec fn named_runs(items: Seq<String>) -> Seq<Seq<char>>
    decreases items.len(),
{
    if items.len() == 0 {
        Seq::empty()
    } else {
        let rest = named_runs(items.drop_last());
        match run_of_spec(items.last()@) {
            Some(r) => rest.push(r),
            None => rest,
        }
    }
}

/// The runs named by the resolved items (see [`named_runs`]).
pub fn approval_runs(items: &Vec<String>) -> (r: Vec<String>)
    ensures
        r@.len() == named_runs(items@).len(),
        forall|i: int| 0 <= i < r@.len() ==> (#[trigger] r@[i])@ == named_runs(items@)[i],
{
    let mut out: Vec<String> = Vec::new();
    let mut i: usize = 0;
    while i < items.len()
        invariant
            i <= items@.len(),
            out@.len() == named_runs(items@.subrange(0, i as int)).len(),
            forall|j: int| 0 <= j < out@.len() ==> (#[trigger] out@[j])@ == named_runs(items@.subrange(0, i as int))[j],
        decreases items@.len() - i,
    {
        let ghost pre = items@.subrange(0, i as int);
        let ghost nxt = items@.subrange(0, i + 1);
        assert(nxt.drop_last() =~= pre);
        assert(nxt.last() == items@[i as int]);
        match run_of(items[i].as_str()) {
            Some(run) => out.push(run),
            None => {},
        }
        i = i + 1;
    }
    assert(items@.subrange(0, items@.len() as int) =~= items@);
    out
}

} // verus!
