//! The `approval` node: hold a run until someone resolves its inbox item. Approved passes
//! the message through, rejected fails the node, and no resolution (or a deferred one) parks the run
//! after ensuring the approval item exists.
use vstd::prelude::*;

use crate::text::concat2;

verus! {

/// The decision recorded on an approval item.
#[derive(Clone, Copy, Debug, PartialEq, Eq, Structural)]
pub enum Resolution {
    Approved,
    Rejected,
    Deferred,
}

/// What the approval node does this firing.
#[derive(Clone, Copy, Debug, PartialEq, Eq, Structural)]
pub enum ApprovalStep {
    /// Settle with the incoming payload passed through.
    Pass,
    /// Settle failed with `rejected`.
    Reject,
    /// Ensure the approval item exists and park the run.
    Park,
}

/// The approval node's step for a resolution (`None`: no resolution yet).
pub fn approval_step(resolution: Option<Resolution>) -> (s: ApprovalStep)
    ensures
        s == match resolution {
            Some(Resolution::Approved) => ApprovalStep::Pass,
            Some(Resolution::Rejected) => ApprovalStep::Reject,
            _ => ApprovalStep::Park,
        },
{
    match resolution {
        Some(Resolution::Approved) => ApprovalStep::Pass,
        Some(Resolution::Rejected) => ApprovalStep::Reject,
        _ => ApprovalStep::Park,
    }
}

/// The approval item's channel and body: the configured channel when set and non-empty, else
/// `approvals`; the body routes to the configured team (empty when unset).
pub fn gate_request(channel: Option<&str>, team: Option<&str>) -> (r: (String, String))
    ensures
        r.0@ == match channel {
            Some(c) if c@.len() > 0 => c@,
            _ => "approvals"@,
        },
        r.1@ == "needs:approval route:team:"@ + match team {
            Some(t) => t@,
            None => Seq::empty(),
        },
{
    let ch = match channel {
        Some(c) if c.unicode_len() > 0 => String::from_str(c),
        _ => String::from_str("approvals"),
    };
    let body = match team {
        Some(t) => concat2("needs:approval route:team:", t),
        None => {
            let b = String::from_str("needs:approval route:team:");
            assert(b@ =~= b@ + Seq::<char>::empty());
            b
        },
    };
    (ch, body)
}

} // verus!
