//! The webhook source reactor's event cursor: every sample past the last fired sequence fires one
//! run, and the cursor advances to the highest sequence seen, so a hit fires exactly once and a
//! restart resumes from the durable cursor.
use vstd::prelude::*;

verus! {

/// One source-reactor pass's tally.
#[derive(Clone, Copy, Debug, PartialEq, Eq, Structural)]
pub struct SourceReactorPass {
    pub fired: u64,
}

impl SourceReactorPass {
    /// An empty tally.
    pub fn new() -> (p: Self)
        ensures
            p.fired == 0,
    {
        SourceReactorPass { fired: 0 }
    }
}

/// Does sample sequence `seq` fire, given the last fired sequence?
pub open spec fn fires_after(last_seq: Option<u64>, seq: u64) -> bool {
    match last_seq {
        None => true,
        Some(prev) => seq > prev,
    }
}

/// The cursor after firing the first `n` samples: the largest of the last fired sequence (0 when
/// none) and every fired sample's sequence.
pub open spec fn highest(last_seq: Option<u64>, seqs: Seq<u64>, n: int) -> u64
    decreases n,
{
    if n <= 0 {
        match last_seq {
            Some(p) => p,
            None => 0,
        }
    } else {
        let h = highest(last_seq, seqs, n - 1);
        if fires_after(last_seq, seqs[n - 1]) && seqs[n - 1] > h {
            seqs[n - 1]
        } else {
            h
        }
    }
}

/// The plan for one source node: the indices of the samples to fire (in order) and the cursor to
/// persist (`None` when there were no samples, so nothing is written).
pub struct HitsPlan {
    pub fire: Vec<usize>,
    pub cursor: Option<u64>,
}

/// Plan the firings for the samples read past the cursor: each sample beyond the last fired
/// sequence fires (in order); the cursor becomes the highest sequence fired (or stays).
pub fn plan_hits(last_seq: Option<u64>, seqs: &Vec<u64>) -> (p: HitsPlan)
    ensures
        seqs@.len() == 0 ==> p.cursor.is_none() && p.fire@.len() == 0,
        seqs@.len() > 0 ==> p.cursor == Some(highest(last_seq, seqs@, seqs@.len() as int)),
        forall|a: int, b: int| 0 <= a < b < p.fire@.len() ==> p.fire@[a] < p.fire@[b],
        forall|a: int| 0 <= a < p.fire@.len() ==> p.fire@[a] < seqs@.len(),
        forall|i: int|
            0 <= i < seqs@.len() ==> (fires_after(last_seq, seqs@[i]) <==> exists|a: int|
                0 <= a < p.fire@.len() && #[trigger] p.fire@[a] == i),
{
    let mut fire: Vec<usize> = Vec::new();
    if seqs.len() == 0 {
        return HitsPlan { fire, cursor: None };
    }
    let mut high: u64 = match last_seq {
        Some(p) => p,
        None => 0,
    };
    let mut i: usize = 0;
    while i < seqs.len()
        invariant
            i <= seqs@.len(),
            high == highest(last_seq, seqs@, i as int),
            forall|a: int, b: int| 0 <= a < b < fire@.len() ==> fire@[a] < fire@[b],
            forall|a: int| 0 <= a < fire@.len() ==> fire@[a] < i,
            forall|q: int|
                0 <= q < i ==> (fires_after(last_seq, seqs@[q]) <==> exists|a: int|
                    0 <= a < fire@.len() && #[trigger] fire@[a] == q),
        decreases seqs@.len() - i,
    {
        let s = seqs[i];
        let go = match last_seq {
            None => true,
            Some(prev) => s > prev,
        };
        let ghost before = fire@;
        if go {
            fire.push(i);
            if s > high {
                high = s;
            }
        }
        proof {
            assert forall|q: int|
                0 <= q < i + 1 implies (fires_after(last_seq, seqs@[q]) <==> exists|a: int|
                    0 <= a < fire@.len() && #[trigger] fire@[a] == q) by {
                if q < i {
                    if exists|a: int| 0 <= a < before.len() && #[trigger] before[a] == q {
                        let a = choose|a: int| 0 <= a < before.len() && #[trigger] before[a] == q;
                        assert(fire@[a] == q);
                    }
                    if exists|a: int| 0 <= a < fire@.len() && #[trigger] fire@[a] == q {
                        let a = choose|a: int| 0 <= a < fire@.len() && #[trigger] fire@[a] == q;
                        if a < before.len() {
                            assert(before[a] == q);
                        }
                    }
                } else {
                    if go {
                        assert(fire@[before.len() as int] == q);
                    } else {
                        if exists|a: int| 0 <= a < fire@.len() && #[trigger] fire@[a] == q {
                            let a = choose|a: int| 0 <= a < fire@.len() && #[trigger] fire@[a] == q;
                            assert(before[a] < i);
                        }
                    }
                }
            }
        }
        i = i + 1;
    }
    proof {
        assert forall|q: int| 0 <= q < seqs@.len() implies (fires_after(last_seq, #[trigger] seqs@[q]) <==> exists|a: int|
            0 <= a < fire@.len() && #[trigger] fire@[a] == q) by {
            assert(q < i);
        }
    }
    let p = HitsPlan { fire, cursor: Some(high) };
    proof {
        assert forall|q: int| 0 <= q < seqs@.len() implies (fires_after(last_seq, seqs@[q]) <==> exists|a: int|
            0 <= a < p.fire@.len() && #[trigger] p.fire@[a] == q) by {
            assert(q < i);
            if fires_after(last_seq, seqs@[q]) {
                let a = choose|a: int| 0 <= a < fire@.len() && #[trigger] fire@[a] == q;
                assert(p.fire@[a] == q);
            }
        }
    }
    p
}

} // verus!
