use vstd::prelude::*;

verus! {

/// What a claim on the shared counter hands out: the counter's value while
/// replications remain, nothing afterwards.
pub open spec fn spec_claim(next: usize, total: usize) -> Option<usize> {
    if next < total {
        Some(next)
    } else {
        None
    }
}

/// The counter after a claim.
pub open spec fn spec_counter_after_claim(next: usize, total: usize) -> usize {
    if next < total {
        (next + 1) as usize
    } else {
        next
    }
}

/// Hands out the next replication index from the shared counter `next`:
/// `Some(index)` and the counter advanced while `index < total`, else `None`
/// and the counter unchanged.
pub fn claim_replication(next: &mut usize, total: usize) -> (r: Option<usize>)
    ensures
        r == spec_claim(*old(next), total),
        *final(next) == spec_counter_after_claim(*old(next), total),
        *old(next) < total ==> r == Some(*old(next)) && *final(next) == *old(next) + 1,
        *old(next) >= total ==> r.is_none() && *final(next) == *old(next),
{
    if *next >= total {
        return None;
    }
    let rep = *next;
    *next = *next + 1;
    Some(rep)
}

/// The shared counter after `k` claims, starting from 0.
pub open spec fn counter_after_claims(total: usize, k: nat) -> usize
    decreases k,
{
    if k == 0 {
        0
    } else {
        spec_counter_after_claim(counter_after_claims(total, (k - 1) as nat), total)
    }
}

/// Claims on a counter that starts at 0 hand out 0, 1, 2, ... in turn until
/// `total` replications are out, and nothing afterwards: however the claims
/// are spread over workers, every replication is computed exactly once.
pub proof fn lemma_claims_hand_out_each_once(total: usize, k: nat)
    ensures
        counter_after_claims(total, k) == if k < total {
            k as int
        } else {
            total as int
        },
        spec_claim(counter_after_claims(total, k), total) == if k < total {
            Some(k as usize)
        } else {
            None::<usize>
        },
    decreases k,
{
    if k > 0 {
        lemma_claims_hand_out_each_once(total, (k - 1) as nat);
    }
}

} // verus!
