use vstd::prelude::*;
use crate::rng::{SplitMix64, output_at, state_after};

verus! {

/// Draws `draws` resampling indices in `0..modulus`: the `i`-th is the
/// generator's `i`-th value modulo `modulus`.
pub fn bootstrap_indices(rng: &mut SplitMix64, draws: usize, modulus: usize) -> (v: Vec<usize>)
    requires
        modulus > 0,
    ensures
        v@.len() == draws,
        forall|i: int| 0 <= i < draws ==> #[trigger] v@[i] as int == output_at(old(rng)@, i as nat) as int % modulus as int,
        forall|i: int| 0 <= i < draws ==> #[trigger] v@[i] < modulus,
        final(rng)@ == state_after(old(rng)@, draws as nat),
{
    let ghost start = rng@;
    let mut v: Vec<usize> = Vec::new();
    let mut i: usize = 0;
    while i < draws
        invariant
            modulus > 0,
            i <= draws,
            v@.len() == i,
            rng@ == state_after(start, i as nat),
            forall|j: int| 0 <= j < i ==> #[trigger] v@[j] as int == output_at(start, j as nat) as int % modulus as int,
            forall|j: int| 0 <= j < i ==> #[trigger] v@[j] < modulus,
        decreases draws - i,
    {
        let x = rng.next_u64();
        assert(rng@ == state_after(start, (i + 1) as nat));
        let idx = (x % (modulus as u64)) as usize;
        v.push(idx);
        i = i + 1;
    }
    v
}

} // verus!
