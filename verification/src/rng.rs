use vstd::prelude::*;
use vstd::arithmetic::div_mod::lemma_add_mod_noop;
use vstd::arithmetic::div_mod::lemma_small_mod;

verus! {

/// Increment added to the generator state before every draw.
pub const GOLDEN_GAMMA: u64 = 0x9e37_79b9_7f4a_7c15;

/// First multiplier of the output finaliser.
pub const MIX_MUL_1: u64 = 0xbf58_476d_1ce4_e5b9;

/// Second multiplier of the output finaliser.
pub const MIX_MUL_2: u64 = 0x94d0_49bb_1331_11eb;

/// The SplitMix64 finaliser applied to an advanced state.
pub open spec fn spec_mix(z: u64) -> u64 {
    let a = (z ^ (z >> 30u64)).wrapping_mul(MIX_MUL_1);
    let b = (a ^ (a >> 27u64)).wrapping_mul(MIX_MUL_2);
    b ^ (b >> 31u64)
}

/// One step of the state: add the gamma modulo 2^64.
pub open spec fn spec_advance(state: u64) -> u64 {
    state.wrapping_add(GOLDEN_GAMMA)
}

/// The state after `k` draws from a generator whose state was `start`.
pub open spec fn state_after(start: u64, k: nat) -> u64
    decreases k,
{
    if k == 0 {
        start
    } else {
        spec_advance(state_after(start, (k - 1) as nat))
    }
}

/// The `k`-th value (counting from 0) drawn from a generator whose state was `start`.
pub open spec fn output_at(start: u64, k: nat) -> u64 {
    spec_mix(state_after(start, k + 1))
}

/// A SplitMix64 pseudo-random generator: a 64-bit state advanced by a fixed
/// odd increment, and a bijective finaliser applied to every new state.
pub struct SplitMix64 {
    state: u64,
}

impl View for SplitMix64 {
    type V = u64;

    open spec fn view(&self) -> u64 {
        self.state()
    }
}

impl SplitMix64 {
    /// The current 64-bit state.
    pub closed spec fn state(&self) -> u64 {
        self.state
    }

    /// A generator whose state is the seed.
    pub fn new(seed: u64) -> (g: Self)
        ensures
            g@ == seed,
    {
        SplitMix64 { state: seed }
    }

    /// Advances the state by the gamma and returns the finalised new state.
    pub fn next_u64(&mut self) -> (r: u64)
        ensures
            final(self)@ == spec_advance(old(self)@),
            r == spec_mix(final(self)@),
            r == output_at(old(self)@, 0),
    {
        assert(state_after(old(self)@, 0) == old(self)@);
        self.state = self.state.wrapping_add(GOLDEN_GAMMA);
        let mut z: u64 = self.state;
        z = (z ^ (z >> 30u64)).wrapping_mul(MIX_MUL_1);
        z = (z ^ (z >> 27u64)).wrapping_mul(MIX_MUL_2);
        z ^ (z >> 31u64)
    }

    /// Draws one value and keeps its top 53 bits, the integer that a
    /// uniform double in (0, 1) is built from.
    pub fn next_bits53(&mut self) -> (r: u64)
        ensures
            final(self)@ == spec_advance(old(self)@),
            r == spec_mix(final(self)@) >> 11u64,
            r == output_at(old(self)@, 0) >> 11u64,
            r < 0x20_0000_0000_0000u64,
    {
        proof {
            assert(state_after(old(self)@, 0) == old(self)@);
        }
        let x = self.next_u64();
        assert(x >> 11u64 < 0x20_0000_0000_0000u64) by (bit_vector);
        x >> 11u64
    }
}

/// The finaliser in plain arithmetic: XOR with the state shifted right by
/// 30, multiply by the first constant modulo 2^64, XOR with the result
/// shifted right by 27, multiply by the second constant modulo 2^64, XOR
/// with the result shifted right by 31.
pub proof fn lemma_mix_formula(z: u64)
    ensures
        ({
            let a = (((z ^ (z >> 30u64)) as nat * MIX_MUL_1 as nat) % 0x1_0000_0000_0000_0000nat) as u64;
            let b = (((a ^ (a >> 27u64)) as nat * MIX_MUL_2 as nat) % 0x1_0000_0000_0000_0000nat) as u64;
            spec_mix(z) == b ^ (b >> 31u64)
        }),
{
}

/// A draw advances the state by the gamma modulo 2^64.
pub proof fn lemma_advance_formula(state: u64)
    ensures
        spec_advance(state) as int == (state + GOLDEN_GAMMA) % 0x1_0000_0000_0000_0000,
{
    lemma_state_after_closed_form(state, 1);
    assert(state_after(state, 0) == state);
}

/// The state after `k` draws is the seed plus `k` times the gamma, modulo
/// 2^64: the whole stream of a generator is fixed by its seed alone.
pub proof fn lemma_state_after_closed_form(seed: u64, k: nat)
    ensures
        state_after(seed, k) as int == (seed + k * GOLDEN_GAMMA) % 0x1_0000_0000_0000_0000,
    decreases k,
{
    let m: int = 0x1_0000_0000_0000_0000;
    if k == 0 {
        lemma_small_mod(seed as nat, m as nat);
    } else {
        lemma_state_after_closed_form(seed, (k - 1) as nat);
        let prev: int = seed + (k - 1) * GOLDEN_GAMMA;
        lemma_add_mod_noop(prev, GOLDEN_GAMMA as int, m);
        lemma_small_mod(GOLDEN_GAMMA as nat, m as nat);
        let p = state_after(seed, (k - 1) as nat);
        assert(prev + GOLDEN_GAMMA == seed + k * GOLDEN_GAMMA) by (nonlinear_arith)
            requires
                prev == seed + (k - 1) * GOLDEN_GAMMA,
        ;
        if p + GOLDEN_GAMMA > u64::MAX {
            assert((p + GOLDEN_GAMMA) % m == p + GOLDEN_GAMMA - m) by {
                vstd::arithmetic::div_mod::lemma_mod_add_multiples_vanish(p + GOLDEN_GAMMA - m, m);
                lemma_small_mod((p + GOLDEN_GAMMA - m) as nat, m as nat);
            }
        } else {
            lemma_small_mod((p + GOLDEN_GAMMA) as nat, m as nat);
        }
    }
}

} // verus!
