use vstd::prelude::*;
use vstd::arithmetic::div_mod::lemma_mul_mod_noop_left;
use vstd::arithmetic::div_mod::lemma_mul_mod_noop_right;
use vstd::arithmetic::div_mod::lemma_small_mod;
use vstd::arithmetic::mul::lemma_mul_is_associative;

verus! {

/// The base seed of every replication and of every bootstrap.
pub const BASE_SEED: u64 = 20_260_713;

/// Odd multiplier that spreads replication indices over the seed space.
pub const REPLICATION_MIX: u64 = 0xd134_2543_de82_ef95;

/// The multiplicative inverse of `REPLICATION_MIX` modulo 2^64.
pub const REPLICATION_MIX_INVERSE: u64 = 0x572b_5ee7_7a54_e3bd;

/// The three sensitivity scenarios of the model.
#[derive(Clone, Copy, Debug, PartialEq, Eq, Structural)]
pub enum ScenarioKind {
    Low,
    Central,
    High,
}

impl ScenarioKind {
    /// The number that tells the scenarios' random streams apart.
    pub open spec fn spec_tag(self) -> u64 {
        match self {
            ScenarioKind::Low => 1,
            ScenarioKind::Central => 2,
            ScenarioKind::High => 3,
        }
    }

    /// The scenario's tag: 1, 2 and 3 for low, central and high.
    pub fn tag(&self) -> (t: u64)
        ensures
            t == self.spec_tag(),
            *self == ScenarioKind::Low ==> t == 1,
            *self == ScenarioKind::Central ==> t == 2,
            *self == ScenarioKind::High ==> t == 3,
    {
        match self {
            ScenarioKind::Low => 1,
            ScenarioKind::Central => 2,
            ScenarioKind::High => 3,
        }
    }

    /// The scenario's name as it appears in the report.
    pub fn name(&self) -> (s: &'static str)
        ensures
            *self == ScenarioKind::Low ==> s@ == "low_noip_N7546"@,
            *self == ScenarioKind::Central ==> s@ == "central_noip_N7546"@,
            *self == ScenarioKind::High ==> s@ == "high_noip_N7546"@,
    {
        match self {
            ScenarioKind::Low => "low_noip_N7546",
            ScenarioKind::Central => "central_noip_N7546",
            ScenarioKind::High => "high_noip_N7546",
        }
    }
}

/// The seed of replication `rep` of a scenario.
pub open spec fn spec_replication_seed(rep: usize, kind: ScenarioKind) -> u64 {
    BASE_SEED ^ (rep as u64).wrapping_mul(REPLICATION_MIX) ^ kind.spec_tag()
}

/// The seed of replication `rep` of a scenario: the base seed, the index
/// times an odd constant modulo 2^64, and the scenario's tag, XOR-ed.
pub fn replication_seed(rep: usize, kind: ScenarioKind) -> (s: u64)
    ensures
        s == spec_replication_seed(rep, kind),
        s == BASE_SEED ^ (((rep as nat) * (REPLICATION_MIX as nat)) % 0x1_0000_0000_0000_0000nat) as u64
            ^ (if kind == ScenarioKind::Low {
            1u64
        } else if kind == ScenarioKind::Central {
            2u64
        } else {
            3u64
        }),
{
    BASE_SEED ^ (rep as u64).wrapping_mul(REPLICATION_MIX) ^ kind.tag()
}

/// Multiplying by the mixing constant modulo 2^64 can be undone.
proof fn lemma_mix_invertible(x: u64)
    ensures
        x.wrapping_mul(REPLICATION_MIX).wrapping_mul(REPLICATION_MIX_INVERSE) == x,
{
    let m: int = 0x1_0000_0000_0000_0000;
    let c: int = REPLICATION_MIX as int;
    let d: int = REPLICATION_MIX_INVERSE as int;
    assert(c * d % m == 1);
    lemma_mul_mod_noop_left(x * c, d, m);
    lemma_mul_is_associative(x as int, c, d);
    lemma_mul_mod_noop_right(x as int, c * d, m);
    lemma_small_mod(x as nat, m as nat);
}

/// Distinct replications of one scenario get distinct seeds.
pub proof fn lemma_replication_seeds_distinct(a: usize, b: usize, kind: ScenarioKind)
    requires
        a != b,
    ensures
        spec_replication_seed(a, kind) != spec_replication_seed(b, kind),
{
    let x = (a as u64).wrapping_mul(REPLICATION_MIX);
    let y = (b as u64).wrapping_mul(REPLICATION_MIX);
    let t = kind.spec_tag();
    lemma_mix_invertible(a as u64);
    lemma_mix_invertible(b as u64);
    assert(x != y);
    assert(BASE_SEED ^ x ^ t != BASE_SEED ^ y ^ t) by (bit_vector)
        requires
            x != y,
    ;
}

/// For one replication index, the three scenarios' seeds differ exactly by
/// the XOR of their tags 1, 2 and 3, so the scenarios never share a stream.
pub proof fn lemma_scenario_seeds_differ_by_tag(rep: usize)
    ensures
        spec_replication_seed(rep, ScenarioKind::Low) ^ spec_replication_seed(
            rep,
            ScenarioKind::Central,
        ) == 3u64,
        spec_replication_seed(rep, ScenarioKind::Low) ^ spec_replication_seed(
            rep,
            ScenarioKind::High,
        ) == 2u64,
        spec_replication_seed(rep, ScenarioKind::Central) ^ spec_replication_seed(
            rep,
            ScenarioKind::High,
        ) == 1u64,
        spec_replication_seed(rep, ScenarioKind::Low) != spec_replication_seed(
            rep,
            ScenarioKind::Central,
        ),
        spec_replication_seed(rep, ScenarioKind::Low) != spec_replication_seed(
            rep,
            ScenarioKind::High,
        ),
        spec_replication_seed(rep, ScenarioKind::Central) != spec_replication_seed(
            rep,
            ScenarioKind::High,
        ),
        spec_replication_seed(rep, ScenarioKind::Low) == BASE_SEED ^ (((rep as nat) * (
        REPLICATION_MIX as nat)) % 0x1_0000_0000_0000_0000nat) as u64 ^ 1u64,
{
    let x = (rep as u64).wrapping_mul(REPLICATION_MIX);
    let b = BASE_SEED;
    assert((b ^ x ^ 1u64) ^ (b ^ x ^ 2u64) == 3u64) by (bit_vector);
    assert((b ^ x ^ 1u64) ^ (b ^ x ^ 3u64) == 2u64) by (bit_vector);
    assert((b ^ x ^ 2u64) ^ (b ^ x ^ 3u64) == 1u64) by (bit_vector);
    assert(b ^ x ^ 1u64 != b ^ x ^ 2u64) by (bit_vector);
    assert(b ^ x ^ 1u64 != b ^ x ^ 3u64) by (bit_vector);
    assert(b ^ x ^ 2u64 != b ^ x ^ 3u64) by (bit_vector);
}

/// The seeds of two replications of one scenario differ by the XOR of the
/// two indices' images under multiplication by the mixing constant.
pub proof fn lemma_replication_seeds_differ_by_mixed_index(a: usize, b: usize, kind: ScenarioKind)
    ensures
        spec_replication_seed(a, kind) ^ spec_replication_seed(b, kind) == ((((a as nat) * (
        REPLICATION_MIX as nat)) % 0x1_0000_0000_0000_0000nat) as u64) ^ ((((b as nat) * (
        REPLICATION_MIX as nat)) % 0x1_0000_0000_0000_0000nat) as u64),
{
    let x = (a as u64).wrapping_mul(REPLICATION_MIX);
    let y = (b as u64).wrapping_mul(REPLICATION_MIX);
    let t = kind.spec_tag();
    let s = BASE_SEED;
    assert((s ^ x ^ t) ^ (s ^ y ^ t) == x ^ y) by (bit_vector);
}

/// The sum of a byte string's bytes.
pub open spec fn byte_sum(bytes: Seq<u8>) -> nat
    decreases bytes.len(),
{
    if bytes.len() == 0 {
        0
    } else {
        byte_sum(bytes.drop_last()) + bytes.last() as nat
    }
}

proof fn lemma_byte_sum_bound(bytes: Seq<u8>)
    ensures
        byte_sum(bytes) <= 255 * bytes.len(),
    decreases bytes.len(),
{
    if bytes.len() > 0 {
        lemma_byte_sum_bound(bytes.drop_last());
    }
}

/// The byte sum of an empty string is 0 and of a single byte is that byte.
pub proof fn lemma_byte_sum_basics(b: u8)
    ensures
        byte_sum(Seq::<u8>::empty()) == 0,
        byte_sum(seq![b]) == b,
{
    assert(seq![b].drop_last() =~= Seq::<u8>::empty());
    assert(byte_sum(Seq::<u8>::empty()) == 0);
    assert(seq![b].len() == 1 && seq![b].last() == b);
    assert(byte_sum(seq![b]) == byte_sum(seq![b].drop_last()) + b);
}

/// The byte sum of a concatenation is the sum of the parts' byte sums.
pub proof fn lemma_byte_sum_concat(a: Seq<u8>, b: Seq<u8>)
    ensures
        byte_sum(a + b) == byte_sum(a) + byte_sum(b),
    decreases b.len(),
{
    if b.len() == 0 {
        assert(a + b =~= a);
    } else {
        lemma_byte_sum_concat(a, b.drop_last());
        assert((a + b).drop_last() =~= a + b.drop_last());
    }
}

/// The seed of the bootstrap of one SLA and one skip mode of a scenario.
pub open spec fn spec_bootstrap_seed(sla_index: usize, mode: usize, name: Seq<u8>) -> u64 {
    BASE_SEED ^ (sla_index as u64) ^ ((mode as u64) << 12u64) ^ (byte_sum(name) as u64)
}

/// The seed of the bootstrap of one SLA and one skip mode: the base seed,
/// the SLA's index, the mode shifted left by 12 bits and the sum of the
/// bytes of the scenario's name, XOR-ed.
pub fn bootstrap_seed(sla_index: usize, mode: usize, name: &[u8]) -> (s: u64)
    requires
        name@.len() < 0x100_0000_0000_0000,
    ensures
        s == spec_bootstrap_seed(sla_index, mode, name@),
        s == BASE_SEED ^ (sla_index as u64) ^ ((mode as u64) << 12u64) ^ (byte_sum(name@) as u64),
{
    let mut sum: u64 = 0;
    let mut i: usize = 0;
    while i < name.len()
        invariant
            i <= name@.len(),
            name@.len() < 0x100_0000_0000_0000,
            sum == byte_sum(name@.take(i as int)),
        decreases name@.len() - i,
    {
        proof {
            lemma_byte_sum_bound(name@.take(i as int));
            assert(name@.take(i as int + 1).drop_last() =~= name@.take(i as int));
        }
        sum = sum + name[i] as u64;
        i = i + 1;
    }
    assert(name@.take(name@.len() as int) =~= name@);
    BASE_SEED ^ (sla_index as u64) ^ ((mode as u64) << 12u64) ^ sum
}

/// The skip mode only flips bit 12 of the bootstrap seed: mode 1 gives the
/// mode-0 seed XOR 4096, and in general mode `m` gives the mode-0 seed XOR
/// `m` shifted left by 12 bits.
pub proof fn lemma_bootstrap_seed_mode_bit(sla_index: usize, mode: usize, name: Seq<u8>)
    ensures
        spec_bootstrap_seed(sla_index, 1, name) == spec_bootstrap_seed(sla_index, 0, name) ^ 4096u64,
        spec_bootstrap_seed(sla_index, mode, name) == spec_bootstrap_seed(sla_index, 0, name) ^ (
        (mode as u64) << 12u64),
        spec_bootstrap_seed(sla_index, 0, name) == BASE_SEED ^ (sla_index as u64) ^ (byte_sum(
            name,
        ) as u64),
{
    let b = BASE_SEED;
    let s = sla_index as u64;
    let m = mode as u64;
    let n = byte_sum(name) as u64;
    assert(b ^ s ^ (1u64 << 12u64) ^ n == (b ^ s ^ (0u64 << 12u64) ^ n) ^ 4096u64) by (bit_vector);
    assert(b ^ s ^ (m << 12u64) ^ n == (b ^ s ^ (0u64 << 12u64) ^ n) ^ (m << 12u64)) by (bit_vector);
    assert(b ^ s ^ (0u64 << 12u64) ^ n == b ^ s ^ n) by (bit_vector);
}

/// Bootstrap seeds of two SLAs with the same mode and scenario differ by the
/// XOR of the SLA indices; the scenario enters only through its byte sum.
pub proof fn lemma_bootstrap_seed_sla_and_name(
    sla_a: usize,
    sla_b: usize,
    mode: usize,
    name_a: Seq<u8>,
    name_b: Seq<u8>,
)
    ensures
        spec_bootstrap_seed(sla_a, mode, name_a) ^ spec_bootstrap_seed(sla_b, mode, name_a) == (
        sla_a as u64) ^ (sla_b as u64),
        spec_bootstrap_seed(sla_a, mode, name_a) ^ spec_bootstrap_seed(sla_a, mode, name_b) == (
        byte_sum(name_a) as u64) ^ (byte_sum(name_b) as u64),
{
    let b = BASE_SEED;
    let s = sla_a as u64;
    let t = sla_b as u64;
    let m = (mode as u64) << 12u64;
    let n = byte_sum(name_a) as u64;
    let o = byte_sum(name_b) as u64;
    assert((b ^ s ^ m ^ n) ^ (b ^ t ^ m ^ n) == s ^ t) by (bit_vector);
    assert((b ^ s ^ m ^ n) ^ (b ^ s ^ m ^ o) == n ^ o) by (bit_vector);
}

} // verus!
