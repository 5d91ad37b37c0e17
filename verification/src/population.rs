use vstd::prelude::*;

verus! {

/// The number of contestants in the strata before stratum `k`.
pub open spec fn prefix_sum(populations: Seq<usize>, k: int) -> int
    decreases k,
{
    if k <= 0 {
        0
    } else {
        prefix_sum(populations, k - 1) + populations[k - 1]
    }
}

/// The stratum of `person`, searching from stratum `z` on: the first
/// stratum whose cumulative population exceeds the person's index, and the
/// last stratum where none does.
pub open spec fn stratum_from(person: int, populations: Seq<usize>, z: int) -> int
    decreases populations.len() - z,
{
    if z >= populations.len() - 1 {
        populations.len() - 1
    } else if person < prefix_sum(populations, z + 1) {
        z
    } else {
        stratum_from(person, populations, z + 1)
    }
}

/// The stratum of contestant number `person` when contestants are numbered
/// stratum by stratum.
pub open spec fn spec_stratum(person: int, populations: Seq<usize>) -> int {
    stratum_from(person, populations, 0)
}

/// Cumulative populations never decrease.
pub proof fn lemma_prefix_sum_monotone(populations: Seq<usize>, i: int, j: int)
    requires
        0 <= i <= j <= populations.len(),
    ensures
        prefix_sum(populations, i) <= prefix_sum(populations, j),
    decreases j - i,
{
    if i < j {
        lemma_prefix_sum_monotone(populations, i, j - 1);
    }
}

/// The stratum found from `z` on lies between `z` and the last stratum, and
/// the person's index falls in its range unless the index is past all strata.
proof fn lemma_stratum_from_range(person: int, populations: Seq<usize>, z: int)
    requires
        0 <= z < populations.len(),
        prefix_sum(populations, z) <= person,
    ensures
        z <= stratum_from(person, populations, z) < populations.len(),
        person < prefix_sum(populations, populations.len() as int) ==> {
            let s = stratum_from(person, populations, z);
            prefix_sum(populations, s) <= person < prefix_sum(populations, s + 1)
        },
    decreases populations.len() - z,
{
    if z < populations.len() - 1 && person >= prefix_sum(populations, z + 1) {
        lemma_stratum_from_range(person, populations, z + 1);
    }
}

/// The stratum of contestant `person` (numbered from 0): the first stratum
/// whose cumulative population exceeds `person`, or the last stratum when
/// `person` is past them all.
pub fn stratum_of(person: usize, populations: &[usize]) -> (z: usize)
    requires
        populations@.len() >= 1,
        prefix_sum(populations@, populations@.len() as int) <= usize::MAX,
    ensures
        z == spec_stratum(person as int, populations@),
        z < populations@.len(),
        person < prefix_sum(populations@, populations@.len() as int) ==> prefix_sum(
            populations@,
            z as int,
        ) <= person < prefix_sum(populations@, z + 1),
        person >= prefix_sum(populations@, populations@.len() as int) ==> z == populations@.len()
            - 1,
{
    let n = populations.len();
    let mut cumulative: usize = 0;
    let mut z: usize = 0;
    proof {
        lemma_stratum_from_range(person as int, populations@, 0);
    }
    while z < n
        invariant
            n == populations@.len(),
            n >= 1,
            z <= n,
            prefix_sum(populations@, n as int) <= usize::MAX,
            cumulative == prefix_sum(populations@, z as int),
            person >= cumulative,
            z < n ==> spec_stratum(person as int, populations@) == stratum_from(
                person as int,
                populations@,
                z as int,
            ),
            0 <= spec_stratum(person as int, populations@) < n,
            person < prefix_sum(populations@, n as int) ==> {
                let s = spec_stratum(person as int, populations@);
                prefix_sum(populations@, s) <= person < prefix_sum(populations@, s + 1)
            },
        decreases n - z,
    {
        proof {
            lemma_prefix_sum_monotone(populations@, z as int + 1, n as int);
        }
        cumulative = cumulative + populations[z];
        if person < cumulative {
            return z;
        }
        z = z + 1;
    }
    proof {
        lemma_stratum_last(person as int, populations@, 0);
    }
    n - 1
}

/// Contestants with larger indices never fall in an earlier stratum.
pub proof fn lemma_stratum_monotone(p: int, q: int, populations: Seq<usize>)
    requires
        0 <= p <= q,
        populations.len() >= 1,
    ensures
        spec_stratum(p, populations) <= spec_stratum(q, populations),
{
    let n = populations.len() as int;
    lemma_stratum_from_range(p, populations, 0);
    lemma_stratum_from_range(q, populations, 0);
    let a = spec_stratum(p, populations);
    let b = spec_stratum(q, populations);
    if q < prefix_sum(populations, n) && a > b {
        lemma_prefix_sum_monotone(populations, b + 1, a);
    }
    if q >= prefix_sum(populations, n) {
        assert(b == n - 1) by {
            lemma_stratum_last(q, populations, 0);
        }
    }
}

/// Past all strata, the search ends at the last stratum.
proof fn lemma_stratum_last(person: int, populations: Seq<usize>, z: int)
    requires
        0 <= z < populations.len(),
        person >= prefix_sum(populations, populations.len() as int),
    ensures
        stratum_from(person, populations, z) == populations.len() - 1,
    decreases populations.len() - z,
{
    if z < populations.len() - 1 {
        lemma_prefix_sum_monotone(populations, z + 1, populations.len() as int);
        lemma_stratum_last(person, populations, z + 1);
    }
}

} // verus!
