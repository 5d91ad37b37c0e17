use noip_ioi_capacity::backlog::peak_backlog;
use noip_ioi_capacity::bootstrap::bootstrap_indices;
use noip_ioi_capacity::population::stratum_of;
use noip_ioi_capacity::rng::{SplitMix64, GOLDEN_GAMMA};
use noip_ioi_capacity::schedule::claim_replication;
use noip_ioi_capacity::seeds::{bootstrap_seed, replication_seed, ScenarioKind, BASE_SEED};
use noip_ioi_capacity::submissions::{capped_submission_count, SUBMISSION_CAP};

const POPULATIONS: [usize; 5] = [2472, 1768, 1761, 1196, 349];

#[test]
fn splitmix_reference_stream_from_seed_zero() {
    let mut g = SplitMix64::new(0);
    assert_eq!(g.next_u64(), 0xE220_A839_7B1D_CDAF);
    assert_eq!(g.next_u64(), 7960286522194355700);
    assert_eq!(g.next_u64(), 487617019471545679);
}

#[test]
fn splitmix_reference_stream_from_other_seed() {
    let mut g = SplitMix64::new(1234567);
    assert_eq!(g.next_u64(), 6457827717110365317);
    assert_eq!(g.next_u64(), 3203168211198807973);
    assert_eq!(g.next_u64(), 9817491932198370423);
}

#[test]
fn state_after_draws_is_seed_plus_multiple_of_gamma() {
    let seed: u64 = 987654321;
    let mut a = SplitMix64::new(seed);
    for _ in 0..3 {
        a.next_u64();
    }
    let mut b = SplitMix64::new(seed.wrapping_add(GOLDEN_GAMMA.wrapping_mul(3)));
    for _ in 0..5 {
        assert_eq!(a.next_u64(), b.next_u64());
    }
}

#[test]
fn same_seed_gives_same_stream() {
    let mut a = SplitMix64::new(BASE_SEED);
    let mut b = SplitMix64::new(BASE_SEED);
    for _ in 0..100 {
        assert_eq!(a.next_u64(), b.next_u64());
    }
}

#[test]
fn bits53_keeps_top_bits_of_a_draw() {
    let mut g = SplitMix64::new(7);
    assert_eq!(g.next_bits53(), 3511274219185729);
    assert_eq!(g.next_bits53(), 151215513962380);
    let mut h = SplitMix64::new(u64::MAX);
    for _ in 0..1000 {
        assert!(h.next_bits53() < (1u64 << 53));
    }
}

#[test]
fn scenario_tags_and_names() {
    assert_eq!(ScenarioKind::Low.tag(), 1);
    assert_eq!(ScenarioKind::Central.tag(), 2);
    assert_eq!(ScenarioKind::High.tag(), 3);
    assert_eq!(ScenarioKind::Low.name(), "low_noip_N7546");
    assert_eq!(ScenarioKind::Central.name(), "central_noip_N7546");
    assert_eq!(ScenarioKind::High.name(), "high_noip_N7546");
}

#[test]
fn replication_seed_values() {
    assert_eq!(replication_seed(0, ScenarioKind::Low), 20260712);
    assert_eq!(replication_seed(1, ScenarioKind::Low), 15074714826162292989);
    assert_eq!(replication_seed(999_999, ScenarioKind::Low), 2047647706793212099);
    assert_eq!(replication_seed(5, ScenarioKind::High), 1586597835891772035);
}

#[test]
fn replication_seeds_are_distinct() {
    let mut seeds: Vec<u64> = (0..2000).map(|r| replication_seed(r, ScenarioKind::Central)).collect();
    seeds.sort();
    seeds.dedup();
    assert_eq!(seeds.len(), 2000);
}

#[test]
fn bootstrap_seed_values() {
    let low = ScenarioKind::Low.name().as_bytes();
    assert_eq!(bootstrap_seed(0, 0, low), 20259715);
    assert_eq!(bootstrap_seed(2, 1, low), 20263809);
    let central = ScenarioKind::Central.name().as_bytes();
    assert_eq!(bootstrap_seed(1, 0, central), 20259305);
    let high = ScenarioKind::High.name().as_bytes();
    assert_eq!(bootstrap_seed(2, 1, high), 20263507);
    assert_eq!(bootstrap_seed(0, 0, &[]), BASE_SEED);
}

#[test]
fn stratum_boundaries() {
    assert_eq!(stratum_of(0, &POPULATIONS), 0);
    assert_eq!(stratum_of(2471, &POPULATIONS), 0);
    assert_eq!(stratum_of(2472, &POPULATIONS), 1);
    assert_eq!(stratum_of(4239, &POPULATIONS), 1);
    assert_eq!(stratum_of(4240, &POPULATIONS), 2);
    assert_eq!(stratum_of(6000, &POPULATIONS), 2);
    assert_eq!(stratum_of(6001, &POPULATIONS), 3);
    assert_eq!(stratum_of(7196, &POPULATIONS), 3);
    assert_eq!(stratum_of(7197, &POPULATIONS), 4);
    assert_eq!(stratum_of(7545, &POPULATIONS), 4);
}

#[test]
fn stratum_past_all_contestants_is_last() {
    assert_eq!(stratum_of(7546, &POPULATIONS), 4);
    assert_eq!(stratum_of(usize::MAX, &POPULATIONS), 4);
}

#[test]
fn stratum_skips_empty_strata() {
    let pops = [0usize, 3, 0, 2];
    assert_eq!(stratum_of(0, &pops), 1);
    assert_eq!(stratum_of(2, &pops), 1);
    assert_eq!(stratum_of(3, &pops), 3);
    assert_eq!(stratum_of(4, &pops), 3);
    assert_eq!(stratum_of(9, &pops), 3);
}

#[test]
fn strata_are_monotone_and_sized_by_population() {
    let mut counts = [0usize; 5];
    let mut last = 0;
    for person in 0..7546 {
        let z = stratum_of(person, &POPULATIONS);
        assert!(z >= last);
        last = z;
        counts[z] += 1;
    }
    assert_eq!(counts, POPULATIONS);
}

#[test]
fn submission_count_is_capped_at_fifty() {
    assert_eq!(SUBMISSION_CAP, 50);
    assert_eq!(capped_submission_count(0), (1, false));
    assert_eq!(capped_submission_count(48), (49, false));
    assert_eq!(capped_submission_count(49), (50, true));
    assert_eq!(capped_submission_count(1000), (50, true));
    assert_eq!(capped_submission_count(usize::MAX - 1), (50, true));
}

#[test]
fn claims_hand_out_each_replication_once() {
    let mut next = 0usize;
    for expected in 0..4 {
        assert_eq!(claim_replication(&mut next, 4), Some(expected));
    }
    assert_eq!(claim_replication(&mut next, 4), None);
    assert_eq!(claim_replication(&mut next, 4), None);
    assert_eq!(next, 4);
}

#[test]
fn claims_with_nothing_to_do() {
    let mut next = 0usize;
    assert_eq!(claim_replication(&mut next, 0), None);
    assert_eq!(next, 0);
}

#[test]
fn bootstrap_indices_follow_the_stream() {
    let mut g = SplitMix64::new(42);
    let v = bootstrap_indices(&mut g, 5, 240);
    assert_eq!(v, vec![133, 211, 18, 84, 130]);
    let mut h = SplitMix64::new(42);
    for _ in 0..5 {
        h.next_u64();
    }
    assert_eq!(g.next_u64(), h.next_u64());
}

#[test]
fn bootstrap_indices_stay_below_modulus() {
    let mut g = SplitMix64::new(BASE_SEED);
    let v = bootstrap_indices(&mut g, 1000, 7);
    assert_eq!(v.len(), 1000);
    assert!(v.iter().all(|&i| i < 7));
    let w = bootstrap_indices(&mut g, 0, 7);
    assert!(w.is_empty());
}

#[test]
fn backlog_of_no_jobs_is_zero() {
    assert_eq!(peak_backlog(&[], &[]), 0);
}

#[test]
fn backlog_counts_jobs_not_yet_finished() {
    // Two jobs arrive together; the third arrives when both have finished.
    assert_eq!(peak_backlog(&[0, 0, 10], &[5, 10, 20]), 2);
    // Everything arrives before anything finishes.
    assert_eq!(peak_backlog(&[0, 1, 2, 3], &[100, 200, 300, 400]), 4);
    // Every job is done before the next one arrives.
    assert_eq!(peak_backlog(&[0, 10, 20, 30], &[5, 15, 25, 35]), 1);
}

#[test]
fn backlog_finish_at_arrival_leaves_the_queue() {
    assert_eq!(peak_backlog(&[0, 4], &[4, 8]), 1);
    assert_eq!(peak_backlog(&[0, 3], &[4, 8]), 2);
}

#[test]
fn backlog_only_drops_from_the_front() {
    // The second job finishes first but waits behind the first one.
    assert_eq!(peak_backlog(&[0, 1, 6], &[10, 5, 12]), 3);
}
