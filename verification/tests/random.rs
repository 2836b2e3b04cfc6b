use rand::rngs::StdRng;
use rand::{Rng, SeedableRng};
use relict::fraction::Fraction;
use relict::random::{RandSource, RandomSource, ScriptedSource};

#[test]
fn scripted_source_needs_a_script() {
    assert!(ScriptedSource::new(vec![]).is_none());
    assert!(ScriptedSource::new(vec![1]).is_some());
}

#[test]
fn scripted_source_replays_and_wraps() {
    let mut source = ScriptedSource::new(vec![10, 20, 30]).unwrap();
    assert_eq!(source.next(), 10);
    assert_eq!(source.next(), 20);
    assert_eq!(source.next(), 30);
    assert_eq!(source.next(), 10);
}

#[test]
fn scripted_source_reduces_its_numbers() {
    let mut source = ScriptedSource::new(vec![0x1234, 13, 7]).unwrap();
    assert_eq!(source.byte(), 0x34);
    assert_eq!(source.below(8), 5);
    assert_eq!(source.below(8), 7);
}

#[test]
fn scripted_source_hands_out_a_wrapping_run() {
    let mut source = ScriptedSource::new(vec![8, 99]).unwrap();
    assert_eq!(source.distinct_indices(5, 4), vec![3, 4, 0, 1]);
    assert_eq!(source.next(), 99);
    assert_eq!(source.distinct_indices(0, 0), Vec::<usize>::new());
    assert_eq!(source.next(), 8);
    assert_eq!(source.distinct_indices(3, 0), Vec::<usize>::new());
    assert_eq!(source.next(), 8);
}

#[test]
fn scripted_source_geometric_follows_the_script() {
    let mut source = ScriptedSource::new(vec![4, 5, 6]).unwrap();
    assert_eq!(source.geometric(Fraction::new(1, 2).unwrap()), 4);
    assert_eq!(source.geometric(Fraction::one()), 0);
    assert_eq!(source.geometric(Fraction::new(1, 3).unwrap()), 6);
}

#[test]
fn rand_source_stays_below_the_bound() {
    let mut source = RandSource::new(StdRng::seed_from_u64(11));
    let mut seen = [false; 8];
    for _ in 0..1000 {
        let value = source.below(8);
        assert!(value < 8);
        seen[value as usize] = true;
    }
    assert_eq!(seen, [true; 8]);
    for _ in 0..100 {
        assert_eq!(source.below(1), 0);
    }
}

#[test]
fn rand_source_bytes_vary() {
    let mut source = RandSource::new(StdRng::seed_from_u64(12));
    let mut seen = [false; 256];
    for _ in 0..20_000 {
        seen[source.byte() as usize] = true;
    }
    assert!(seen.iter().all(|hit| *hit));
}

#[test]
fn rand_source_indices_are_distinct() {
    let mut source = RandSource::new(StdRng::seed_from_u64(13));
    for (length, amount) in [(0, 0), (1, 1), (10, 0), (10, 3), (10, 10), (1000, 200), (1000, 999)] {
        let indices = source.distinct_indices(length, amount);
        assert_eq!(indices.len(), amount);
        let mut sorted = indices.clone();
        sorted.sort();
        sorted.dedup();
        assert_eq!(sorted.len(), amount);
        assert!(indices.iter().all(|index| *index < length));
    }
}

#[test]
fn rand_source_geometric_is_zero_for_a_sure_success() {
    let mut source = RandSource::new(StdRng::seed_from_u64(14));
    for _ in 0..1000 {
        assert_eq!(source.geometric(Fraction::one()), 0);
        assert_eq!(source.geometric(Fraction::new(7, 7).unwrap()), 0);
    }
}

#[test]
fn rand_source_geometric_has_the_right_mean() {
    let mut source = RandSource::new(StdRng::seed_from_u64(15));
    let draws = 40_000u64;
    let mut total = 0u64;
    let mut zeros = 0u64;
    for _ in 0..draws {
        let failures = source.geometric(Fraction::new(1, 4).unwrap());
        total += failures;
        if failures == 0 {
            zeros += 1;
        }
    }
    let mean = total as f64 / draws as f64;
    assert!((mean - 3.0).abs() < 0.15, "mean {mean}");
    let share = zeros as f64 / draws as f64;
    assert!((share - 0.25).abs() < 0.02, "share {share}");
}

#[test]
fn rand_source_is_reproducible() {
    let mut first = RandSource::new(StdRng::seed_from_u64(16));
    let mut second = RandSource::new(StdRng::seed_from_u64(16));
    for _ in 0..100 {
        assert_eq!(first.byte(), second.byte());
        assert_eq!(first.below(100), second.below(100));
        assert_eq!(first.distinct_indices(20, 5), second.distinct_indices(20, 5));
        assert_eq!(
            first.geometric(Fraction::new(1, 3).unwrap()),
            second.geometric(Fraction::new(1, 3).unwrap())
        );
    }
}

#[test]
fn rand_source_draws_from_the_generator_given() {
    for seed in [0u64, 1, 17, u64::MAX] {
        let mut source = RandSource::new(StdRng::seed_from_u64(seed));
        let mut generator = StdRng::seed_from_u64(seed);
        for _ in 0..50 {
            assert_eq!(source.byte(), generator.gen::<u8>());
            assert_eq!(source.below(1000), generator.gen_range(0..1000u32));
        }
    }
}

#[test]
fn rand_source_geometric_counts_the_failed_trials() {
    for seed in 0..20u64 {
        let mut source = RandSource::new(StdRng::seed_from_u64(seed));
        let mut generator = StdRng::seed_from_u64(seed);
        for _ in 0..50 {
            let mut failed = 0u64;
            while !generator.gen_ratio(1, 5) {
                failed += 1;
            }
            assert_eq!(source.geometric(Fraction::new(1, 5).unwrap()), failed);
        }
    }
}
