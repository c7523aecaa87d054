use pwgen_rs::sampler::weighted_pick;
use pwgen_rs::RandomSource;

#[test]
fn test_weighted_pick_empty_and_zero() {
    let mut rng = RandomSource::from_seed(42);
    let empty: Vec<u64> = vec![];
    assert_eq!(weighted_pick(&empty, &mut rng), None);
    let zeros: Vec<u64> = vec![0, 0, 0];
    assert_eq!(weighted_pick(&zeros, &mut rng), None);
}

#[test]
fn test_weighted_pick_single_choice() {
    let mut rng = RandomSource::from_seed(42);
    let weights: Vec<u64> = vec![0, 0, 7];
    for _ in 0..20 {
        assert_eq!(weighted_pick(&weights, &mut rng), Some(2));
    }
}

#[test]
fn test_weighted_pick_positive_weight_only() {
    let mut rng = RandomSource::from_seed(42);
    let weights: Vec<u64> = vec![0, 3, 0, 5, 0];
    for _ in 0..50 {
        let picked = weighted_pick(&weights, &mut rng).unwrap();
        assert!(picked == 1 || picked == 3);
    }
}

#[test]
fn test_weighted_pick_overflowing_sum() {
    let mut rng = RandomSource::from_seed(42);
    let weights: Vec<u64> = vec![u64::MAX, u64::MAX];
    assert_eq!(weighted_pick(&weights, &mut rng), None);
}
