use evopop::fraction::Fraction;
use evopop::prob::{is_probable, probabilistic_round, probabilistic_round_wide};
use evopop::random::RandomSource;

#[test]
fn fraction_accessors_and_complement() {
    let f = Fraction::new(1, 4);
    assert_eq!((f.num(), f.den()), (1, 4));
    let c = f.complement();
    assert_eq!((c.num(), c.den()), (3, 4));
    assert!(f.le(&c));
    assert!(!c.le(&f));
    assert!(Fraction::new(1, 2).le(&Fraction::new(2, 4)));
}

#[test]
fn wide_round_is_floor_or_ceiling() {
    for seed in 0..100u64 {
        let mut rng = RandomSource::from_seed(seed);
        let big = 1_000_000_000_000_000_000_000u128;
        let r = probabilistic_round_wide(big * 3 + 1, big, &mut rng);
        assert!(r == 3 || r == 4);
        assert_eq!(probabilistic_round_wide(big * 5, big, &mut rng), 5);
    }
}

#[test]
fn round_is_floor_or_ceiling() {
    for seed in 0..200u64 {
        let mut rng = RandomSource::from_seed(seed);
        let r = probabilistic_round(7, 2, &mut rng);
        assert!(r == 3 || r == 4);
        let r = probabilistic_round(1, 3, &mut rng);
        assert!(r == 0 || r == 1);
    }
}

#[test]
fn round_exact_on_integers() {
    for seed in 0..50u64 {
        let mut rng = RandomSource::from_seed(seed);
        assert_eq!(probabilistic_round(10, 2, &mut rng), 5);
        assert_eq!(probabilistic_round(0, 7, &mut rng), 0);
        assert_eq!(probabilistic_round(9, 1, &mut rng), 9);
    }
}

#[test]
fn round_mean_converges_to_value() {
    // rounding 5/2 = 2.5 many times: the average approaches 2.5
    let mut rng = RandomSource::from_seed(12345);
    let n = 20000u64;
    let mut sum = 0u64;
    for _ in 0..n {
        sum += probabilistic_round(5, 2, &mut rng);
    }
    let mean_x100 = sum * 100 / n;
    assert!((240..=260).contains(&mean_x100), "mean was {mean_x100} / 100");
}

#[test]
fn is_probable_certain_and_impossible() {
    let mut rng = RandomSource::from_seed(5);
    for _ in 0..100 {
        assert!(is_probable(1, 1, &mut rng));
        assert!(is_probable(5, 4, &mut rng));
        assert!(!is_probable(0, 7, &mut rng));
    }
}

#[test]
fn is_probable_half_is_sometimes_each() {
    let mut rng = RandomSource::from_seed(77);
    let mut yes = 0u32;
    let mut no = 0u32;
    for _ in 0..1000 {
        if is_probable(1, 2, &mut rng) {
            yes += 1;
        } else {
            no += 1;
        }
    }
    assert!(yes > 300 && no > 300, "yes {yes} no {no}");
}

#[test]
fn random_source_below_stays_in_range() {
    let mut rng = RandomSource::from_seed(1);
    for bound in 1..50u64 {
        let v = rng.below_u64(bound);
        assert!(v < bound);
    }
    for bound in 1..50usize {
        let v = rng.below_usize(bound);
        assert!(v < bound);
    }
    for bound in 1..50u128 {
        let v = rng.below_u128(bound * 1_000_000_007);
        assert!(v < bound * 1_000_000_007);
    }
}
