use skateboard_slope::random::{next, Random, MODULUS};

#[test]
fn lcg_steps_from_entropy() {
    let mut rng = Random::from_entropy(5);
    assert_eq!(rng.next(), 1222621274);
    assert_eq!(rng.next(), 554244747);
    assert_eq!(next(&mut rng), 695785320);
}

#[test]
fn entropy_is_reduced_modulo_two_to_the_31() {
    let mut a = Random::from_entropy(5 + MODULUS);
    let mut b = Random::from_entropy(5);
    assert_eq!(a.next(), b.next());
}

#[test]
fn seeded_from_native_bytes() {
    let bytes = 1u64.to_ne_bytes();
    let mut rng = Random::new(bytes);
    assert_eq!(rng.next(), 1103527590);
}

#[test]
fn values_stay_below_modulus() {
    let mut rng = Random::from_entropy(u64::MAX);
    assert_eq!(rng.modulus(), 2147483648);
    for _ in 0..1000 {
        assert!(rng.next() < MODULUS);
    }
}

#[test]
fn same_seed_same_sequence() {
    let mut a = Random::from_entropy(42);
    let mut b = Random::from_entropy(42);
    for _ in 0..100 {
        assert_eq!(a.next(), next(&mut b));
    }
}

#[test]
fn no_early_return_to_the_seed() {
    let mut rng = Random::from_entropy(0);
    for _ in 0..1_000_000 {
        assert_ne!(rng.next(), 0);
    }
}
