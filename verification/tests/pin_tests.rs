use pwgen_rs::pin::PinGenerator;
use pwgen_rs::PasswordGenerator;
use pwgen_rs::RandomSource;

#[test]
fn test_pin_length() {
    let gen = PinGenerator::new(6);
    let mut rng = RandomSource::from_seed(42);
    let password = gen.generate(&mut rng);
    assert_eq!(password.value.len(), 6);
}

#[test]
fn test_pin_only_digits() {
    let gen = PinGenerator::new(10);
    let mut rng = RandomSource::from_seed(42);
    let password = gen.generate(&mut rng);
    assert!(password.value.chars().all(|c| c.is_ascii_digit()));
}

#[test]
fn test_pin_entropy() {
    let gen = PinGenerator::new(6);
    let mut rng = RandomSource::from_seed(42);
    let password = gen.generate(&mut rng);
    // 6 digits at log2(10) bits each is about 19.93 bits.
    let bits = password.entropy.millibits as f64 / 1000.0;
    assert!((bits - 19.93).abs() < 0.1);
}

#[test]
fn test_pin_deterministic_with_seed() {
    let gen = PinGenerator::new(6);
    let mut rng1 = RandomSource::from_seed(12345);
    let mut rng2 = RandomSource::from_seed(12345);
    let p1 = gen.generate(&mut rng1);
    let p2 = gen.generate(&mut rng2);
    assert_eq!(p1.value, p2.value);
}

#[test]
fn test_pin_zero_length() {
    let gen = PinGenerator::new(0);
    let mut rng = RandomSource::from_seed(42);
    let password = gen.generate(&mut rng);
    assert_eq!(password.value, "");
    assert_eq!(password.entropy.millibits, 0);
}

#[test]
fn test_pin_description() {
    let gen = PinGenerator::new(6);
    assert_eq!(gen.description(), "Numeric PIN");
}
