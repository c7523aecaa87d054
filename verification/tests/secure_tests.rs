use pwgen_rs::cli::CharSet;
use pwgen_rs::secure::SecureGenerator;
use pwgen_rs::PasswordGenerator;
use pwgen_rs::RandomSource;

#[test]
fn test_secure_length() {
    let gen = SecureGenerator::new(16, &CharSet::Alphanumeric, false);
    let mut rng = RandomSource::from_seed(42);
    let password = gen.generate(&mut rng);
    assert_eq!(password.value.len(), 16);
}

#[test]
fn test_secure_alphanumeric_charset() {
    let gen = SecureGenerator::new(100, &CharSet::Alphanumeric, false);
    let mut rng = RandomSource::from_seed(42);
    let password = gen.generate(&mut rng);
    assert!(password.value.chars().all(|c| c.is_ascii_alphanumeric()));
}

#[test]
fn test_secure_alpha_only() {
    let gen = SecureGenerator::new(100, &CharSet::Alpha, false);
    let mut rng = RandomSource::from_seed(42);
    let password = gen.generate(&mut rng);
    assert!(password.value.chars().all(|c| c.is_ascii_alphabetic()));
}

#[test]
fn test_secure_no_ambiguous() {
    let gen = SecureGenerator::new(1000, &CharSet::Alphanumeric, true);
    let mut rng = RandomSource::from_seed(42);
    let password = gen.generate(&mut rng);
    let ambiguous = ['0', 'O', '1', 'l', 'I'];
    assert!(!password.value.chars().any(|c| ambiguous.contains(&c)));
}

#[test]
fn test_secure_entropy_alphanumeric() {
    let gen = SecureGenerator::new(16, &CharSet::Alphanumeric, false);
    let mut rng = RandomSource::from_seed(42);
    let password = gen.generate(&mut rng);
    // 62 characters: 16 * log2(62) is about 95.27 bits.
    let bits = password.entropy.millibits as f64 / 1000.0;
    assert!((bits - 95.27).abs() < 0.1);
}

#[test]
fn test_secure_with_symbols_has_special_chars() {
    let gen = SecureGenerator::new(100, &CharSet::AlphanumericSymbols, false);
    let mut rng = RandomSource::from_seed(42);
    let password = gen.generate(&mut rng);
    assert!(password.value.chars().any(|c| !c.is_ascii_alphanumeric()));
}

#[test]
fn test_secure_charset_sizes() {
    assert_eq!(SecureGenerator::new(8, &CharSet::Alpha, false).charset.len(), 52);
    assert_eq!(SecureGenerator::new(8, &CharSet::Alphanumeric, false).charset.len(), 62);
    assert_eq!(SecureGenerator::new(8, &CharSet::AlphanumericSymbols, false).charset.len(), 88);
    assert_eq!(SecureGenerator::new(8, &CharSet::All, false).charset.len(), 95);
    assert_eq!(SecureGenerator::new(8, &CharSet::Alphanumeric, true).charset.len(), 57);
    assert_eq!(SecureGenerator::new(8, &CharSet::All, true).charset.len(), 90);
}

#[test]
fn test_secure_all_printable() {
    let gen = SecureGenerator::new(200, &CharSet::All, false);
    let mut rng = RandomSource::from_seed(42);
    let password = gen.generate(&mut rng);
    assert!(password.value.chars().all(|c| (' '..='~').contains(&c)));
}

#[test]
fn test_secure_deterministic_with_seed() {
    let gen = SecureGenerator::new(24, &CharSet::All, false);
    let mut rng1 = RandomSource::from_seed(12345);
    let mut rng2 = RandomSource::from_seed(12345);
    let p1 = gen.generate(&mut rng1);
    let p2 = gen.generate(&mut rng2);
    assert_eq!(p1.value, p2.value);
    assert_eq!(p1.entropy.millibits, p2.entropy.millibits);
}

#[test]
fn test_secure_description_and_source() {
    let gen = SecureGenerator::new(16, &CharSet::Alphanumeric, false);
    let mut rng = RandomSource::from_seed(42);
    let password = gen.generate(&mut rng);
    assert_eq!(gen.description(), "Secure random");
    assert_eq!(password.entropy.source, "Random");
    assert!(password.entropy.millibits > 0);
}
