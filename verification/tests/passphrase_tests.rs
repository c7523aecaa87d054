use pwgen_rs::passphrase::PassphraseGenerator;
use pwgen_rs::PasswordGenerator;
use pwgen_rs::RandomSource;

fn word_corpus() -> Vec<char> {
    let text = "11111\tabacus\n11112\tabdomen\n11113\tabide\n11114\tabiding\n\
                11115\tability\n11116\table\n11121\tabnormal\n11122\tabrasion\n\
                11123\tabrasive\n11124\tabreast\n11125\tabridge\n11126\tabroad\n\
                11131\tabruptly\n11132\tabsence\n11133\tabsentee\n11134\tabsently\n\
                11135\tabsinthe\n11136\tabsolute\n11141\tabsolve\n11142\tabstain\n";
    text.chars().collect()
}

#[test]
fn test_passphrase_word_count() {
    let corpus = word_corpus();
    let gen = PassphraseGenerator::new(&corpus, 6, "-".to_string(), false, false);
    let mut rng = RandomSource::from_seed(42);
    let password = gen.generate(&mut rng);
    assert_eq!(password.value.split('-').count(), 6);
}

#[test]
fn test_passphrase_custom_separator() {
    let corpus = word_corpus();
    let gen = PassphraseGenerator::new(&corpus, 4, ".".to_string(), false, false);
    let mut rng = RandomSource::from_seed(42);
    let password = gen.generate(&mut rng);
    assert_eq!(password.value.split('.').count(), 4);
}

#[test]
fn test_passphrase_no_separator() {
    let corpus = word_corpus();
    let gen = PassphraseGenerator::new(&corpus, 3, "".to_string(), false, false);
    let mut rng = RandomSource::from_seed(42);
    let password = gen.generate(&mut rng);
    assert!(password.value.chars().all(|c| c.is_ascii_lowercase()));
}

#[test]
fn test_passphrase_capitalize() {
    let corpus = word_corpus();
    let gen = PassphraseGenerator::new(&corpus, 4, "-".to_string(), true, false);
    let mut rng = RandomSource::from_seed(42);
    let password = gen.generate(&mut rng);
    for word in password.value.split('-') {
        let first = word.chars().next().unwrap();
        assert!(first.is_ascii_uppercase());
    }
}

#[test]
fn test_passphrase_entropy_no_mutate() {
    let corpus = word_corpus();
    let gen = PassphraseGenerator::new(&corpus, 6, "-".to_string(), false, false);
    let mut rng = RandomSource::from_seed(42);
    let password = gen.generate(&mut rng);
    // 6 words at 12.925 bits each is 77.55 bits.
    let bits = password.entropy.millibits as f64 / 1000.0;
    assert!((bits - 77.55).abs() < 0.1);
}

#[test]
fn test_passphrase_entropy_with_mutate() {
    let corpus = word_corpus();
    let gen = PassphraseGenerator::new(&corpus, 6, "-".to_string(), false, true);
    let mut rng = RandomSource::from_seed(42);
    let password = gen.generate(&mut rng);
    // 6 words at 12.925 + 2.0 bits each is 89.55 bits.
    let bits = password.entropy.millibits as f64 / 1000.0;
    assert!((bits - 89.55).abs() < 0.1);
}

#[test]
fn test_passphrase_words_from_eff_list() {
    let corpus = word_corpus();
    let gen = PassphraseGenerator::new(&corpus, 10, "-".to_string(), false, false);
    let mut rng = RandomSource::from_seed(42);
    let password = gen.generate(&mut rng);
    for word in password.value.split('-') {
        assert!(word.chars().all(|c| c.is_ascii_lowercase()));
        assert!(!word.is_empty());
    }
}

#[test]
fn test_passphrase_mutation_changes_words() {
    let corpus = word_corpus();
    let gen = PassphraseGenerator::new(&corpus, 6, "-".to_string(), false, true);
    let mut rng = RandomSource::from_seed(42);
    let password = gen.generate(&mut rng);
    let has_mutation = password.value.chars().any(|c| c.is_ascii_digit());
    assert!(has_mutation || password.value.len() > 0);
}

#[test]
fn test_leetify() {
    assert_eq!(PassphraseGenerator::leetify('a'), '4');
    assert_eq!(PassphraseGenerator::leetify('e'), '3');
    assert_eq!(PassphraseGenerator::leetify('i'), '1');
    assert_eq!(PassphraseGenerator::leetify('o'), '0');
    assert_eq!(PassphraseGenerator::leetify('s'), '5');
    assert_eq!(PassphraseGenerator::leetify('t'), '7');
    assert_eq!(PassphraseGenerator::leetify('z'), 'z');
}

#[test]
fn test_leetify_uppercase_and_more() {
    assert_eq!(PassphraseGenerator::leetify('A'), '4');
    assert_eq!(PassphraseGenerator::leetify('B'), '8');
    assert_eq!(PassphraseGenerator::leetify('g'), '9');
    assert_eq!(PassphraseGenerator::leetify('4'), '4');
}

#[test]
fn test_capitalize_word() {
    assert_eq!(PassphraseGenerator::capitalize_word("abacus"), "Abacus");
    assert_eq!(PassphraseGenerator::capitalize_word(""), "");
    assert_eq!(PassphraseGenerator::capitalize_word("Zebra"), "Zebra");
    assert_eq!(PassphraseGenerator::capitalize_word("9lives"), "9lives");
}

#[test]
fn test_passphrase_deterministic_with_seed() {
    let corpus = word_corpus();
    let gen = PassphraseGenerator::new(&corpus, 5, "-".to_string(), true, true);
    let mut rng1 = RandomSource::from_seed(12345);
    let mut rng2 = RandomSource::from_seed(12345);
    let p1 = gen.generate(&mut rng1);
    let p2 = gen.generate(&mut rng2);
    assert_eq!(p1.value, p2.value);
    assert_eq!(p1.entropy.millibits, p2.entropy.millibits);
}

#[test]
fn test_passphrase_descriptions() {
    let corpus = word_corpus();
    let plain = PassphraseGenerator::new(&corpus, 6, "-".to_string(), false, false);
    let mutated = PassphraseGenerator::new(&corpus, 6, "-".to_string(), false, true);
    assert_eq!(plain.description(), "EFF Diceware passphrase");
    assert_eq!(mutated.description(), "EFF Diceware passphrase (mutated)");
}

#[test]
fn test_passphrase_entropy_positive() {
    let corpus = word_corpus();
    let gen = PassphraseGenerator::new(&corpus, 1, "-".to_string(), false, false);
    let mut rng = RandomSource::from_seed(42);
    let password = gen.generate(&mut rng);
    assert!(password.entropy.millibits > 0);
    assert_eq!(password.entropy.source, "Diceware");
}
