use pwgen_rs::markov::MarkovGenerator;
use pwgen_rs::PasswordGenerator;
use pwgen_rs::RandomSource;

fn training_corpus() -> Vec<char> {
    let text = "1\tbanana\n2\tchocolate\n3\tterminal\n4\tparadise\n5\tmelody\n\
                6\tharmony\n7\tcaravan\n8\tlagoon\n9\tvelvet\n10\tmirror\n\
                11\tcanopy\n12\tsaturn\n13\tmodular\n14\tbalance\n15\tsalamander\n\
                16\tvolcano\n17\tmarina\n18\tcolonel\n19\tpelican\n20\ttornado\n";
    text.chars().collect()
}

#[test]
fn test_markov_length() {
    let corpus = training_corpus();
    let gen = MarkovGenerator::new(&corpus, 12, false, false, false);
    let mut rng = RandomSource::from_seed(42);
    let password = gen.generate(&mut rng);
    assert_eq!(password.value.len(), 12);
}

#[test]
fn test_markov_capitalize() {
    let corpus = training_corpus();
    let gen = MarkovGenerator::new(&corpus, 12, false, false, true);
    let mut rng = RandomSource::from_seed(42);
    let password = gen.generate(&mut rng);
    let first = password.value.chars().next().unwrap();
    assert!(first.is_ascii_uppercase());
}

#[test]
fn test_markov_with_digits() {
    let corpus = training_corpus();
    let gen = MarkovGenerator::new(&corpus, 12, true, false, false);
    let mut rng = RandomSource::from_seed(42);
    let password = gen.generate(&mut rng);
    assert!(password.value.chars().any(|c| c.is_ascii_digit()));
}

#[test]
fn test_markov_with_symbols() {
    let corpus = training_corpus();
    let gen = MarkovGenerator::new(&corpus, 12, false, true, false);
    let mut rng = RandomSource::from_seed(42);
    let password = gen.generate(&mut rng);
    let symbols = ['!', '@', '#', '$', '%', '&', '*', '-', '_', '+'];
    assert!(password.value.chars().any(|c| symbols.contains(&c)));
}

#[test]
fn test_markov_pronounceable() {
    let corpus = training_corpus();
    let gen = MarkovGenerator::new(&corpus, 12, false, false, false);
    let mut rng = RandomSource::from_seed(42);
    for _ in 0..10 {
        let password = gen.generate(&mut rng);
        assert!(MarkovGenerator::is_pronounceable(&password.value));
    }
}

#[test]
fn test_is_pronounceable_rejects_too_many_consonants() {
    assert!(!MarkovGenerator::is_pronounceable("abcdstrng"));
    assert!(!MarkovGenerator::is_pronounceable("xyzwvuts"));
}

#[test]
fn test_is_pronounceable_accepts_valid() {
    assert!(MarkovGenerator::is_pronounceable("hello"));
    assert!(MarkovGenerator::is_pronounceable("password"));
    assert!(MarkovGenerator::is_pronounceable("banana"));
}

#[test]
fn test_markov_entropy_positive() {
    let corpus = training_corpus();
    let gen = MarkovGenerator::new(&corpus, 12, false, false, false);
    let mut rng = RandomSource::from_seed(42);
    let password = gen.generate(&mut rng);
    let bits = password.entropy.millibits as f64 / 1000.0;
    assert!(bits > 0.0);
}

#[test]
fn test_is_pronounceable_edges() {
    assert!(MarkovGenerator::is_pronounceable(""));
    assert!(MarkovGenerator::is_pronounceable("1234!@"));
    assert!(MarkovGenerator::is_pronounceable("aaa"));
    assert!(!MarkovGenerator::is_pronounceable("aaaa"));
    assert!(!MarkovGenerator::is_pronounceable("bAnAAAAna"));
    // A non-letter breaks a run.
    assert!(MarkovGenerator::is_pronounceable("bcd1fgh"));
    assert!(!MarkovGenerator::is_pronounceable("bcd1fghj"));
}

#[test]
fn test_markov_length_edges() {
    let corpus = training_corpus();
    let mut rng = RandomSource::from_seed(7);
    for len in [1usize, 2, 200] {
        let gen = MarkovGenerator::new(&corpus, len, false, false, false);
        let password = gen.generate(&mut rng);
        assert_eq!(password.value.len(), len);
    }
}

#[test]
fn test_single_word_model_counts() {
    // One qualifying word: "banana" yields start context (b, a) with
    // weight 1, and trigram transitions ba->n, an->a (twice), na->n.
    let corpus: Vec<char> = "1\tbanana\n".chars().collect();
    let gen = MarkovGenerator::new(&corpus, 6, false, false, false);
    assert_eq!(gen.model.start_weight('b', 'a'), 1);
    assert_eq!(gen.model.start_weight('a', 'n'), 0);
    assert_eq!(gen.model.transition_weight('b', 'a', 'n'), 1);
    assert_eq!(gen.model.transition_weight('a', 'n', 'a'), 2);
    assert_eq!(gen.model.transition_weight('n', 'a', 'n'), 1);
    assert_eq!(gen.model.transition_weight('n', 'a', 'b'), 0);
    assert_eq!(gen.model.context_count(), 3);
}

#[test]
fn test_single_word_model_reproduces_word() {
    // With only "banana" trained, every walk of length 6 is forced.
    let corpus: Vec<char> = "1\tbanana\n".chars().collect();
    let gen = MarkovGenerator::new(&corpus, 6, false, false, false);
    let mut rng = RandomSource::from_seed(42);
    let password = gen.generate(&mut rng);
    assert_eq!(password.value, "banana");
    assert_eq!(password.entropy.source, "Markov pronounceable");
}

#[test]
fn test_empty_corpus_uses_fallback() {
    // An empty corpus means every request is served by the syllable
    // fallback, still at the requested length.
    let corpus: Vec<char> = Vec::new();
    let mut rng = RandomSource::from_seed(42);
    for len in [1usize, 2, 9, 31] {
        let gen = MarkovGenerator::new(&corpus, len, false, false, false);
        let password = gen.generate(&mut rng);
        assert_eq!(password.value.len(), len);
        assert_eq!(password.entropy.source, "Syllable fallback");
    }
}

#[test]
fn test_markov_deterministic_with_seed() {
    let corpus = training_corpus();
    let gen = MarkovGenerator::new(&corpus, 14, true, true, true);
    let mut rng1 = RandomSource::from_seed(12345);
    let mut rng2 = RandomSource::from_seed(12345);
    let p1 = gen.generate(&mut rng1);
    let p2 = gen.generate(&mut rng2);
    assert_eq!(p1.value, p2.value);
    assert_eq!(p1.entropy.millibits, p2.entropy.millibits);
    assert_eq!(p1.entropy.source, p2.entropy.source);
}

#[test]
fn test_markov_description() {
    let corpus = training_corpus();
    let gen = MarkovGenerator::new(&corpus, 12, false, false, false);
    assert_eq!(gen.description(), "Pronounceable (Markov chain)");
}

#[test]
fn test_corpus_words_filtering() {
    // Only two-field lines qualify, words are folded to lowercase
    // letters, and short remainders are dropped.
    let corpus: Vec<char> = "1\tBanana!\nbad line\n2\tox\n3\tA-B-C-D\n".chars().collect();
    let words = pwgen_rs::corpus::corpus_words(&corpus);
    let collected: Vec<String> = words.iter().map(|w| w.iter().collect()).collect();
    assert_eq!(collected, vec!["banana".to_string(), "abcd".to_string()]);
}

#[test]
fn test_clear_wipes_password() {
    let corpus = training_corpus();
    let gen = MarkovGenerator::new(&corpus, 12, false, false, false);
    let mut rng = RandomSource::from_seed(42);
    let mut password = gen.generate(&mut rng);
    assert_eq!(password.value.len(), 12);
    password.clear();
    assert!(password.value.is_empty());
}
