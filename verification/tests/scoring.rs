use ciphertools::language::Confidence;
use ciphertools::language::Language;
use ciphertools::ngrams::Ngrams;
use ciphertools::ngrams::RankedNgrams;

/// A fixed English sample for building small models and scoring.
const ENGLISH_SAMPLE: &str = "the quick brown fox jumps over the lazy dog while the rain in \
spain stays mainly in the plain and the cat sat on the mat with the hat that the man had \
there are many things in the world that we can see and hear and the people who read the \
words will know that this text is written in plain english with common letters";

/// The same characters as the sample, deterministically scrambled.
fn scrambled_sample() -> String {
    let mut chars: Vec<char> = ENGLISH_SAMPLE.chars().collect();
    // a fixed linear-congruential shuffle, so the test is deterministic
    let mut state: u64 = 12345;
    let n = chars.len();
    for i in (1..n).rev() {
        state = state.wrapping_mul(6364136223846793005).wrapping_add(1442695040888963407);
        let j = (state >> 33) as usize % (i + 1);
        chars.swap(i, j);
    }
    chars.into_iter().collect()
}

fn english_model() -> Language {
    let unigrams = RankedNgrams::from_text(ENGLISH_SAMPLE, 1);
    let bigrams = RankedNgrams::from_text(ENGLISH_SAMPLE, 2);
    let trigrams = RankedNgrams::from_text(ENGLISH_SAMPLE, 3);
    let words = RankedNgrams::from_counts(Vec::new());
    Language::new(words, vec![(1, unigrams), (2, bigrams), (3, trigrams)], 66000)
}

#[test]
fn ngrams_from_text_counts() {
    let t = Ngrams::from_text("aab", 1);
    // windows: a, a, b; frequencies in parts per million of three windows
    assert_eq!(t.get("a"), 666_666);
    assert_eq!(t.get("b"), 333_333);
    assert_eq!(t.get("c"), 0);
    assert_eq!(t.len(), 2);
    assert!(!t.is_empty());
    assert!(t.contains("a"));
    assert!(!t.contains("c"));

    // a text shorter than the window width has no n-grams
    let t = Ngrams::from_text("ab", 3);
    assert!(t.is_empty());

    let t = Ngrams::from_text("abab", 2);
    // windows: ab, ba, ab
    assert_eq!(t.get("ab"), 666_666);
    assert_eq!(t.get("ba"), 333_333);
}

#[test]
fn ngrams_from_counts_normalizes() {
    let t = Ngrams::from_counts(vec![
        ("a".to_string(), 3),
        ("b".to_string(), 1),
    ]);
    assert_eq!(t.get("a"), 750_000);
    assert_eq!(t.get("b"), 250_000);

    // an empty count list yields an empty table
    let t = Ngrams::from_counts(Vec::new());
    assert!(t.is_empty());
}

#[test]
fn ranked_ngrams_order() {
    let t = RankedNgrams::from_counts(vec![
        ("a".to_string(), 3),
        ("b".to_string(), 1),
        ("c".to_string(), 4),
    ]);
    // ranks ascend by frequency: the first entry is the long-tail bucket
    let first = t.first().unwrap();
    assert_eq!(first.0, "b");
    assert_eq!(first.1, 125_000);
    let last = t.last().unwrap();
    assert_eq!(last.0, "c");
    assert_eq!(last.1, 500_000);
    assert_eq!(t.get("a"), 375_000);
    assert!(!t.is_empty());

    let ranks = t.ranks();
    assert_eq!(ranks.len(), 3);
    assert!(ranks[0].1 <= ranks[1].1 && ranks[1].1 <= ranks[2].1);
}

#[test]
fn chi2_exact_value() {
    // language: a with 3/4, b with 1/4; the long-tail bucket is b
    let lang = RankedNgrams::from_counts(vec![("a".to_string(), 3), ("b".to_string(), 1)]);
    let words = RankedNgrams::from_counts(Vec::new());
    let language = Language::new(words, vec![(1, lang)], 0);

    // text "aa": actual(a) = 1_000_000; one term (250_000^2 * 1_000_000 /
    // 750_000) plus the bucket term (250_000^2 * 1_000_000 / 250_000)
    assert_eq!(
        language.text_confidence_chi2_unigram("aa"),
        83_333_333_333 + 250_000_000_000
    );

    // a model with no data for the requested order is maximally implausible
    assert_eq!(language.text_confidence_chi2_bigram("aa"), u64::MAX);
    assert_eq!(language.text_confidence_chi2_trigram("aa"), u64::MAX);
}

#[test]
fn chi2_skips_non_alphabetic_ngrams() {
    let lang = RankedNgrams::from_counts(vec![("a".to_string(), 3), ("b".to_string(), 1)]);
    let words = RankedNgrams::from_counts(Vec::new());
    let language = Language::new(words, vec![(1, lang)], 0);

    // the digit is not alphabetic, so its mass is ignored entirely: only
    // the unseen "a" term (750_000 * 1_000_000) and the empty bucket term
    // (250_000 * 1_000_000) remain
    assert_eq!(
        language.text_confidence_chi2_unigram("7"),
        750_000_000_000 + 250_000_000_000
    );
}

#[test]
fn confidence_scores_english_below_scrambled_text() {
    let language = english_model();
    let scrambled = scrambled_sample();
    let trigram = Confidence::new(language, 3);
    let english_score = trigram.run(ENGLISH_SAMPLE);
    let scrambled_score = trigram.run(&scrambled);
    assert!(english_score < scrambled_score);
}

#[test]
fn confidence_orders_dispatch_independently() {
    let language = english_model();
    // a text scored against its own table fits perfectly at every order
    assert_eq!(language.text_confidence_chi2_unigram(ENGLISH_SAMPLE), 0);
    assert_eq!(language.text_confidence_chi2_bigram(ENGLISH_SAMPLE), 0);
    assert_eq!(language.text_confidence_chi2_trigram(ENGLISH_SAMPLE), 0);
    // three independently selectable orders, each with data of its own
    let unigram = language.text_confidence_chi2_unigram("fox the xof");
    let trigram = language.text_confidence_chi2_trigram("fox the xof");
    assert!(unigram < u64::MAX);
    assert!(trigram < u64::MAX);
    assert_ne!(unigram, trigram);
}
