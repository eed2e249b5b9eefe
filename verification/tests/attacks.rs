use ciphertools::alphabet::Alphabet;
use ciphertools::attack::brute_force;
use ciphertools::attack::dictionary_attack;
use ciphertools::caesar::Caesar;
use ciphertools::caesar::CaesarKey;
use ciphertools::cipher::Encipher;
use ciphertools::language::Confidence;
use ciphertools::language::Language;
use ciphertools::ngrams::RankedNgrams;
use ciphertools::scoreboard::Scoreboard;
use ciphertools::vigenere::Vigenere;
use ciphertools::vigenere::VigenereKey;

const ENGLISH_SAMPLE: &str = "the quick brown fox jumps over the lazy dog while the rain in \
spain stays mainly in the plain and the cat sat on the mat with the hat that the man had \
there are many things in the world that we can see and hear and the people who read the \
words will know that this text is written in plain english with common letters";

fn english_model() -> Language {
    let unigrams = RankedNgrams::from_text(ENGLISH_SAMPLE, 1);
    let bigrams = RankedNgrams::from_text(ENGLISH_SAMPLE, 2);
    let trigrams = RankedNgrams::from_text(ENGLISH_SAMPLE, 3);
    let words = RankedNgrams::from_counts(Vec::new());
    Language::new(words, vec![(1, unigrams), (2, bigrams), (3, trigrams)], 66000)
}

#[test]
fn brute_force_recovers_the_caesar_key() {
    let plaintext = "the quick brown fox";
    let context = Caesar::new(Alphabet::latin());
    let key = CaesarKey::new('d');
    let ciphertext = context.encipher(plaintext, &key);
    assert_eq!(ciphertext, "wkh txlfn eurzq ira");

    let confidence = Confidence::new(english_model(), 3);
    let mut board = Scoreboard::new(1, confidence);
    brute_force(&context, &ciphertext, &mut board);

    let kept = board.candidates();
    assert_eq!(kept.len(), 1);
    assert_eq!(kept[0].text, plaintext);
    assert_eq!(kept[0].key, "d");
}

#[test]
fn brute_force_ranks_all_keys() {
    let context = Caesar::new(Alphabet::latin());
    let ciphertext = context.encipher("hello world", &CaesarKey::new('c'));
    let confidence = Confidence::new(english_model(), 2);
    let mut board = Scoreboard::new(26, confidence);
    brute_force(&context, &ciphertext, &mut board);
    let kept = board.candidates();
    assert_eq!(kept.len(), 26);
    for w in kept.windows(2) {
        assert!(w[0].confidence <= w[1].confidence);
    }
    assert_eq!(kept[0].text, "hello world");
    assert_eq!(kept[0].key, "c");
}

#[test]
fn dictionary_attack_skips_malformed_lines() {
    let plaintext = "the quick brown fox jumps over the lazy dog";
    let context = Vigenere::new(Alphabet::latin(), true);
    let key = VigenereKey::new("rain".to_string());
    let ciphertext = context.encipher(plaintext, &key);

    let dictionary = vec![
        "wrong".to_string(),
        "gr8ness".to_string(),  // malformed: skipped, never aborts the run
        "rain".to_string(),
        "other".to_string(),
    ];
    let confidence = Confidence::new(english_model(), 3);
    let mut board = Scoreboard::new(2, confidence);
    dictionary_attack(&context, &ciphertext, &dictionary, &mut board);

    let kept = board.candidates();
    assert_eq!(kept.len(), 2);
    assert_eq!(kept[0].text, plaintext);
    assert_eq!(kept[0].key, "rain");
}

#[test]
fn dictionary_attack_with_caesar_lines() {
    let context = Caesar::new(Alphabet::latin());
    let ciphertext = context.encipher("plain text here", &CaesarKey::new('b'));
    let dictionary = vec![
        "b".to_string(),
        "bb".to_string(),  // not a single character: skipped
        "7".to_string(),   // outside the alphabet: skipped
        "c".to_string(),
    ];
    let confidence = Confidence::new(english_model(), 2);
    let mut board = Scoreboard::new(4, confidence);
    dictionary_attack(&context, &ciphertext, &dictionary, &mut board);
    let kept = board.candidates();
    // only the two well-formed keys produced candidates
    assert_eq!(kept.len(), 2);
    assert_eq!(kept[0].text, "plain text here");
    assert_eq!(kept[0].key, "b");
}
