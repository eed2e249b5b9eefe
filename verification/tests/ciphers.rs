use ciphertools::alphabet::Alphabet;
use ciphertools::autokey::Autokey;
use ciphertools::autokey::AutokeyKey;
use ciphertools::caesar::Caesar;
use ciphertools::caesar::CaesarKey;
use ciphertools::cipher::Decipher;
use ciphertools::cipher::Encipher;
use ciphertools::cipher::IntoDecipherKey;
use ciphertools::cipher::KeysIterator;
use ciphertools::cipher::PartialDecipher;
use ciphertools::substitution::Substitution;
use ciphertools::substitution::SubstitutionEncipherKey;
use ciphertools::substitution::SubstitutionPartialDecipherKey;
use ciphertools::vigenere::Vigenere;
use ciphertools::vigenere::VigenereKey;

const QUICK_BROWN_FOX: &str = "the quick brown fox jumps over the lazy dog";

#[test]
fn alphabet_lookup() {
    let latin = Alphabet::latin();
    assert_eq!(latin.len(), 26);
    assert_eq!(latin.get(0), Some('a'));
    assert_eq!(latin.get(25), Some('z'));
    assert_eq!(latin.get(26), None);
    assert_eq!(latin.get_index('a'), Some(0));
    assert_eq!(latin.get_index('d'), Some(3));
    assert_eq!(latin.get_index('7'), None);
    assert!(latin.contains('q'));
    assert!(!latin.contains(' '));
    assert!(latin.all("abc".to_string()));
    assert!(!latin.all("ab c".to_string()));
    assert_eq!(Alphabet::russian().len(), 33);
    assert_eq!(Alphabet::greek().len(), 24);
}

#[test]
fn alphabet_arithmetic() {
    let latin = Alphabet::latin();
    // add and sub act modulo the alphabet length and stay inside it
    assert_eq!(latin.add('a', 'd'), 'd');
    assert_eq!(latin.add('z', 'b'), 'a');
    assert_eq!(latin.sub('a', 'b'), 'z');
    for &a in ['a', 'm', 'z', ' ', '!'].iter() {
        for &b in ['a', 'd', 'z', '7'].iter() {
            let s = latin.add(a, b);
            assert_eq!(latin.sub(s, b), a);
            if latin.contains(a) && latin.contains(b) {
                assert!(latin.contains(s));
            } else {
                assert_eq!(s, a);
            }
        }
    }
}

#[test]
fn caesar_round_trip() {
    let context = Caesar::new(Alphabet::latin());
    for key in [CaesarKey::new('a'), CaesarKey::new('b'), CaesarKey::new('d')] {
        let ciphertext = context.encipher(QUICK_BROWN_FOX, &key);
        let plaintext = context.decipher(&ciphertext, &key);
        assert_eq!(plaintext, QUICK_BROWN_FOX);
    }
    // shift by 'd' moves each letter three places
    let key = CaesarKey::new('d');
    assert_eq!(context.encipher("the quick brown fox", &key), "wkh txlfn eurzq ira");
    // the identity key leaves the text unchanged
    let key = CaesarKey::new('a');
    assert_eq!(context.encipher(QUICK_BROWN_FOX, &key), QUICK_BROWN_FOX);
}

#[test]
fn caesar_keys_enumeration() {
    let context = Caesar::new(Alphabet::latin());
    let keys = context.keys_iter();
    assert_eq!(keys.len(), 26);
    let labels: Vec<String> = keys.iter().map(|k| k.label()).collect();
    assert_eq!(labels[0], "a");
    assert_eq!(labels[25], "z");
}

#[test]
fn vigenere_round_trip() {
    let key = VigenereKey::new("key".to_string());
    for skip in [false, true] {
        let context = Vigenere::new(Alphabet::latin(), skip);
        let ciphertext = context.encipher(QUICK_BROWN_FOX, &key);
        let plaintext = context.decipher(&ciphertext, &key);
        assert_eq!(plaintext, QUICK_BROWN_FOX);
    }
    // with whitespace skipped the keystream is not consumed by spaces
    let context = Vigenere::new(Alphabet::latin(), true);
    assert_eq!(context.encipher("ab cd", &VigenereKey::new("bcb".to_string())), "bd de");
    // without skipping, spaces pass through but consume keystream characters
    let context = Vigenere::new(Alphabet::latin(), false);
    assert_eq!(context.encipher("ab cd", &VigenereKey::new("bcb".to_string())), "bd df");
}

#[test]
fn vigenere_empty_key_identity() {
    let key = VigenereKey::new(String::new());
    assert!(key.is_empty());
    assert_eq!(key.len(), 0);
    for skip in [false, true] {
        let context = Vigenere::new(Alphabet::latin(), skip);
        assert_eq!(context.encipher(QUICK_BROWN_FOX, &key), QUICK_BROWN_FOX);
        assert_eq!(context.decipher(QUICK_BROWN_FOX, &key), QUICK_BROWN_FOX);
    }
}

#[test]
fn autokey_round_trip() {
    let key = AutokeyKey::new("key".to_string());
    assert_eq!(key.len(), 3);
    assert!(!key.is_empty());
    for skip in [false, true] {
        let context = Autokey::new(Alphabet::latin(), skip);
        let ciphertext = context.encipher(QUICK_BROWN_FOX, &key);
        let plaintext = context.decipher(&ciphertext, &key);
        assert_eq!(plaintext, QUICK_BROWN_FOX);
    }
    // the keystream extends with the plaintext itself: "ab" under key "b"
    // gives add(a,b)=b then add(b,a)=b
    let context = Autokey::new(Alphabet::latin(), false);
    assert_eq!(context.encipher("ab", &AutokeyKey::new("b".to_string())), "bb");
}

#[test]
fn autokey_empty_key_identity() {
    let key = AutokeyKey::new(String::new());
    for skip in [false, true] {
        let context = Autokey::new(Alphabet::latin(), skip);
        assert_eq!(context.encipher(QUICK_BROWN_FOX, &key), QUICK_BROWN_FOX);
        assert_eq!(context.decipher(QUICK_BROWN_FOX, &key), QUICK_BROWN_FOX);
    }
}

#[test]
fn round_trip_with_punctuation_and_other_alphabets() {
    // arbitrary non-alphabet characters pass through every transform
    let punctuated = "the quick, brown fox; jumps!";
    let caesar = Caesar::new(Alphabet::latin());
    let ck = CaesarKey::new('f');
    assert_eq!(caesar.decipher(&caesar.encipher(punctuated, &ck), &ck), punctuated);

    for skip in [false, true] {
        let vigenere = Vigenere::new(Alphabet::latin(), skip);
        let vk = VigenereKey::new("fox".to_string());
        assert_eq!(vigenere.decipher(&vigenere.encipher(punctuated, &vk), &vk), punctuated);

        let autokey = Autokey::new(Alphabet::latin(), skip);
        let ak = AutokeyKey::new("fox".to_string());
        assert_eq!(autokey.decipher(&autokey.encipher(punctuated, &ak), &ak), punctuated);
    }

    let russian = Caesar::new(Alphabet::russian());
    let rk = CaesarKey::new('ж');
    let text = "съешь же ещё этих мягких французских булок";
    assert_eq!(russian.decipher(&russian.encipher(text, &rk), &rk), text);

    let greek = Caesar::new(Alphabet::greek());
    let gk = CaesarKey::new('δ');
    let text = "αβγ ωψχ";
    assert_eq!(greek.decipher(&greek.encipher(text, &gk), &gk), text);
}

#[test]
fn substitution_round_trip() {
    let context = Substitution::new(Alphabet::latin());
    let key = SubstitutionEncipherKey::new("zebrascdfghijklmnopqtuvwxy".to_string(), &Alphabet::latin());
    let ciphertext = context.encipher(QUICK_BROWN_FOX, &key);
    assert_ne!(ciphertext, QUICK_BROWN_FOX);
    let dkey = key.inverse();
    let plaintext = context.decipher(&ciphertext, &dkey);
    assert_eq!(plaintext, QUICK_BROWN_FOX);

    // the key maps its own characters to alphabet positions: 'z' -> 'a'
    let key = SubstitutionEncipherKey::new("zebrascdfghijklmnopqtuvwxy".to_string(), &Alphabet::latin());
    assert_eq!(context.encipher("zebras", &key), "abcdef");
    let dkey = key.inverse();
    assert_eq!(context.decipher("abcdef", &dkey), "zebras");
}

#[test]
fn substitution_into_decipher_key() {
    let context = Substitution::new(Alphabet::latin());
    let key = SubstitutionEncipherKey::try_new("abcdefghijklmnopqrstuvwxyz".to_string(), &context)
        .unwrap();
    let dkey = key.into_decipher_key();
    assert_eq!(context.decipher("hello world", &dkey), "hello world");
    assert_eq!(context.alphabet().len(), 26);
}

#[test]
fn substitution_partial_decipher() {
    let context = Substitution::new(Alphabet::latin());
    let mut map: ahash::AHashMap<char, Option<char>> = ahash::AHashMap::new();
    map.insert('a', Some('x'));
    map.insert('b', None);
    let key = SubstitutionPartialDecipherKey::new(map);
    assert_eq!(context.partial_decipher("ab c", &key), "x\u{FFFD} c");
}
