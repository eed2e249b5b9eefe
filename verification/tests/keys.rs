use ciphertools::alphabet::Alphabet;
use ciphertools::autokey::Autokey;
use ciphertools::autokey::AutokeyKey;
use ciphertools::caesar::Caesar;
use ciphertools::caesar::CaesarKey;
use ciphertools::substitution::ParseError;
use ciphertools::substitution::Substitution;
use ciphertools::substitution::SubstitutionEncipherKey;
use ciphertools::vigenere::Vigenere;
use ciphertools::vigenere::VigenereKey;

#[test]
fn key_try_new() {
    let context = Substitution::new(Alphabet::latin());

    assert!(matches!(
        SubstitutionEncipherKey::try_new("abcdefghijklmnopqrstuvwxy".to_string(), &context),
        Err(ParseError::LengthTooShort),
    ));

    assert!(matches!(
        SubstitutionEncipherKey::try_new("abcdefghijklmnopqrstuvwxyza".to_string(), &context),
        Err(ParseError::LengthTooLong),
    ));

    assert!(matches!(
        SubstitutionEncipherKey::try_new("abcdefghijklmnopqrs7uvwxyz".to_string(), &context),
        Err(ParseError::InvalidChar('7')),
    ));

    assert!(matches!(
        SubstitutionEncipherKey::try_new("abcdefghijklmnopqrstuvwxya".to_string(), &context),
        Err(ParseError::DuplicateChar('a')),
    ));

    assert!(
        SubstitutionEncipherKey::try_new("abcdefghijklmnopqrstuvwxyz".to_string(), &context)
            .is_ok()
    );
}

#[test]
fn vigenere_key_try_new() {
    let context_include_whitespace = Vigenere::new(Alphabet::latin(), false);

    assert!(VigenereKey::try_new("hello".to_string(), &context_include_whitespace).is_ok());
    assert!(matches!(
        VigenereKey::try_new("gr8ness".to_string(), &context_include_whitespace),
        Err(ciphertools::vigenere::ParseError::InvalidChar('8')),
    ));
}

#[test]
fn autokey_key_try_new() {
    let context_include_whitespace = Autokey::new(Alphabet::latin(), false);

    assert!(AutokeyKey::try_new("hello".to_string(), &context_include_whitespace).is_ok());
    assert!(matches!(
        AutokeyKey::try_new("gr8ness".to_string(), &context_include_whitespace),
        Err(ciphertools::autokey::ParseError::InvalidChar('8')),
    ));
}

#[test]
fn caesar_key_try_new() {
    let context = Caesar::new(Alphabet::latin());

    let valid_keys = [
        'a', 'b', 'c', 'd', 'e', 'f', 'g', 'h', 'i', 'j', 'k', 'l', 'm', 'n', 'o', 'p', 'q', 'r',
        's', 't', 'u', 'v', 'w', 'x', 'y', 'z',
    ];
    let russian = [
        'а', 'б', 'в', 'г', 'д', 'е', 'ё', 'ж', 'з', 'и', 'й', 'к', 'л', 'м', 'н', 'о', 'п', 'р',
        'с', 'т', 'у', 'ф', 'х', 'ц', 'ч', 'ш', 'щ', 'ъ', 'ы', 'ь', 'э', 'ю', 'я',
    ];
    let greek = [
        'α', 'β', 'γ', 'δ', 'ε', 'ζ', 'η', 'θ', 'ι', 'κ', 'λ', 'μ', 'ν', 'ξ', 'ο', 'π', 'ρ', 'σ',
        'τ', 'υ', 'φ', 'χ', 'ψ', 'ω',
    ];
    let digits = ['0', '1', '2', '3', '4', '5', '6', '7', '8', '9'];
    let symbols = [
        '!', '@', '#', '$', '%', '^', '&', '*', '(', ')', '_', '-', '+', '=', '{', '}', '[', ']',
        ':', ';', '<', '>', '?', ',', '.', '/', '\\', '|', '`', '~', '"', '\'',
    ];

    for &c in valid_keys.iter() {
        assert!(CaesarKey::try_new(c, &context).is_ok());
    }
    for &c in russian.iter().chain(greek.iter()).chain(digits.iter()).chain(symbols.iter()) {
        assert!(CaesarKey::try_new(c, &context).is_err());
    }
}
