pub mod alphabet;
pub mod attack;
pub mod autokey;
pub mod caesar;
pub mod charmap;
pub mod cipher;
pub mod keystream;
pub mod language;
pub mod ngrams;
pub mod scoreboard;
pub mod substitution;
pub mod text;
pub mod vigenere;
