//! The capability traits shared by the cipher transforms: enciphering,
//! deciphering, partial deciphering, key enumeration for brute force, and
//! conversion between encipher and decipher keys.

use vstd::prelude::*;

verus! {

/// A cipher that can turn plaintext into ciphertext under a key.
pub trait Encipher {
    type Key;

    /// The ciphertext produced from the given plaintext characters.
    spec fn encipher_spec(&self, plaintext: Seq<char>, key: &Self::Key) -> Seq<char>;

    fn encipher(&self, plaintext: &str, key: &Self::Key) -> (r: String)
        ensures
            r@ == self.encipher_spec(plaintext@, key),
    ;
}

/// A cipher that can turn ciphertext back into plaintext under a key.
pub trait Decipher {
    type Key;

    /// The plaintext recovered from the given ciphertext characters.
    spec fn decipher_spec(&self, ciphertext: Seq<char>, key: &Self::Key) -> Seq<char>;

    fn decipher(&self, ciphertext: &str, key: &Self::Key) -> (r: String)
        ensures
            r@ == self.decipher_spec(ciphertext@, key),
    ;
}

/// A cipher that can decipher under a key that resolves only part of the
/// alphabet, rendering unresolved positions as a placeholder glyph.
pub trait PartialDecipher {
    type PartialKey;

    /// The partially recovered plaintext.
    spec fn partial_decipher_spec(&self, ciphertext: Seq<char>, key: &Self::PartialKey) -> Seq<
        char,
    >;

    fn partial_decipher(&self, ciphertext: &str, key: &Self::PartialKey) -> (r: String)
        ensures
            r@ == self.partial_decipher_spec(ciphertext@, key),
    ;
}

/// A cipher whose whole key space can be enumerated, in alphabet order.
pub trait KeysIterator: Decipher {
    /// Every candidate key, in order.
    spec fn keys_spec(&self) -> Seq<Self::Key>;

    fn keys_iter(&self) -> (r: Vec<Self::Key>)
        ensures
            r@ == self.keys_spec(),
    ;
}

/// A cipher whose keys can be parsed from raw dictionary lines, for the
/// dictionary attack: a malformed line yields no key and is skipped.
pub trait ParseKey: Decipher {
    /// Whether the line parses as a key for this cipher.
    spec fn parse_key_ok(&self, line: Seq<char>) -> bool;

    /// How a parsed key relates to its line.
    spec fn parsed_key_rel(&self, line: Seq<char>, k: &Self::Key) -> bool;

    /// What deciphering under the line's key yields.
    spec fn dict_text_spec(&self, ciphertext: Seq<char>, line: Seq<char>) -> Seq<char>;

    fn try_parse_key(&self, line: &str) -> (r: Option<Self::Key>)
        ensures
            (r is Some) == self.parse_key_ok(line@),
            r matches Some(k) ==> self.parsed_key_rel(line@, &k) && forall|ct: Seq<char>|
                self.decipher_spec(ct, &k) == self.dict_text_spec(ct, line@),
    ;
}

/// An encipher key that can be turned into the matching decipher key.
pub trait IntoDecipherKey: Sized {
    type DecipherKey;

    /// What must hold of the key for the conversion to be meaningful.
    spec fn into_decipher_req(&self) -> bool;

    /// How the produced decipher key relates to this key.
    spec fn decipher_key_rel(&self, r: &Self::DecipherKey) -> bool;

    fn into_decipher_key(self) -> (r: Self::DecipherKey)
        requires
            self.into_decipher_req(),
        ensures
            self.decipher_key_rel(&r),
    ;
}

/// A decipher key that can be turned into the matching encipher key.
pub trait IntoEncipherKey: Sized {
    type EncipherKey;

    /// What must hold of the key for the conversion to be meaningful.
    spec fn into_encipher_req(&self) -> bool;

    /// How the produced encipher key relates to this key.
    spec fn encipher_key_rel(&self, r: &Self::EncipherKey) -> bool;

    fn into_encipher_key(self) -> (r: Self::EncipherKey)
        requires
            self.into_encipher_req(),
        ensures
            self.encipher_key_rel(&r),
    ;
}

} // verus!
