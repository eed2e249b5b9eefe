//! The Caesar cipher: every character is shifted by a fixed alphabet
//! character.  Its key space is one key per alphabet character, which makes
//! it the brute-forceable cipher of this library.

use crate::alphabet::Alphabet;
use crate::alphabet::char_add;
use crate::alphabet::char_sub;
use crate::alphabet::distinct_chars;
use crate::alphabet::lemma_sub_of_add;
use crate::cipher::Decipher;
use crate::cipher::Encipher;
use crate::cipher::IntoDecipherKey;
use crate::cipher::IntoEncipherKey;
use crate::cipher::KeysIterator;
use crate::cipher::ParseKey;
use crate::text::chars_of;
use crate::text::string_of;
use vstd::prelude::*;

verus! {

/// A Caesar key: the alphabet character whose position is the shift amount.
pub struct CaesarKey(pub char);

/// The Caesar cipher over a fixed alphabet.
pub struct Caesar {
    alphabet: Alphabet,
}

/// Why a candidate Caesar key was rejected.
#[derive(Debug, Clone, Copy, PartialEq, Eq, Structural)]
pub enum ParseError {
    InvalidChar(char),
}

impl View for CaesarKey {
    type V = char;

    open spec fn view(&self) -> char {
        self.0
    }
}

impl CaesarKey {
    /// Accepts the character as a key exactly when it belongs to the
    /// cipher's alphabet.
    pub fn try_new(key: char, context: &Caesar) -> (r: Result<Self, ParseError>)
        ensures
            context.alpha().contains(key) ==> (r matches Ok(k) && k@ == key),
            !context.alpha().contains(key) ==> r == Err::<Self, ParseError>(
                ParseError::InvalidChar(key),
            ),
    {
        if !context.alphabet.contains(key) {
            return Err(ParseError::InvalidChar(key));
        }
        Ok(Self::new(key))
    }

    /// Wraps the character as a key without validation.
    pub fn new(key: char) -> (r: Self)
        ensures
            r@ == key,
    {
        CaesarKey(key)
    }

    /// The key character, as the text that labels this key.
    pub fn label(&self) -> (r: String)
        ensures
            r@ == seq![self@],
    {
        let v: Vec<char> = vec![self.0];
        proof {
            assert(v@ =~= seq![self@]);
        }
        string_of(&v)
    }
}

impl Caesar {
    /// The cipher's alphabet characters, in order.
    pub closed spec fn alpha(&self) -> Seq<char> {
        self.alphabet@
    }

    /// The cipher's alphabet holds pairwise distinct characters.
    #[verifier::type_invariant]
    pub open spec fn wf(&self) -> bool {
        distinct_chars(self.alpha())
    }

    pub fn new(alphabet: Alphabet) -> (r: Self)
        ensures
            r.alpha() == alphabet@,
    {
        proof {
            use_type_invariant(&alphabet);
            alphabet.lemma_distinct();
        }
        Caesar { alphabet }
    }
}

impl Encipher for Caesar {
    type Key = CaesarKey;

    /// Each character is moved forward by the key's position, characters
    /// outside the alphabet passing through unchanged.
    open spec fn encipher_spec(&self, plaintext: Seq<char>, key: &CaesarKey) -> Seq<char> {
        Seq::new(plaintext.len(), |i: int| char_add(self.alpha(), plaintext[i], key@))
    }

    fn encipher(&self, plaintext: &str, key: &CaesarKey) -> (r: String)
        ensures
            r@ == self.encipher_spec(plaintext@, key),
    {
        let cs = chars_of(plaintext);
        let mut out: Vec<char> = Vec::new();
        let mut i: usize = 0;
        while i < cs.len()
            invariant
                i <= cs@.len(),
                cs@ == plaintext@,
                out@.len() == i,
                forall|j: int|
                    0 <= j < i ==> out@[j] == char_add(self.alpha(), cs@[j], key@),
            decreases cs@.len() - i,
        {
            out.push(self.alphabet.add(cs[i], key.0));
            i = i + 1;
        }
        proof {
            assert(out@ =~= self.encipher_spec(plaintext@, key));
        }
        string_of(&out)
    }
}

impl Decipher for Caesar {
    type Key = CaesarKey;

    /// Each character is moved backward by the key's position, characters
    /// outside the alphabet passing through unchanged.
    open spec fn decipher_spec(&self, ciphertext: Seq<char>, key: &CaesarKey) -> Seq<char> {
        Seq::new(ciphertext.len(), |i: int| char_sub(self.alpha(), ciphertext[i], key@))
    }

    fn decipher(&self, ciphertext: &str, key: &CaesarKey) -> (r: String)
        ensures
            r@ == self.decipher_spec(ciphertext@, key),
    {
        let cs = chars_of(ciphertext);
        let mut out: Vec<char> = Vec::new();
        let mut i: usize = 0;
        while i < cs.len()
            invariant
                i <= cs@.len(),
                cs@ == ciphertext@,
                out@.len() == i,
                forall|j: int|
                    0 <= j < i ==> out@[j] == char_sub(self.alpha(), cs@[j], key@),
            decreases cs@.len() - i,
        {
            out.push(self.alphabet.sub(cs[i], key.0));
            i = i + 1;
        }
        proof {
            assert(out@ =~= self.decipher_spec(ciphertext@, key));
        }
        string_of(&out)
    }
}

/// One Caesar key per character of the alphabet, in alphabet order.
pub open spec fn caesar_keys(alpha: Seq<char>) -> Seq<CaesarKey>
    decreases alpha.len(),
{
    if alpha.len() == 0 {
        Seq::empty()
    } else {
        caesar_keys(alpha.drop_last()).push(CaesarKey(alpha.last()))
    }
}

impl Caesar {
    /// Builds the brute-force key vector, one key per alphabet character.
    fn keys_vec(&self) -> (r: Vec<CaesarKey>)
        ensures
            r@ == caesar_keys(self.alpha()),
    {
        let mut keys: Vec<CaesarKey> = Vec::new();
        let n = self.alphabet.len();
        let mut i: usize = 0;
        proof {
            assert(self.alpha().take(0) =~= Seq::<char>::empty());
        }
        while i < n
            invariant
                i <= n,
                n == self.alpha().len(),
                keys@ == caesar_keys(self.alpha().take(i as int)),
            decreases n - i,
        {
            let c = match self.alphabet.get(i) {
                Some(c) => c,
                None => ' ',
            };
            let k = CaesarKey::new(c);
            proof {
                assert(k == CaesarKey(k.0));
                assert(self.alpha().take(i + 1).drop_last() =~= self.alpha().take(i as int));
                assert(self.alpha().take(i + 1).last() == self.alpha()[i as int]);
            }
            keys.push(k);
            i = i + 1;
        }
        proof {
            assert(self.alpha().take(n as int) =~= self.alpha());
        }
        keys
    }
}

impl KeysIterator for Caesar {
    /// One key per alphabet character, in alphabet order: the full
    /// brute-force key space.
    open spec fn keys_spec(&self) -> Seq<CaesarKey> {
        caesar_keys(self.alpha())
    }

    fn keys_iter(&self) -> (r: Vec<CaesarKey>)
        ensures
            r@ == self.keys_spec(),
    {
        self.keys_vec()
    }
}

impl IntoDecipherKey for CaesarKey {
    type DecipherKey = CaesarKey;

    /// The Caesar cipher deciphers by subtraction, so the key is its own
    /// decipher key.
    open spec fn into_decipher_req(&self) -> bool {
        true
    }

    open spec fn decipher_key_rel(&self, r: &CaesarKey) -> bool {
        r@ == self@
    }

    fn into_decipher_key(self) -> (r: CaesarKey)
        ensures
            self.decipher_key_rel(&r),
    {
        self
    }
}

impl IntoEncipherKey for CaesarKey {
    type EncipherKey = CaesarKey;

    /// The Caesar cipher deciphers by subtraction, so the key is its own
    /// encipher key.
    open spec fn into_encipher_req(&self) -> bool {
        true
    }

    open spec fn encipher_key_rel(&self, r: &CaesarKey) -> bool {
        r@ == self@
    }

    fn into_encipher_key(self) -> (r: CaesarKey)
        ensures
            self.encipher_key_rel(&r),
    {
        self
    }
}

impl ParseKey for Caesar {
    /// A line parses when it is a single alphabet character.
    open spec fn parse_key_ok(&self, line: Seq<char>) -> bool {
        line.len() == 1 && self.alpha().contains(line[0])
    }

    open spec fn parsed_key_rel(&self, line: Seq<char>, k: &CaesarKey) -> bool {
        k@ == line[0]
    }

    open spec fn dict_text_spec(&self, ciphertext: Seq<char>, line: Seq<char>) -> Seq<char> {
        Seq::new(ciphertext.len(), |i: int| char_sub(self.alpha(), ciphertext[i], line[0]))
    }

    fn try_parse_key(&self, line: &str) -> (r: Option<CaesarKey>)
        ensures
            (r is Some) == self.parse_key_ok(line@),
            r matches Some(k) ==> self.parsed_key_rel(line@, &k) && forall|ct: Seq<char>|
                self.decipher_spec(ct, &k) == self.dict_text_spec(ct, line@),
    {
        let cs = chars_of(line);
        if cs.len() != 1 {
            return None;
        }
        match CaesarKey::try_new(cs[0], self) {
            Ok(k) => {
                proof {
                    assert forall|ct: Seq<char>| self.decipher_spec(ct, &k)
                        == self.dict_text_spec(ct, line@) by {
                        assert(self.decipher_spec(ct, &k) =~= self.dict_text_spec(ct, line@));
                    }
                }
                Some(k)
            },
            Err(_) => None,
        }
    }
}

/// Round trip: deciphering with the key that enciphered recovers the
/// plaintext exactly, for every text and every key character.
pub proof fn lemma_caesar_round_trip(cipher: &Caesar, key: &CaesarKey, plaintext: Seq<char>)
    requires
        cipher.wf(),
    ensures
        cipher.decipher_spec(cipher.encipher_spec(plaintext, key), key) == plaintext,
{
    let enc = cipher.encipher_spec(plaintext, key);
    let dec = cipher.decipher_spec(enc, key);
    assert forall|i: int| 0 <= i < plaintext.len() implies dec[i] == plaintext[i] by {
        lemma_sub_of_add(cipher.alpha(), plaintext[i], key@);
    }
    assert(dec =~= plaintext);
}

} // verus!
