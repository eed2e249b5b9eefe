//! The Vigenère cipher: each plaintext character is combined with the
//! keystream character at the same position, the keystream cycling through
//! the key when exhausted.  In whitespace-skip mode whitespace passes
//! through without consuming a keystream character.

use crate::alphabet::Alphabet;
use crate::alphabet::char_add;
use crate::alphabet::char_sub;
use crate::alphabet::distinct_chars;
use crate::alphabet::lemma_sub_of_add;
use crate::cipher::Decipher;
use crate::cipher::Encipher;
use crate::cipher::IntoDecipherKey;
use crate::cipher::ParseKey;
use crate::cipher::IntoEncipherKey;
use crate::keystream::effective_char;
use crate::keystream::keystream_pos;
use crate::keystream::lemma_keystream_pos_bound;
use crate::keystream::lemma_keystream_pos_congruent;
use crate::text::chars_of;
use crate::text::is_space;
use crate::text::is_space_char;
use crate::text::string_of;
use vstd::prelude::*;

verus! {

/// A Vigenère key: a sequence of alphabet characters used as a cycling
/// keystream.  An empty key makes the cipher the identity transform.
pub struct VigenereKey(String);

/// The Vigenère cipher over a fixed alphabet, with optional
/// whitespace-skip mode.
pub struct Vigenere {
    alphabet: Alphabet,
    skip_whitespace: bool,
}

/// Why a candidate Vigenère key was rejected.
#[derive(Debug, Clone, Copy, PartialEq, Eq, Structural)]
pub enum ParseError {
    InvalidChar(char),
}

impl View for VigenereKey {
    type V = Seq<char>;

    closed spec fn view(&self) -> Seq<char> {
        self.0@
    }
}

impl VigenereKey {
    /// The number of characters in the key.
    pub fn len(&self) -> (r: usize)
        ensures
            r == self@.len(),
    {
        self.0.as_str().unicode_len()
    }

    /// Whether the key is empty.
    pub fn is_empty(&self) -> (r: bool)
        ensures
            r == (self@.len() == 0),
    {
        self.0.as_str().is_empty()
    }

    /// Accepts the string as a key exactly when every character belongs to
    /// the cipher's alphabet; otherwise reports the first character that
    /// does not.
    pub fn try_new(key: String, context: &Vigenere) -> (r: Result<Self, ParseError>)
        ensures
            (forall|i: int| 0 <= i < key@.len() ==> context.alpha().contains(#[trigger] key@[i]))
                ==> (r matches Ok(k) && k@ == key@),
            (r matches Ok(k) ==> k@ == key@ && forall|i: int|
                0 <= i < key@.len() ==> context.alpha().contains(#[trigger] key@[i])),
            r matches Err(e) ==> exists|i: int|
                0 <= i < key@.len() && e == ParseError::InvalidChar(#[trigger] key@[i])
                    && !context.alpha().contains(key@[i]) && (forall|j: int|
                    0 <= j < i ==> context.alpha().contains(#[trigger] key@[j])),
    {
        let cs = chars_of(key.as_str());
        let mut i: usize = 0;
        while i < cs.len()
            invariant
                i <= cs@.len(),
                cs@ == key@,
                forall|j: int| 0 <= j < i ==> context.alpha().contains(#[trigger] key@[j]),
            decreases cs@.len() - i,
        {
            if !context.alphabet.contains(cs[i]) {
                return Err(ParseError::InvalidChar(cs[i]));
            }
            i = i + 1;
        }
        Ok(VigenereKey(key))
    }

    /// Wraps the string as a key without validation.
    pub fn new(key: String) -> (r: Self)
        ensures
            r@ == key@,
    {
        VigenereKey(key)
    }

    /// The key characters, as the text that labels this key.
    pub fn label(&self) -> (r: String)
        ensures
            r@ == self@,
    {
        let cs = chars_of(self.0.as_str());
        string_of(&cs)
    }
}

impl Vigenere {
    /// The cipher's alphabet characters, in order.
    pub closed spec fn alpha(&self) -> Seq<char> {
        self.alphabet@
    }

    /// Whether whitespace passes through without consuming the keystream.
    pub closed spec fn skip(&self) -> bool {
        self.skip_whitespace
    }

    /// The cipher's alphabet holds pairwise distinct characters.
    #[verifier::type_invariant]
    pub open spec fn wf(&self) -> bool {
        distinct_chars(self.alpha())
    }

    pub fn new(alphabet: Alphabet, skip_whitespace: bool) -> (r: Self)
        ensures
            r.alpha() == alphabet@,
            r.skip() == skip_whitespace,
    {
        proof {
            use_type_invariant(&alphabet);
            alphabet.lemma_distinct();
        }
        Vigenere { alphabet, skip_whitespace }
    }
}

/// The ciphertext character at position `i`: whitespace is echoed in skip
/// mode, every other character is added to the keystream character whose
/// position cycles through the key.
pub open spec fn vigenere_enc_char(
    alpha: Seq<char>,
    key: Seq<char>,
    skip: bool,
    text: Seq<char>,
    i: int,
) -> char {
    if effective_char(skip, text[i]) {
        char_add(alpha, text[i], key[keystream_pos(text, skip, i) % (key.len() as int)])
    } else {
        text[i]
    }
}

/// The plaintext character at position `i`, inverting `vigenere_enc_char`.
pub open spec fn vigenere_dec_char(
    alpha: Seq<char>,
    key: Seq<char>,
    skip: bool,
    text: Seq<char>,
    i: int,
) -> char {
    if effective_char(skip, text[i]) {
        char_sub(alpha, text[i], key[keystream_pos(text, skip, i) % (key.len() as int)])
    } else {
        text[i]
    }
}

impl Encipher for Vigenere {
    type Key = VigenereKey;

    /// An empty key leaves the plaintext unchanged; otherwise every
    /// character is paired per `vigenere_enc_char`.
    open spec fn encipher_spec(&self, plaintext: Seq<char>, key: &VigenereKey) -> Seq<char> {
        if key@.len() == 0 {
            plaintext
        } else {
            Seq::new(
                plaintext.len(),
                |i: int| vigenere_enc_char(self.alpha(), key@, self.skip(), plaintext, i),
            )
        }
    }

    fn encipher(&self, plaintext: &str, key: &VigenereKey) -> (r: String)
        ensures
            r@ == self.encipher_spec(plaintext@, key),
    {
        let cs = chars_of(plaintext);
        if key.is_empty() {
            return string_of(&cs);
        }
        let kcs = chars_of(key.0.as_str());
        let klen = kcs.len();
        let mut out: Vec<char> = Vec::new();
        let mut j: usize = 0;
        let mut i: usize = 0;
        while i < cs.len()
            invariant
                i <= cs@.len(),
                cs@ == plaintext@,
                kcs@ == key@,
                klen == kcs@.len(),
                klen > 0,
                j == keystream_pos(cs@, self.skip(), i as int),
                j <= i,
                out@.len() == i,
                forall|m: int|
                    0 <= m < i ==> out@[m] == vigenere_enc_char(
                        self.alpha(),
                        kcs@,
                        self.skip(),
                        cs@,
                        m,
                    ),
            decreases cs@.len() - i,
        {
            let c = cs[i];
            if self.skip_whitespace && is_space(c) {
                out.push(c);
            } else {
                out.push(self.alphabet.add(c, kcs[j % klen]));
                j = j + 1;
            }
            i = i + 1;
            proof {
                lemma_keystream_pos_bound(cs@, self.skip(), i as int);
            }
        }
        proof {
            assert(out@ =~= self.encipher_spec(plaintext@, key));
        }
        string_of(&out)
    }
}

impl Decipher for Vigenere {
    type Key = VigenereKey;

    /// An empty key leaves the ciphertext unchanged; otherwise every
    /// character is paired per `vigenere_dec_char`.
    open spec fn decipher_spec(&self, ciphertext: Seq<char>, key: &VigenereKey) -> Seq<char> {
        if key@.len() == 0 {
            ciphertext
        } else {
            Seq::new(
                ciphertext.len(),
                |i: int| vigenere_dec_char(self.alpha(), key@, self.skip(), ciphertext, i),
            )
        }
    }

    fn decipher(&self, ciphertext: &str, key: &VigenereKey) -> (r: String)
        ensures
            r@ == self.decipher_spec(ciphertext@, key),
    {
        let cs = chars_of(ciphertext);
        if key.is_empty() {
            return string_of(&cs);
        }
        let kcs = chars_of(key.0.as_str());
        let klen = kcs.len();
        let mut out: Vec<char> = Vec::new();
        let mut j: usize = 0;
        let mut i: usize = 0;
        while i < cs.len()
            invariant
                i <= cs@.len(),
                cs@ == ciphertext@,
                kcs@ == key@,
                klen == kcs@.len(),
                klen > 0,
                j == keystream_pos(cs@, self.skip(), i as int),
                j <= i,
                out@.len() == i,
                forall|m: int|
                    0 <= m < i ==> out@[m] == vigenere_dec_char(
                        self.alpha(),
                        kcs@,
                        self.skip(),
                        cs@,
                        m,
                    ),
            decreases cs@.len() - i,
        {
            let c = cs[i];
            if self.skip_whitespace && is_space(c) {
                out.push(c);
            } else {
                out.push(self.alphabet.sub(c, kcs[j % klen]));
                j = j + 1;
            }
            i = i + 1;
            proof {
                lemma_keystream_pos_bound(cs@, self.skip(), i as int);
            }
        }
        proof {
            assert(out@ =~= self.decipher_spec(ciphertext@, key));
        }
        string_of(&out)
    }
}

impl IntoDecipherKey for VigenereKey {
    type DecipherKey = VigenereKey;

    /// The Vigenère cipher deciphers by subtraction, so the key is its own
    /// decipher key.
    open spec fn into_decipher_req(&self) -> bool {
        true
    }

    open spec fn decipher_key_rel(&self, r: &VigenereKey) -> bool {
        r@ == self@
    }

    fn into_decipher_key(self) -> (r: VigenereKey)
        ensures
            self.decipher_key_rel(&r),
    {
        self
    }
}

impl IntoEncipherKey for VigenereKey {
    type EncipherKey = VigenereKey;

    /// The Vigenère cipher deciphers by subtraction, so the key is its own
    /// encipher key.
    open spec fn into_encipher_req(&self) -> bool {
        true
    }

    open spec fn encipher_key_rel(&self, r: &VigenereKey) -> bool {
        r@ == self@
    }

    fn into_encipher_key(self) -> (r: VigenereKey)
        ensures
            self.encipher_key_rel(&r),
    {
        self
    }
}

impl ParseKey for Vigenere {
    /// A line parses when every character belongs to the alphabet.
    open spec fn parse_key_ok(&self, line: Seq<char>) -> bool {
        forall|i: int| 0 <= i < line.len() ==> self.alpha().contains(#[trigger] line[i])
    }

    open spec fn parsed_key_rel(&self, line: Seq<char>, k: &VigenereKey) -> bool {
        k@ == line
    }

    open spec fn dict_text_spec(&self, ciphertext: Seq<char>, line: Seq<char>) -> Seq<char> {
        if line.len() == 0 {
            ciphertext
        } else {
            Seq::new(
                ciphertext.len(),
                |i: int| vigenere_dec_char(self.alpha(), line, self.skip(), ciphertext, i),
            )
        }
    }

    fn try_parse_key(&self, line: &str) -> (r: Option<VigenereKey>)
        ensures
            (r is Some) == self.parse_key_ok(line@),
            r matches Some(k) ==> self.parsed_key_rel(line@, &k) && forall|ct: Seq<char>|
                self.decipher_spec(ct, &k) == self.dict_text_spec(ct, line@),
    {
        match VigenereKey::try_new(String::from_str(line), self) {
            Ok(k) => {
                proof {
                    assert forall|ct: Seq<char>| self.decipher_spec(ct, &k)
                        == self.dict_text_spec(ct, line@) by {
                        if k@.len() > 0 {
                            assert(self.decipher_spec(ct, &k) =~= self.dict_text_spec(ct, line@));
                        }
                    }
                }
                Some(k)
            },
            Err(_) => None,
        }
    }
}

/// Identity on empty key: a Vigenère transform under an empty key leaves
/// plaintext and ciphertext unchanged.
pub proof fn lemma_vigenere_empty_key(cipher: &Vigenere, key: &VigenereKey, text: Seq<char>)
    requires
        key@.len() == 0,
    ensures
        cipher.encipher_spec(text, key) == text,
        cipher.decipher_spec(text, key) == text,
{
}

/// Round trip: deciphering with the key that enciphered recovers the
/// plaintext exactly.  In whitespace-skip mode this holds provided no
/// alphabet character is itself whitespace, so that enciphering cannot
/// create or destroy a skipped position.
pub proof fn lemma_vigenere_round_trip(cipher: &Vigenere, key: &VigenereKey, plaintext: Seq<char>)
    requires
        cipher.wf(),
        cipher.skip() ==> forall|c: char|
            cipher.alpha().contains(c) ==> !is_space_char(c),
    ensures
        cipher.decipher_spec(cipher.encipher_spec(plaintext, key), key) == plaintext,
{
    if key@.len() == 0 {
        return ;
    }
    let alpha = cipher.alpha();
    let skip = cipher.skip();
    let enc = cipher.encipher_spec(plaintext, key);
    let dec = cipher.decipher_spec(enc, key);
    assert forall|i: int|
        0 <= i < plaintext.len() implies effective_char(skip, enc[i]) == effective_char(
        skip,
        plaintext[i],
    ) by {
        if effective_char(skip, plaintext[i]) {
            lemma_sub_of_add(alpha, plaintext[i], key@[keystream_pos(plaintext, skip, i) % (
            key@.len() as int)]);
        }
    }
    assert forall|i: int| 0 <= i < plaintext.len() implies dec[i] == plaintext[i] by {
        lemma_keystream_pos_congruent(enc, plaintext, skip, i);
        if effective_char(skip, plaintext[i]) {
            lemma_sub_of_add(alpha, plaintext[i], key@[keystream_pos(plaintext, skip, i) % (
            key@.len() as int)]);
        }
    }
    assert(dec =~= plaintext);
}

} // verus!
