//! The Autokey cipher: the keystream is the key followed by the plaintext
//! itself.  Decipherment extends its own keystream with each newly
//! recovered plaintext character before that character is needed, a strict
//! sequential dependency.  Whitespace-skip mode applies the same
//! non-consuming pass-through rule as the Vigenère cipher.

use crate::alphabet::Alphabet;
use crate::alphabet::char_add;
use crate::alphabet::char_sub;
use crate::alphabet::distinct_chars;
use crate::alphabet::lemma_sub_of_add;
use crate::cipher::Decipher;
use crate::cipher::Encipher;
use crate::cipher::IntoDecipherKey;
use crate::cipher::ParseKey;
use crate::cipher::IntoEncipherKey;
use crate::keystream::effective_char;
use crate::keystream::effective_prefix;
use crate::keystream::effective_sel;
use crate::keystream::keystream_pos;
use crate::keystream::lemma_effective_sel_agrees;
use crate::keystream::lemma_effective_sel_len;
use crate::keystream::lemma_effective_sel_matches_prefix;
use crate::keystream::lemma_keystream_pos_bound;
use crate::keystream::lemma_keystream_pos_congruent;
use crate::text::chars_of;
use crate::text::is_space;
use crate::text::is_space_char;
use crate::text::string_of;
use vstd::prelude::*;

verus! {

/// An Autokey key: the characters that seed the keystream before the
/// plaintext extends it.  An empty key makes the cipher the identity
/// transform.
pub struct AutokeyKey(String);

/// The Autokey cipher over a fixed alphabet, with optional
/// whitespace-skip mode.
pub struct Autokey {
    alphabet: Alphabet,
    skip_whitespace: bool,
}

/// Why a candidate Autokey key was rejected.
#[derive(Debug, Clone, Copy, PartialEq, Eq, Structural)]
pub enum ParseError {
    InvalidChar(char),
}

impl View for AutokeyKey {
    type V = Seq<char>;

    closed spec fn view(&self) -> Seq<char> {
        self.0@
    }
}

impl AutokeyKey {
    /// The number of characters in the key.
    pub fn len(&self) -> (r: usize)
        ensures
            r == self@.len(),
    {
        self.0.as_str().unicode_len()
    }

    /// Whether the key is empty.
    pub fn is_empty(&self) -> (r: bool)
        ensures
            r == (self@.len() == 0),
    {
        self.0.as_str().is_empty()
    }

    /// Accepts the string as a key exactly when every character belongs to
    /// the cipher's alphabet; otherwise reports the first character that
    /// does not.
    pub fn try_new(key: String, context: &Autokey) -> (r: Result<Self, ParseError>)
        ensures
            (forall|i: int| 0 <= i < key@.len() ==> context.alpha().contains(#[trigger] key@[i]))
                ==> (r matches Ok(k) && k@ == key@),
            (r matches Ok(k) ==> k@ == key@ && forall|i: int|
                0 <= i < key@.len() ==> context.alpha().contains(#[trigger] key@[i])),
            r matches Err(e) ==> exists|i: int|
                0 <= i < key@.len() && e == ParseError::InvalidChar(#[trigger] key@[i])
                    && !context.alpha().contains(key@[i]) && (forall|j: int|
                    0 <= j < i ==> context.alpha().contains(#[trigger] key@[j])),
    {
        let cs = chars_of(key.as_str());
        let mut i: usize = 0;
        while i < cs.len()
            invariant
                i <= cs@.len(),
                cs@ == key@,
                forall|j: int| 0 <= j < i ==> context.alpha().contains(#[trigger] key@[j]),
            decreases cs@.len() - i,
        {
            if !context.alphabet.contains(cs[i]) {
                return Err(ParseError::InvalidChar(cs[i]));
            }
            i = i + 1;
        }
        Ok(AutokeyKey(key))
    }

    /// Wraps the string as a key without validation.
    pub fn new(key: String) -> (r: Self)
        ensures
            r@ == key@,
    {
        AutokeyKey(key)
    }

    /// The key characters, as the text that labels this key.
    pub fn label(&self) -> (r: String)
        ensures
            r@ == self@,
    {
        let cs = chars_of(self.0.as_str());
        string_of(&cs)
    }
}

impl Autokey {
    /// The cipher's alphabet characters, in order.
    pub closed spec fn alpha(&self) -> Seq<char> {
        self.alphabet@
    }

    /// Whether whitespace passes through without consuming the keystream.
    pub closed spec fn skip(&self) -> bool {
        self.skip_whitespace
    }

    /// The cipher's alphabet holds pairwise distinct characters.
    #[verifier::type_invariant]
    pub open spec fn wf(&self) -> bool {
        distinct_chars(self.alpha())
    }

    pub fn new(alphabet: Alphabet, skip_whitespace: bool) -> (r: Self)
        ensures
            r.alpha() == alphabet@,
            r.skip() == skip_whitespace,
    {
        proof {
            use_type_invariant(&alphabet);
            alphabet.lemma_distinct();
        }
        Autokey { alphabet, skip_whitespace }
    }
}

/// The ciphertext character at position `i`: the keystream is the key
/// followed by the keystream-consuming plaintext characters themselves.
pub open spec fn autokey_enc_char(
    alpha: Seq<char>,
    key: Seq<char>,
    skip: bool,
    text: Seq<char>,
    i: int,
) -> char {
    if effective_char(skip, text[i]) {
        char_add(alpha, text[i], (key + effective_prefix(text, skip, i))[keystream_pos(
            text,
            skip,
            i,
        )])
    } else {
        text[i]
    }
}

/// The first `n` recovered plaintext characters: the keystream is the key
/// followed by the plaintext recovered so far, extended as the
/// decipherment proceeds.
pub open spec fn autokey_dec_rec(
    alpha: Seq<char>,
    key: Seq<char>,
    skip: bool,
    ciphertext: Seq<char>,
    n: int,
) -> Seq<char>
    decreases n,
{
    if n <= 0 {
        Seq::empty()
    } else {
        let prev = autokey_dec_rec(alpha, key, skip, ciphertext, n - 1);
        if effective_char(skip, ciphertext[n - 1]) {
            prev.push(
                char_sub(
                    alpha,
                    ciphertext[n - 1],
                    (key + effective_sel(ciphertext, prev, skip, n - 1))[keystream_pos(
                        ciphertext,
                        skip,
                        n - 1,
                    )],
                ),
            )
        } else {
            prev.push(ciphertext[n - 1])
        }
    }
}

/// The recovered plaintext has one character per ciphertext character.
pub proof fn lemma_autokey_dec_len(
    alpha: Seq<char>,
    key: Seq<char>,
    skip: bool,
    ciphertext: Seq<char>,
    n: int,
)
    requires
        n >= 0,
    ensures
        autokey_dec_rec(alpha, key, skip, ciphertext, n).len() == n,
    decreases n,
{
    if n > 0 {
        lemma_autokey_dec_len(alpha, key, skip, ciphertext, n - 1);
    }
}

impl Encipher for Autokey {
    type Key = AutokeyKey;

    /// An empty key leaves the plaintext unchanged; otherwise every
    /// character is paired per `autokey_enc_char`.
    open spec fn encipher_spec(&self, plaintext: Seq<char>, key: &AutokeyKey) -> Seq<char> {
        if key@.len() == 0 {
            plaintext
        } else {
            Seq::new(
                plaintext.len(),
                |i: int| autokey_enc_char(self.alpha(), key@, self.skip(), plaintext, i),
            )
        }
    }

    fn encipher(&self, plaintext: &str, key: &AutokeyKey) -> (r: String)
        ensures
            r@ == self.encipher_spec(plaintext@, key),
    {
        let cs = chars_of(plaintext);
        if key.is_empty() {
            return string_of(&cs);
        }
        let mut ks = chars_of(key.0.as_str());
        let klen = ks.len();
        let mut out: Vec<char> = Vec::new();
        let mut j: usize = 0;
        let mut i: usize = 0;
        proof {
            assert(ks@ =~= key@ + effective_prefix(cs@, self.skip(), 0));
        }
        while i < cs.len()
            invariant
                i <= cs@.len(),
                cs@ == plaintext@,
                klen == key@.len(),
                klen > 0,
                j == keystream_pos(cs@, self.skip(), i as int),
                j <= i,
                ks@ == key@ + effective_prefix(cs@, self.skip(), i as int),
                out@.len() == i,
                forall|m: int|
                    0 <= m < i ==> out@[m] == autokey_enc_char(
                        self.alpha(),
                        key@,
                        self.skip(),
                        cs@,
                        m,
                    ),
            decreases cs@.len() - i,
        {
            let c = cs[i];
            if self.skip_whitespace && is_space(c) {
                out.push(c);
                proof {
                    assert(effective_prefix(cs@, self.skip(), i + 1) =~= effective_prefix(
                        cs@,
                        self.skip(),
                        i as int,
                    ));
                }
            } else {
                out.push(self.alphabet.add(c, ks[j]));
                ks.push(c);
                j = j + 1;
                proof {
                    assert(effective_prefix(cs@, self.skip(), i + 1) =~= effective_prefix(
                        cs@,
                        self.skip(),
                        i as int,
                    ) + seq![cs@[i as int]]);
                }
            }
            i = i + 1;
            proof {
                lemma_keystream_pos_bound(cs@, self.skip(), i as int);
            }
        }
        proof {
            assert(out@ =~= self.encipher_spec(plaintext@, key));
        }
        string_of(&out)
    }
}

impl Decipher for Autokey {
    type Key = AutokeyKey;

    /// An empty key leaves the ciphertext unchanged; otherwise the
    /// plaintext is recovered in order per `autokey_dec_rec`.
    open spec fn decipher_spec(&self, ciphertext: Seq<char>, key: &AutokeyKey) -> Seq<char> {
        if key@.len() == 0 {
            ciphertext
        } else {
            autokey_dec_rec(self.alpha(), key@, self.skip(), ciphertext, ciphertext.len() as int)
        }
    }

    fn decipher(&self, ciphertext: &str, key: &AutokeyKey) -> (r: String)
        ensures
            r@ == self.decipher_spec(ciphertext@, key),
    {
        let cs = chars_of(ciphertext);
        if key.is_empty() {
            return string_of(&cs);
        }
        let mut ks = chars_of(key.0.as_str());
        let klen = ks.len();
        let mut out: Vec<char> = Vec::new();
        let mut j: usize = 0;
        let mut i: usize = 0;
        proof {
            assert(ks@ =~= key@ + effective_sel(cs@, out@, self.skip(), 0));
        }
        while i < cs.len()
            invariant
                i <= cs@.len(),
                cs@ == ciphertext@,
                klen == key@.len(),
                klen > 0,
                j == keystream_pos(cs@, self.skip(), i as int),
                j <= i,
                out@ == autokey_dec_rec(self.alpha(), key@, self.skip(), cs@, i as int),
                out@.len() == i,
                ks@ == key@ + effective_sel(cs@, out@, self.skip(), i as int),
            decreases cs@.len() - i,
        {
            let c = cs[i];
            let ghost old_out = out@;
            if self.skip_whitespace && is_space(c) {
                out.push(c);
                proof {
                    lemma_effective_sel_agrees(cs@, old_out, out@, self.skip(), i as int);
                    assert(effective_sel(cs@, out@, self.skip(), i + 1) =~= effective_sel(
                        cs@,
                        out@,
                        self.skip(),
                        i as int,
                    ));
                }
            } else {
                proof {
                    lemma_effective_sel_len(cs@, out@, self.skip(), i as int);
                }
                let p = self.alphabet.sub(c, ks[j]);
                out.push(p);
                ks.push(p);
                j = j + 1;
                proof {
                    lemma_effective_sel_agrees(cs@, old_out, out@, self.skip(), i as int);
                    assert(effective_sel(cs@, out@, self.skip(), i + 1) =~= effective_sel(
                        cs@,
                        out@,
                        self.skip(),
                        i as int,
                    ) + seq![out@[i as int]]);
                }
            }
            i = i + 1;
            proof {
                lemma_keystream_pos_bound(cs@, self.skip(), i as int);
            }
        }
        proof {
            assert(out@ == self.decipher_spec(ciphertext@, key));
        }
        string_of(&out)
    }
}

impl IntoDecipherKey for AutokeyKey {
    type DecipherKey = AutokeyKey;

    /// The Autokey cipher deciphers by subtraction, so the key is its own
    /// decipher key.
    open spec fn into_decipher_req(&self) -> bool {
        true
    }

    open spec fn decipher_key_rel(&self, r: &AutokeyKey) -> bool {
        r@ == self@
    }

    fn into_decipher_key(self) -> (r: AutokeyKey)
        ensures
            self.decipher_key_rel(&r),
    {
        self
    }
}

impl IntoEncipherKey for AutokeyKey {
    type EncipherKey = AutokeyKey;

    /// The Autokey cipher deciphers by subtraction, so the key is its own
    /// encipher key.
    open spec fn into_encipher_req(&self) -> bool {
        true
    }

    open spec fn encipher_key_rel(&self, r: &AutokeyKey) -> bool {
        r@ == self@
    }

    fn into_encipher_key(self) -> (r: AutokeyKey)
        ensures
            self.encipher_key_rel(&r),
    {
        self
    }
}

impl ParseKey for Autokey {
    /// A line parses when every character belongs to the alphabet.
    open spec fn parse_key_ok(&self, line: Seq<char>) -> bool {
        forall|i: int| 0 <= i < line.len() ==> self.alpha().contains(#[trigger] line[i])
    }

    open spec fn parsed_key_rel(&self, line: Seq<char>, k: &AutokeyKey) -> bool {
        k@ == line
    }

    open spec fn dict_text_spec(&self, ciphertext: Seq<char>, line: Seq<char>) -> Seq<char> {
        if line.len() == 0 {
            ciphertext
        } else {
            autokey_dec_rec(self.alpha(), line, self.skip(), ciphertext, ciphertext.len() as int)
        }
    }

    fn try_parse_key(&self, line: &str) -> (r: Option<AutokeyKey>)
        ensures
            (r is Some) == self.parse_key_ok(line@),
            r matches Some(k) ==> self.parsed_key_rel(line@, &k) && forall|ct: Seq<char>|
                self.decipher_spec(ct, &k) == self.dict_text_spec(ct, line@),
    {
        match AutokeyKey::try_new(String::from_str(line), self) {
            Ok(k) => Some(k),
            Err(_) => None,
        }
    }
}

/// Identity on empty key: an Autokey transform under an empty key leaves
/// plaintext and ciphertext unchanged.
pub proof fn lemma_autokey_empty_key(cipher: &Autokey, key: &AutokeyKey, text: Seq<char>)
    requires
        key@.len() == 0,
    ensures
        cipher.encipher_spec(text, key) == text,
        cipher.decipher_spec(text, key) == text,
{
}

/// Enciphering preserves which positions consume keystream characters,
/// provided no alphabet character is itself whitespace.
proof fn lemma_autokey_pattern(cipher: &Autokey, key: &AutokeyKey, plaintext: Seq<char>, i: int)
    requires
        cipher.wf(),
        cipher.skip() ==> forall|c: char|
            cipher.alpha().contains(c) ==> !is_space_char(c),
        key@.len() > 0,
        0 <= i < plaintext.len(),
    ensures
        effective_char(cipher.skip(), cipher.encipher_spec(plaintext, key)[i]) == effective_char(
            cipher.skip(),
            plaintext[i],
        ),
{
    if effective_char(cipher.skip(), plaintext[i]) {
        lemma_sub_of_add(
            cipher.alpha(),
            plaintext[i],
            (key@ + effective_prefix(plaintext, cipher.skip(), i))[keystream_pos(
                plaintext,
                cipher.skip(),
                i,
            )],
        );
    }
}

/// Decipherment recovers the first `n` plaintext characters.
proof fn lemma_autokey_round_trip_aux(
    cipher: &Autokey,
    key: &AutokeyKey,
    plaintext: Seq<char>,
    n: int,
)
    requires
        cipher.wf(),
        cipher.skip() ==> forall|c: char|
            cipher.alpha().contains(c) ==> !is_space_char(c),
        key@.len() > 0,
        0 <= n <= plaintext.len(),
    ensures
        autokey_dec_rec(
            cipher.alpha(),
            key@,
            cipher.skip(),
            cipher.encipher_spec(plaintext, key),
            n,
        ) == plaintext.take(n),
    decreases n,
{
    let alpha = cipher.alpha();
    let skip = cipher.skip();
    let enc = cipher.encipher_spec(plaintext, key);
    if n == 0 {
        assert(autokey_dec_rec(alpha, key@, skip, enc, 0) =~= plaintext.take(0));
    } else {
        lemma_autokey_round_trip_aux(cipher, key, plaintext, n - 1);
        let prev = autokey_dec_rec(alpha, key@, skip, enc, n - 1);
        assert(prev == plaintext.take(n - 1));
        assert forall|i: int| 0 <= i < n - 1 implies prev[i] == plaintext[i] by {}
        assert forall|i: int|
            0 <= i < n implies effective_char(skip, enc[i]) == effective_char(
            skip,
            plaintext[i],
        ) by {
            lemma_autokey_pattern(cipher, key, plaintext, i);
        }
        if effective_char(skip, plaintext[n - 1]) {
            lemma_keystream_pos_congruent(enc, plaintext, skip, n - 1);
            lemma_effective_sel_matches_prefix(enc, prev, plaintext, skip, n - 1);
            let j = keystream_pos(plaintext, skip, n - 1);
            let ks = key@ + effective_prefix(plaintext, skip, n - 1);
            lemma_keystream_pos_bound(plaintext, skip, n - 1);
            assert(enc[n - 1] == char_add(alpha, plaintext[n - 1], ks[j]));
            lemma_sub_of_add(alpha, plaintext[n - 1], ks[j]);
            assert(autokey_dec_rec(alpha, key@, skip, enc, n) == prev.push(plaintext[n - 1]));
        } else {
            assert(enc[n - 1] == plaintext[n - 1]);
            assert(autokey_dec_rec(alpha, key@, skip, enc, n) == prev.push(plaintext[n - 1]));
        }
        assert(prev.push(plaintext[n - 1]) =~= plaintext.take(n));
    }
}

/// Round trip: deciphering with the key that enciphered recovers the
/// plaintext exactly.  In whitespace-skip mode this holds provided no
/// alphabet character is itself whitespace, so that enciphering cannot
/// create or destroy a skipped position.
pub proof fn lemma_autokey_round_trip(cipher: &Autokey, key: &AutokeyKey, plaintext: Seq<char>)
    requires
        cipher.wf(),
        cipher.skip() ==> forall|c: char|
            cipher.alpha().contains(c) ==> !is_space_char(c),
    ensures
        cipher.decipher_spec(cipher.encipher_spec(plaintext, key), key) == plaintext,
{
    if key@.len() == 0 {
        return ;
    }
    let enc = cipher.encipher_spec(plaintext, key);
    assert(enc.len() == plaintext.len());
    lemma_autokey_round_trip_aux(cipher, key, plaintext, plaintext.len() as int);
    assert(plaintext.take(plaintext.len() as int) =~= plaintext);
}

} // verus!
