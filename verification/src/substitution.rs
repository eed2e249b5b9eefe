//! The simple substitution cipher: a bijective character mapping whose
//! domain and range are both the configured alphabet.  Keys are validated
//! at construction; enciphering and deciphering apply the forward and
//! inverse mapping per character, with passthrough for characters outside
//! the mapping.

use crate::alphabet::Alphabet;
use crate::alphabet::distinct_chars;
use crate::charmap::CharCharMap;
use crate::charmap::CharPartMap;
use crate::charmap::char_char_map;
use crate::charmap::char_char_map_get;
use crate::charmap::char_char_map_insert;
use crate::charmap::char_char_map_new;
use crate::charmap::char_char_map_pairs;
use crate::charmap::char_part_map;
use crate::charmap::char_part_map_get;
use crate::cipher::Decipher;
use crate::cipher::Encipher;
use crate::cipher::IntoDecipherKey;
use crate::cipher::IntoEncipherKey;
use crate::cipher::PartialDecipher;
use crate::text::chars_of;
use crate::text::string_of;
use vstd::prelude::*;

verus! {

/// A substitution encipher key: maps each plaintext character to its
/// ciphertext character.
pub struct SubstitutionEncipherKey(CharCharMap);

/// A substitution decipher key: maps each ciphertext character back to its
/// plaintext character.
pub struct SubstitutionDecipherKey(CharCharMap);

/// A partial decipher key: maps ciphertext characters to either a known
/// plaintext character or an explicitly unresolved position.
pub struct SubstitutionPartialDecipherKey(CharPartMap);

/// The substitution cipher over a fixed alphabet.
pub struct Substitution {
    alphabet: Alphabet,
}

/// Why a candidate substitution key was rejected, in validation order:
/// wrong length first, then a character outside the alphabet, then a
/// repeated character.
#[derive(Debug, Clone, Copy, PartialEq, Eq, Structural)]
pub enum ParseError {
    LengthTooShort,
    LengthTooLong,
    InvalidChar(char),
    DuplicateChar(char),
}

/// Whether every key character belongs to the alphabet.
pub open spec fn all_in_alpha(alpha: Seq<char>, key: Seq<char>) -> bool {
    forall|i: int| 0 <= i < key.len() ==> alpha.contains(#[trigger] key[i])
}

/// Applying a substitution mapping to one character: mapped characters are
/// replaced, all others pass through unchanged.
pub open spec fn subst_char(m: Map<char, char>, c: char) -> char {
    if m.dom().contains(c) {
        m[c]
    } else {
        c
    }
}

/// Whether a mapping sends no two characters to the same character.
pub open spec fn map_injective(m: Map<char, char>) -> bool {
    forall|a: char, b: char|
        m.dom().contains(a) && m.dom().contains(b) && m[a] == m[b] ==> a == b
}

/// The inverse of a character mapping: defined on the mapping's range,
/// sending each image back to its unique preimage.
pub open spec fn invert_char_map(m: Map<char, char>) -> Map<char, char> {
    Map::new(
        |c: char| exists|k: char| m.dom().contains(k) && m[k] == c,
        |c: char| choose|k: char| m.dom().contains(k) && m[k] == c,
    )
}

/// A substitution mapping fit for round-tripping: injective, and closed in
/// the sense that every image is itself mapped.  Keys accepted by
/// validation always satisfy this.
pub open spec fn substitution_key_wf(m: Map<char, char>) -> bool {
    &&& map_injective(m)
    &&& forall|k: char| m.dom().contains(k) ==> m.dom().contains(#[trigger] m[k])
}

/// Builds the mapping `key[i] -> alpha[i]` after full validation.
fn try_key_map(key: &str, alphabet: &Alphabet) -> (r: Result<CharCharMap, ParseError>)
    ensures
        (key@.len() < alphabet@.len()) <==> r == Err::<CharCharMap, ParseError>(
            ParseError::LengthTooShort,
        ),
        (key@.len() > alphabet@.len()) <==> r == Err::<CharCharMap, ParseError>(
            ParseError::LengthTooLong,
        ),
        (key@.len() == alphabet@.len() && all_in_alpha(alphabet@, key@) && distinct_chars(key@))
            <==> r is Ok,
        r matches Ok(m) ==> (forall|c: char|
            char_char_map(m).dom().contains(c) <==> key@.contains(c)) && (forall|i: int|
            0 <= i < key@.len() ==> char_char_map(m)[#[trigger] key@[i]] == alphabet@[i]),
        r matches Err(e) ==> (e matches ParseError::InvalidChar(c) ==> key@.len()
            == alphabet@.len() && exists|i: int|
            0 <= i < key@.len() && #[trigger] key@[i] == c && !alphabet@.contains(c) && (forall|
                j: int,
            | 0 <= j < i ==> alphabet@.contains(#[trigger] key@[j]))),
        r matches Err(e) ==> (e matches ParseError::DuplicateChar(c) ==> key@.len()
            == alphabet@.len() && all_in_alpha(alphabet@, key@) && exists|q: int|
            0 <= q < key@.len() && #[trigger] key@[q] == c && (exists|p: int|
                0 <= p < q && key@[p] == c) && (forall|p1: int, p2: int|
                0 <= p1 < p2 < q ==> key@[p1] != key@[p2])),
{
    let kcs = chars_of(key);
    let alen = alphabet.len();
    if kcs.len() < alen {
        return Err(ParseError::LengthTooShort);
    }
    if kcs.len() > alen {
        return Err(ParseError::LengthTooLong);
    }
    let mut i: usize = 0;
    while i < kcs.len()
        invariant
            i <= kcs@.len(),
            kcs@ == key@,
            kcs@.len() == alphabet@.len(),
            forall|j: int| 0 <= j < i ==> alphabet@.contains(#[trigger] key@[j]),
        decreases kcs@.len() - i,
    {
        if !alphabet.contains(kcs[i]) {
            return Err(ParseError::InvalidChar(kcs[i]));
        }
        i = i + 1;
    }
    let mut m = char_char_map_new();
    let mut q: usize = 0;
    while q < kcs.len()
        invariant
            q <= kcs@.len(),
            kcs@ == key@,
            kcs@.len() == alphabet@.len(),
            forall|j: int| 0 <= j < key@.len() ==> alphabet@.contains(#[trigger] key@[j]),
            forall|c: char|
                #[trigger] char_char_map(m).dom().contains(c) <==> exists|p: int|
                    0 <= p < q && key@[p] == c,
            forall|p: int| 0 <= p < q ==> char_char_map(m)[#[trigger] key@[p]] == alphabet@[p],
            forall|p1: int, p2: int| 0 <= p1 < p2 < q ==> key@[p1] != key@[p2],
        decreases kcs@.len() - q,
    {
        let c = kcs[q];
        let seen = match char_char_map_get(&m, c) {
            Some(_) => true,
            None => false,
        };
        if seen {
            return Err(ParseError::DuplicateChar(c));
        }
        let a = match alphabet.get(q) {
            Some(a) => a,
            None => c,
        };
        char_char_map_insert(&mut m, c, a);
        q = q + 1;
    }
    proof {
        assert forall|c: char| char_char_map(m).dom().contains(c) implies key@.contains(c) by {}
        assert forall|c: char| key@.contains(c) implies char_char_map(m).dom().contains(c) by {
            let p = key@.index_of(c);
            assert(0 <= p < key@.len() && key@[p] == c);
        }
    }
    Ok(m)
}

/// Builds the mapping `key[i] -> alpha[i]` without validation: pairs run
/// to the shorter of key and alphabet, and on a repeated key character the
/// later pair wins.
fn key_map_unchecked(key: &str, alphabet: &Alphabet) -> (r: CharCharMap)
    ensures
        forall|c: char|
            #[trigger] char_char_map(r).dom().contains(c) <==> exists|i: int|
                0 <= i < key@.len() && i < alphabet@.len() && key@[i] == c,
        forall|i: int|
            0 <= i < key@.len() && i < alphabet@.len() && (forall|j: int|
                i < j < key@.len() && j < alphabet@.len() ==> key@[j] != key@[i])
                ==> char_char_map(r)[#[trigger] key@[i]] == alphabet@[i],
{
    let kcs = chars_of(key);
    let alen = alphabet.len();
    let mut m = char_char_map_new();
    let mut i: usize = 0;
    let n = if kcs.len() < alen {
        kcs.len()
    } else {
        alen
    };
    while i < n
        invariant
            i <= n,
            kcs@ == key@,
            n == if kcs@.len() < alphabet@.len() {
                kcs@.len()
            } else {
                alphabet@.len()
            },
            forall|c: char|
                #[trigger] char_char_map(m).dom().contains(c) <==> exists|p: int|
                    0 <= p < i && key@[p] == c,
            forall|p: int|
                0 <= p < i && (forall|j: int| p < j < i ==> key@[j] != key@[p])
                    ==> char_char_map(m)[#[trigger] key@[p]] == alphabet@[p],
        decreases n - i,
    {
        let c = kcs[i];
        let a = match alphabet.get(i) {
            Some(a) => a,
            None => c,
        };
        char_char_map_insert(&mut m, c, a);
        i = i + 1;
    }
    m
}

/// Inverts an injective mapping by swapping each pair.
fn invert_map(m: &CharCharMap) -> (r: CharCharMap)
    requires
        map_injective(char_char_map(*m)),
    ensures
        char_char_map(r) == invert_char_map(char_char_map(*m)),
{
    let ghost orig = char_char_map(*m);
    let pairs = char_char_map_pairs(m);
    proof {
        assert forall|i: int, j: int| 0 <= i < j < pairs@.len() implies (#[trigger] pairs@[i]).1
            != (#[trigger] pairs@[j]).1 by {
            assert(pairs@[i].0 != pairs@[j].0);
        }
    }
    let mut out = char_char_map_new();
    let mut i: usize = 0;
    while i < pairs.len()
        invariant
            i <= pairs@.len(),
            map_injective(orig),
            orig == char_char_map(*m),
            forall|p: int|
                0 <= p < pairs@.len() ==> orig.dom().contains((#[trigger] pairs@[p]).0)
                    && orig[pairs@[p].0] == pairs@[p].1,
            forall|p1: int, p2: int|
                0 <= p1 < p2 < pairs@.len() ==> (#[trigger] pairs@[p1]).0 != (
                #[trigger] pairs@[p2]).0,
            forall|p1: int, p2: int|
                0 <= p1 < p2 < pairs@.len() ==> (#[trigger] pairs@[p1]).1 != (
                #[trigger] pairs@[p2]).1,
            forall|k: char| orig.dom().contains(k) ==> exists|p: int|
                0 <= p < pairs@.len() && (#[trigger] pairs@[p]).0 == k,
            forall|p: int|
                0 <= p < i ==> char_char_map(out).dom().contains((#[trigger] pairs@[p]).1)
                    && char_char_map(out)[pairs@[p].1] == pairs@[p].0,
            forall|c: char| #[trigger] char_char_map(out).dom().contains(c) ==> exists|p: int|
                0 <= p < i && (#[trigger] pairs@[p]).1 == c,
        decreases pairs@.len() - i,
    {
        let (k, v) = pairs[i];
        char_char_map_insert(&mut out, v, k);
        i = i + 1;
    }
    proof {
        let inv = invert_char_map(orig);
        assert forall|c: char| char_char_map(out).dom().contains(c) implies inv.dom().contains(
            c,
        ) by {
            let p = choose|p: int| 0 <= p < pairs@.len() && (#[trigger] pairs@[p]).1 == c;
            assert(orig.dom().contains(pairs@[p].0) && orig[pairs@[p].0] == c);
        }
        assert forall|c: char| inv.dom().contains(c) implies char_char_map(out).dom().contains(
            c,
        ) by {
            let k = choose|k: char| orig.dom().contains(k) && orig[k] == c;
            let p = choose|p: int| 0 <= p < pairs@.len() && (#[trigger] pairs@[p]).0 == k;
            assert(pairs@[p].1 == c);
        }
        assert forall|c: char| char_char_map(out).dom().contains(c) implies char_char_map(out)[c]
            == inv[c] by {
            let p = choose|p: int| 0 <= p < pairs@.len() && (#[trigger] pairs@[p]).1 == c;
            let k0 = pairs@[p].0;
            assert(orig.dom().contains(k0) && orig[k0] == c);
            assert(char_char_map(out)[c] == k0);
            let k1 = choose|k: char| orig.dom().contains(k) && orig[k] == c;
            assert(orig.dom().contains(k1) && orig[k1] == c);
            assert(k1 == k0);
        }
        assert(char_char_map(out) =~= inv);
    }
    out
}

impl SubstitutionEncipherKey {
    /// The character mapping this key applies.
    pub closed spec fn map(&self) -> Map<char, char> {
        char_char_map(self.0)
    }

    /// Accepts the string as a key exactly when it is a permutation of the
    /// cipher's alphabet, pairing `key[i]` with `alphabet[i]`.
    pub fn try_new(key: String, context: &Substitution) -> (r: Result<Self, ParseError>)
        ensures
            (key@.len() < context.alpha().len()) <==> r == Err::<Self, ParseError>(
                ParseError::LengthTooShort,
            ),
            (key@.len() > context.alpha().len()) <==> r == Err::<Self, ParseError>(
                ParseError::LengthTooLong,
            ),
            (key@.len() == context.alpha().len() && all_in_alpha(context.alpha(), key@)
                && distinct_chars(key@)) <==> r is Ok,
            r matches Ok(k) ==> (forall|c: char|
                k.map().dom().contains(c) <==> key@.contains(c)) && (forall|i: int|
                0 <= i < key@.len() ==> k.map()[#[trigger] key@[i]] == context.alpha()[i]),
            r matches Err(e) ==> (e matches ParseError::InvalidChar(c) ==> exists|i: int|
                0 <= i < key@.len() && #[trigger] key@[i] == c && !context.alpha().contains(c)
                    && (forall|j: int|
                    0 <= j < i ==> context.alpha().contains(#[trigger] key@[j]))),
            r matches Err(e) ==> (e matches ParseError::DuplicateChar(c) ==> exists|q: int|
                0 <= q < key@.len() && #[trigger] key@[q] == c && (exists|p: int|
                    0 <= p < q && key@[p] == c) && (forall|p1: int, p2: int|
                    0 <= p1 < p2 < q ==> key@[p1] != key@[p2])),
    {
        match try_key_map(key.as_str(), &context.alphabet) {
            Ok(m) => Ok(SubstitutionEncipherKey(m)),
            Err(e) => Err(e),
        }
    }

    /// Builds a key without validation, pairing `key[i]` with
    /// `alphabet[i]` as far as both reach; on a repeated key character the
    /// later pair wins.
    pub fn new(key: String, alphabet: &Alphabet) -> (r: Self)
        ensures
            forall|c: char|
                #[trigger] r.map().dom().contains(c) <==> exists|i: int|
                    0 <= i < key@.len() && i < alphabet@.len() && key@[i] == c,
            forall|i: int|
                0 <= i < key@.len() && i < alphabet@.len() && (forall|j: int|
                    i < j < key@.len() && j < alphabet@.len() ==> key@[j] != key@[i])
                    ==> r.map()[#[trigger] key@[i]] == alphabet@[i],
    {
        SubstitutionEncipherKey(key_map_unchecked(key.as_str(), alphabet))
    }

    /// Swaps domain and range, turning this encipher key into the matching
    /// decipher key.
    pub fn inverse(self) -> (r: SubstitutionDecipherKey)
        requires
            map_injective(self.map()),
        ensures
            r.map() == invert_char_map(self.map()),
    {
        SubstitutionDecipherKey(invert_map(&self.0))
    }
}

impl SubstitutionDecipherKey {
    /// The character mapping this key applies.
    pub closed spec fn map(&self) -> Map<char, char> {
        char_char_map(self.0)
    }

    /// Accepts the string as a key exactly when it is a permutation of the
    /// cipher's alphabet, pairing `key[i]` with `alphabet[i]`.
    pub fn try_new(key: String, context: &Substitution) -> (r: Result<Self, ParseError>)
        ensures
            (key@.len() < context.alpha().len()) <==> r == Err::<Self, ParseError>(
                ParseError::LengthTooShort,
            ),
            (key@.len() > context.alpha().len()) <==> r == Err::<Self, ParseError>(
                ParseError::LengthTooLong,
            ),
            (key@.len() == context.alpha().len() && all_in_alpha(context.alpha(), key@)
                && distinct_chars(key@)) <==> r is Ok,
            r matches Ok(k) ==> (forall|c: char|
                k.map().dom().contains(c) <==> key@.contains(c)) && (forall|i: int|
                0 <= i < key@.len() ==> k.map()[#[trigger] key@[i]] == context.alpha()[i]),
            r matches Err(e) ==> (e matches ParseError::InvalidChar(c) ==> exists|i: int|
                0 <= i < key@.len() && #[trigger] key@[i] == c && !context.alpha().contains(c)
                    && (forall|j: int|
                    0 <= j < i ==> context.alpha().contains(#[trigger] key@[j]))),
            r matches Err(e) ==> (e matches ParseError::DuplicateChar(c) ==> exists|q: int|
                0 <= q < key@.len() && #[trigger] key@[q] == c && (exists|p: int|
                    0 <= p < q && key@[p] == c) && (forall|p1: int, p2: int|
                    0 <= p1 < p2 < q ==> key@[p1] != key@[p2])),
    {
        match try_key_map(key.as_str(), &context.alphabet) {
            Ok(m) => Ok(SubstitutionDecipherKey(m)),
            Err(e) => Err(e),
        }
    }

    /// Builds a key without validation, pairing `key[i]` with
    /// `alphabet[i]` as far as both reach; on a repeated key character the
    /// later pair wins.
    pub fn new(key: String, alphabet: &Alphabet) -> (r: Self)
        ensures
            forall|c: char|
                #[trigger] r.map().dom().contains(c) <==> exists|i: int|
                    0 <= i < key@.len() && i < alphabet@.len() && key@[i] == c,
            forall|i: int|
                0 <= i < key@.len() && i < alphabet@.len() && (forall|j: int|
                    i < j < key@.len() && j < alphabet@.len() ==> key@[j] != key@[i])
                    ==> r.map()[#[trigger] key@[i]] == alphabet@[i],
    {
        SubstitutionDecipherKey(key_map_unchecked(key.as_str(), alphabet))
    }

    /// Swaps domain and range, turning this decipher key into the matching
    /// encipher key.
    pub fn inverse(self) -> (r: SubstitutionEncipherKey)
        requires
            map_injective(self.map()),
        ensures
            r.map() == invert_char_map(self.map()),
    {
        SubstitutionEncipherKey(invert_map(&self.0))
    }
}

impl IntoDecipherKey for SubstitutionEncipherKey {
    type DecipherKey = SubstitutionDecipherKey;

    /// Inversion is meaningful only for an injective key.
    open spec fn into_decipher_req(&self) -> bool {
        map_injective(self.map())
    }

    open spec fn decipher_key_rel(&self, r: &SubstitutionDecipherKey) -> bool {
        r.map() == invert_char_map(self.map())
    }

    fn into_decipher_key(self) -> (r: SubstitutionDecipherKey)
        ensures
            self.decipher_key_rel(&r),
    {
        self.inverse()
    }
}

impl IntoEncipherKey for SubstitutionDecipherKey {
    type EncipherKey = SubstitutionEncipherKey;

    /// Inversion is meaningful only for an injective key.
    open spec fn into_encipher_req(&self) -> bool {
        map_injective(self.map())
    }

    open spec fn encipher_key_rel(&self, r: &SubstitutionEncipherKey) -> bool {
        r.map() == invert_char_map(self.map())
    }

    fn into_encipher_key(self) -> (r: SubstitutionEncipherKey)
        ensures
            self.encipher_key_rel(&r),
    {
        self.inverse()
    }
}

impl SubstitutionPartialDecipherKey {
    /// The partial character mapping this key applies.
    pub closed spec fn pmap(&self) -> Map<char, Option<char>> {
        char_part_map(self.0)
    }

    /// Wraps a partial mapping as a key.
    pub fn new(key: CharPartMap) -> (r: Self)
        ensures
            r.pmap() == char_part_map(key),
    {
        SubstitutionPartialDecipherKey(key)
    }
}

impl Substitution {
    /// The cipher's alphabet characters, in order.
    pub closed spec fn alpha(&self) -> Seq<char> {
        self.alphabet@
    }

    /// The cipher's alphabet holds pairwise distinct characters.
    #[verifier::type_invariant]
    pub open spec fn wf(&self) -> bool {
        distinct_chars(self.alpha())
    }

    pub fn new(alphabet: Alphabet) -> (r: Self)
        ensures
            r.alpha() == alphabet@,
    {
        proof {
            use_type_invariant(&alphabet);
            alphabet.lemma_distinct();
        }
        Substitution { alphabet }
    }

    /// The configured alphabet.
    pub fn alphabet(&self) -> (r: &Alphabet)
        ensures
            r@ == self.alpha(),
    {
        &self.alphabet
    }
}

impl Encipher for Substitution {
    type Key = SubstitutionEncipherKey;

    /// Each mapped character is replaced, all others pass through.
    open spec fn encipher_spec(&self, plaintext: Seq<char>, key: &SubstitutionEncipherKey) -> Seq<
        char,
    > {
        Seq::new(plaintext.len(), |i: int| subst_char(key.map(), plaintext[i]))
    }

    fn encipher(&self, plaintext: &str, key: &SubstitutionEncipherKey) -> (r: String)
        ensures
            r@ == self.encipher_spec(plaintext@, key),
    {
        let cs = chars_of(plaintext);
        let mut out: Vec<char> = Vec::new();
        let mut i: usize = 0;
        while i < cs.len()
            invariant
                i <= cs@.len(),
                cs@ == plaintext@,
                out@.len() == i,
                forall|m: int| 0 <= m < i ==> out@[m] == subst_char(key.map(), cs@[m]),
            decreases cs@.len() - i,
        {
            let c = cs[i];
            let e = match char_char_map_get(&key.0, c) {
                Some(x) => x,
                None => c,
            };
            out.push(e);
            i = i + 1;
        }
        proof {
            assert(out@ =~= self.encipher_spec(plaintext@, key));
        }
        string_of(&out)
    }
}

impl Decipher for Substitution {
    type Key = SubstitutionDecipherKey;

    /// Each mapped character is replaced, all others pass through.
    open spec fn decipher_spec(&self, ciphertext: Seq<char>, key: &SubstitutionDecipherKey) -> Seq<
        char,
    > {
        Seq::new(ciphertext.len(), |i: int| subst_char(key.map(), ciphertext[i]))
    }

    fn decipher(&self, ciphertext: &str, key: &SubstitutionDecipherKey) -> (r: String)
        ensures
            r@ == self.decipher_spec(ciphertext@, key),
    {
        let cs = chars_of(ciphertext);
        let mut out: Vec<char> = Vec::new();
        let mut i: usize = 0;
        while i < cs.len()
            invariant
                i <= cs@.len(),
                cs@ == ciphertext@,
                out@.len() == i,
                forall|m: int| 0 <= m < i ==> out@[m] == subst_char(key.map(), cs@[m]),
            decreases cs@.len() - i,
        {
            let c = cs[i];
            let e = match char_char_map_get(&key.0, c) {
                Some(x) => x,
                None => c,
            };
            out.push(e);
            i = i + 1;
        }
        proof {
            assert(out@ =~= self.decipher_spec(ciphertext@, key));
        }
        string_of(&out)
    }
}

/// What a partial mapping renders for one ciphertext character: a resolved
/// character, the placeholder glyph for an unresolved position, or the
/// character itself when it is not in the mapping.
pub open spec fn partial_char(m: Map<char, Option<char>>, c: char) -> char {
    if m.dom().contains(c) {
        match m[c] {
            Some(p) => p,
            None => '\u{FFFD}',
        }
    } else {
        c
    }
}

impl PartialDecipher for Substitution {
    type PartialKey = SubstitutionPartialDecipherKey;

    /// Unresolved positions render as the replacement glyph.
    open spec fn partial_decipher_spec(
        &self,
        ciphertext: Seq<char>,
        key: &SubstitutionPartialDecipherKey,
    ) -> Seq<char> {
        Seq::new(ciphertext.len(), |i: int| partial_char(key.pmap(), ciphertext[i]))
    }

    fn partial_decipher(&self, ciphertext: &str, key: &SubstitutionPartialDecipherKey) -> (r:
        String)
        ensures
            r@ == self.partial_decipher_spec(ciphertext@, key),
    {
        let cs = chars_of(ciphertext);
        let mut out: Vec<char> = Vec::new();
        let mut i: usize = 0;
        while i < cs.len()
            invariant
                i <= cs@.len(),
                cs@ == ciphertext@,
                out@.len() == i,
                forall|m: int| 0 <= m < i ==> out@[m] == partial_char(key.pmap(), cs@[m]),
            decreases cs@.len() - i,
        {
            let c = cs[i];
            let e = match char_part_map_get(&key.0, c) {
                Some(Some(p)) => p,
                Some(None) => '\u{FFFD}',
                None => c,
            };
            out.push(e);
            i = i + 1;
        }
        proof {
            assert(out@ =~= self.partial_decipher_spec(ciphertext@, key));
        }
        string_of(&out)
    }
}

/// A validated key is a permutation of the alphabet, so its mapping is
/// injective and closed: fit for round-tripping.
pub proof fn lemma_valid_key_wf(alpha: Seq<char>, key: Seq<char>, m: Map<char, char>)
    requires
        distinct_chars(alpha),
        distinct_chars(key),
        key.len() == alpha.len(),
        all_in_alpha(alpha, key),
        forall|c: char| #[trigger] m.dom().contains(c) <==> key.contains(c),
        forall|i: int| 0 <= i < key.len() ==> m[#[trigger] key[i]] == alpha[i],
    ensures
        substitution_key_wf(m),
{
    assert forall|a: char, b: char|
        m.dom().contains(a) && m.dom().contains(b) && m[a] == m[b] implies a == b by {
        let i = key.index_of(a);
        let j = key.index_of(b);
        assert(0 <= i < key.len() && key[i] == a);
        assert(0 <= j < key.len() && key[j] == b);
        assert(m[a] == alpha[i] && m[b] == alpha[j]);
        if i != j {
            assert(alpha[i] != alpha[j]);
        }
    }
    key.unique_seq_to_set();
    alpha.unique_seq_to_set();
    assert(key.to_set().subset_of(alpha.to_set())) by {
        assert forall|c: char| key.to_set().contains(c) implies alpha.to_set().contains(c) by {
            let i = key.index_of(c);
            assert(0 <= i < key.len() && key[i] == c);
            assert(alpha.contains(key[i]));
        }
    }
    vstd::set_lib::lemma_subset_equality(key.to_set(), alpha.to_set());
    assert forall|k: char| m.dom().contains(k) implies m.dom().contains(#[trigger] m[k]) by {
        let i = key.index_of(k);
        assert(0 <= i < key.len() && key[i] == k);
        assert(m[k] == alpha[i]);
        assert(alpha.to_set().contains(alpha[i]));
        assert(key.to_set().contains(alpha[i]));
        assert(key.contains(alpha[i]));
    }
}

/// Round trip: deciphering with the inverse of the key that enciphered
/// recovers the plaintext exactly, for every injective, closed key
/// mapping and every text.
pub proof fn lemma_substitution_round_trip(
    cipher: &Substitution,
    key: &SubstitutionEncipherKey,
    dkey: &SubstitutionDecipherKey,
    plaintext: Seq<char>,
)
    requires
        substitution_key_wf(key.map()),
        dkey.map() == invert_char_map(key.map()),
    ensures
        cipher.decipher_spec(cipher.encipher_spec(plaintext, key), dkey) == plaintext,
{
    let m = key.map();
    let inv = dkey.map();
    let enc = cipher.encipher_spec(plaintext, key);
    let dec = cipher.decipher_spec(enc, dkey);
    assert forall|i: int| 0 <= i < plaintext.len() implies dec[i] == plaintext[i] by {
        let c = plaintext[i];
        if m.dom().contains(c) {
            let e = m[c];
            assert(enc[i] == e);
            assert(inv.dom().contains(e));
            let k = choose|k: char| m.dom().contains(k) && m[k] == e;
            assert(k == c);
            assert(inv[e] == c);
        } else {
            assert(enc[i] == c);
            assert(!inv.dom().contains(c));
        }
    }
    assert(dec =~= plaintext);
}

} // verus!
