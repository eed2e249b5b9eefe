//! An ordered, indexable character set with modular add/subtract arithmetic.
//! Every cipher performs its character-level arithmetic through an
//! `Alphabet`; characters outside the alphabet pass through unchanged.

use crate::charmap::CharIndexMap;
use crate::charmap::char_index_map;
use crate::charmap::char_index_map_get;
use crate::charmap::char_index_map_insert;
use crate::charmap::char_index_map_new;
use crate::text::chars_of;
use vstd::prelude::*;

verus! {

/// An ordered sequence of unique characters plus a reverse lookup from each
/// character to its position.
pub struct Alphabet {
    chars: Vec<char>,
    indexes: CharIndexMap,
}

impl View for Alphabet {
    type V = Seq<char>;

    closed spec fn view(&self) -> Seq<char> {
        self.chars@
    }
}

/// The result of keeping the first occurrence of each character, in order.
pub open spec fn dedup_chars(s: Seq<char>) -> Seq<char>
    decreases s.len(),
{
    if s.len() == 0 {
        Seq::empty()
    } else {
        let rest = dedup_chars(s.drop_last());
        if rest.contains(s.last()) {
            rest
        } else {
            rest.push(s.last())
        }
    }
}

/// Whether the characters of a sequence are pairwise distinct.
pub open spec fn distinct_chars(s: Seq<char>) -> bool {
    forall|i: int, j: int| 0 <= i < j < s.len() ==> s[i] != s[j]
}

/// Treats both characters as positions in the sequence, adds them modulo
/// its length and maps back; if either character is absent the first is
/// returned unchanged.
pub open spec fn char_add(s: Seq<char>, a: char, b: char) -> char {
    if s.contains(a) && s.contains(b) {
        s[(s.index_of(a) + s.index_of(b)) % (s.len() as int)]
    } else {
        a
    }
}

/// The inverse operation of `char_add`: subtracts positions modulo the
/// sequence length, with the same passthrough rule.
pub open spec fn char_sub(s: Seq<char>, a: char, b: char) -> char {
    if s.contains(a) && s.contains(b) {
        s[(s.index_of(a) - s.index_of(b) + s.len()) % (s.len() as int)]
    } else {
        a
    }
}

impl Alphabet {
    /// The characters are pairwise distinct and the index map sends each
    /// character to its position.
    #[verifier::type_invariant]
    pub closed spec fn wf(&self) -> bool {
        &&& distinct_chars(self.chars@)
        &&& forall|c: char|
            #[trigger] char_index_map(self.indexes).dom().contains(c) <==> self.chars@.contains(c)
        &&& forall|i: int|
            0 <= i < self.chars@.len() ==> char_index_map(self.indexes)[#[trigger] self.chars@[i]]
                == i as usize
    }

    /// Builds an alphabet from the given characters, keeping the first
    /// occurrence of each.
    pub fn from_chars(cs: &Vec<char>) -> (r: Alphabet)
        ensures
            r@ == dedup_chars(cs@),
    {
        let mut chars: Vec<char> = Vec::new();
        let mut indexes = char_index_map_new();
        let mut i: usize = 0;
        proof {
            assert(cs@.take(0) =~= Seq::<char>::empty());
        }
        while i < cs.len()
            invariant
                i <= cs@.len(),
                chars@ == dedup_chars(cs@.take(i as int)),
                forall|p: int, q: int| 0 <= p < q < chars@.len() ==> chars@[p] != chars@[q],
                forall|c: char|
                    #[trigger] char_index_map(indexes).dom().contains(c) <==> chars@.contains(c),
                forall|p: int|
                    0 <= p < chars@.len() ==> char_index_map(indexes)[#[trigger] chars@[p]] == p
                        as usize,
            decreases cs@.len() - i,
        {
            let c = cs[i];
            let present = match char_index_map_get(&indexes, c) {
                Some(_) => true,
                None => false,
            };
            proof {
                assert(cs@.take(i + 1).drop_last() =~= cs@.take(i as int));
                assert(cs@.take(i + 1).last() == cs@[i as int]);
            }
            if !present {
                let pos = chars.len();
                chars.push(c);
                char_index_map_insert(&mut indexes, c, pos);
                proof {
                    broadcast use vstd::seq_lib::lemma_seq_contains_after_push;

                    assert(forall|p: int|
                        0 <= p < chars@.len() - 1 ==> chars@[p] == chars@.drop_last()[p]);
                    assert(chars@.drop_last() =~= chars@.take(chars@.len() - 1));
                    assert(chars@ == chars@.take(chars@.len() - 1).push(c));
                }
            }
            i = i + 1;
        }
        proof {
            assert(cs@.take(cs@.len() as int) =~= cs@);
        }
        Alphabet { chars, indexes }
    }

    /// The Latin alphabet in order, `'a'` through `'z'`.
    pub open spec fn latin_chars() -> Seq<char> {
        seq![
            'a', 'b', 'c', 'd', 'e', 'f', 'g', 'h', 'i', 'j', 'k', 'l', 'm', 'n', 'o', 'p', 'q',
            'r', 's', 't', 'u', 'v', 'w', 'x', 'y', 'z',
        ]
    }

    /// The lower-case Latin alphabet.
    pub fn latin() -> (r: Alphabet)
        ensures
            r@ == dedup_chars(Self::latin_chars()),
    {
        let cs: Vec<char> = vec![
            'a', 'b', 'c', 'd', 'e', 'f', 'g', 'h', 'i', 'j', 'k', 'l', 'm', 'n', 'o', 'p', 'q',
            'r', 's', 't', 'u', 'v', 'w', 'x', 'y', 'z',
        ];
        proof {
            assert(cs@ =~= Self::latin_chars());
        }
        Alphabet::from_chars(&cs)
    }

    /// The Russian alphabet in order.
    pub open spec fn russian_chars() -> Seq<char> {
        seq![
            'а', 'б', 'в', 'г', 'д', 'е', 'ё', 'ж', 'з', 'и', 'й', 'к', 'л', 'м', 'н', 'о', 'п',
            'р', 'с', 'т', 'у', 'ф', 'х', 'ц', 'ч', 'ш', 'щ', 'ъ', 'ы', 'ь', 'э', 'ю', 'я',
        ]
    }

    /// The lower-case Russian alphabet.
    pub fn russian() -> (r: Alphabet)
        ensures
            r@ == dedup_chars(Self::russian_chars()),
    {
        let cs: Vec<char> = vec![
            'а', 'б', 'в', 'г', 'д', 'е', 'ё', 'ж', 'з', 'и', 'й', 'к', 'л', 'м', 'н', 'о', 'п',
            'р', 'с', 'т', 'у', 'ф', 'х', 'ц', 'ч', 'ш', 'щ', 'ъ', 'ы', 'ь', 'э', 'ю', 'я',
        ];
        proof {
            assert(cs@ =~= Self::russian_chars());
        }
        Alphabet::from_chars(&cs)
    }

    /// The Greek alphabet in order.
    pub open spec fn greek_chars() -> Seq<char> {
        seq![
            'α', 'β', 'γ', 'δ', 'ε', 'ζ', 'η', 'θ', 'ι', 'κ', 'λ', 'μ', 'ν', 'ξ', 'ο', 'π', 'ρ',
            'σ', 'τ', 'υ', 'φ', 'χ', 'ψ', 'ω',
        ]
    }

    /// The lower-case Greek alphabet.
    pub fn greek() -> (r: Alphabet)
        ensures
            r@ == dedup_chars(Self::greek_chars()),
    {
        let cs: Vec<char> = vec![
            'α', 'β', 'γ', 'δ', 'ε', 'ζ', 'η', 'θ', 'ι', 'κ', 'λ', 'μ', 'ν', 'ξ', 'ο', 'π', 'ρ',
            'σ', 'τ', 'υ', 'φ', 'χ', 'ψ', 'ω',
        ];
        proof {
            assert(cs@ =~= Self::greek_chars());
        }
        Alphabet::from_chars(&cs)
    }

    /// The character at the given position, when the position is in range.
    pub fn get(&self, i: usize) -> (r: Option<char>)
        ensures
            r == if i < self@.len() {
                Some(self@[i as int])
            } else {
                None::<char>
            },
    {
        if i < self.chars.len() {
            Some(self.chars[i])
        } else {
            None
        }
    }

    /// The position of the given character, when it belongs to the alphabet.
    pub fn get_index(&self, c: char) -> (r: Option<usize>)
        ensures
            r == if self@.contains(c) {
                Some(self@.index_of(c) as usize)
            } else {
                None::<usize>
            },
            self@.contains(c) ==> 0 <= self@.index_of(c) < self@.len() && self@[self@.index_of(c)]
                == c,
    {
        proof {
            use_type_invariant(self);
            if self@.contains(c) {
                let k = self@.index_of(c);
                assert(0 <= k < self@.len() && self@[k] == c);
            }
        }
        char_index_map_get(&self.indexes, c)
    }

    /// The alphabet's characters, in order.
    pub fn chars(&self) -> (r: &Vec<char>)
        ensures
            r@ == self@,
    {
        &self.chars
    }

    /// The number of characters in the alphabet.
    pub fn len(&self) -> (r: usize)
        ensures
            r == self@.len(),
    {
        self.chars.len()
    }

    /// Whether the character belongs to the alphabet.
    pub fn contains(&self, c: char) -> (r: bool)
        ensures
            r == self@.contains(c),
    {
        match self.get_index(c) {
            Some(_) => true,
            None => false,
        }
    }

    /// Whether every character of the string belongs to the alphabet.
    pub fn all(&self, s: String) -> (r: bool)
        ensures
            r == forall|i: int| 0 <= i < s@.len() ==> self@.contains(#[trigger] s@[i]),
    {
        let cs = chars_of(s.as_str());
        let mut i: usize = 0;
        while i < cs.len()
            invariant
                i <= cs@.len(),
                cs@ == s@,
                forall|j: int| 0 <= j < i ==> self@.contains(#[trigger] s@[j]),
            decreases cs@.len() - i,
        {
            if !self.contains(cs[i]) {
                return false;
            }
            i = i + 1;
        }
        true
    }

    /// Treats both characters as positions, adds them modulo the alphabet
    /// length and maps back; if either character is absent the first is
    /// returned unchanged.
    pub open spec fn spec_add(&self, a: char, b: char) -> char {
        char_add(self@, a, b)
    }

    /// The inverse operation of `spec_add`: subtracts positions modulo the
    /// alphabet length, with the same passthrough rule.
    pub open spec fn spec_sub(&self, a: char, b: char) -> char {
        char_sub(self@, a, b)
    }

    /// Modular addition of two characters over the alphabet.
    pub fn add(&self, a: char, b: char) -> (r: char)
        ensures
            r == self.spec_add(a, b),
    {
        match (self.get_index(a), self.get_index(b)) {
            (Some(ai), Some(bi)) => {
                let m = self.len();
                let s = if ai >= m - bi {
                    ai - (m - bi)
                } else {
                    ai + bi
                };
                proof {
                    let x = self@.index_of(a) + self@.index_of(b);
                    let mi = self@.len() as int;
                    if x < mi {
                        assert(x % mi == x) by {
                            vstd::arithmetic::div_mod::lemma_small_mod(x as nat, mi as nat);
                        }
                    } else {
                        assert((x - mi) % mi == x - mi) by {
                            vstd::arithmetic::div_mod::lemma_small_mod((x - mi) as nat, mi as nat);
                        }
                        assert(x % mi == (x - mi + mi) % mi);
                        assert((x - mi + mi) % mi == (x - mi) % mi) by {
                            vstd::arithmetic::div_mod::lemma_mod_add_multiples_vanish(
                                x - mi,
                                mi,
                            );
                        }
                    }
                }
                match self.get(s) {
                    Some(c) => c,
                    None => a,
                }
            },
            _ => a,
        }
    }

    /// Modular subtraction of two characters over the alphabet.
    pub fn sub(&self, a: char, b: char) -> (r: char)
        ensures
            r == self.spec_sub(a, b),
    {
        match (self.get_index(a), self.get_index(b)) {
            (Some(ai), Some(bi)) => {
                let m = self.len();
                let s = if ai >= bi {
                    ai - bi
                } else {
                    m - (bi - ai)
                };
                proof {
                    let x = self@.index_of(a) - self@.index_of(b) + self@.len();
                    let mi = self@.len() as int;
                    if x < mi {
                        assert(x % mi == x) by {
                            vstd::arithmetic::div_mod::lemma_small_mod(x as nat, mi as nat);
                        }
                    } else {
                        assert((x - mi) % mi == x - mi) by {
                            vstd::arithmetic::div_mod::lemma_small_mod((x - mi) as nat, mi as nat);
                        }
                        assert(x % mi == (x - mi + mi) % mi);
                        assert((x - mi + mi) % mi == (x - mi) % mi) by {
                            vstd::arithmetic::div_mod::lemma_mod_add_multiples_vanish(
                                x - mi,
                                mi,
                            );
                        }
                    }
                }
                match self.get(s) {
                    Some(c) => c,
                    None => a,
                }
            },
            _ => a,
        }
    }
}

impl Alphabet {
    /// A well-formed alphabet holds pairwise distinct characters.
    pub proof fn lemma_distinct(&self)
        requires
            self.wf(),
        ensures
            distinct_chars(self@),
    {
    }
}

/// Alphabet arithmetic closure: for characters of the alphabet, `add` and
/// `sub` stay inside the alphabet, and for any characters at all `sub`
/// undoes `add`.
pub proof fn lemma_sub_of_add(s: Seq<char>, a: char, b: char)
    requires
        distinct_chars(s),
    ensures
        s.contains(a) && s.contains(b) ==> s.contains(char_add(s, a, b)) && s.contains(
            char_sub(s, a, b),
        ),
        char_sub(s, char_add(s, a, b), b) == a,
{
    if s.contains(a) && s.contains(b) {
        let m = s.len() as int;
        let ia = s.index_of(a);
        let ib = s.index_of(b);
        assert(0 <= ia < m && s[ia] == a);
        assert(0 <= ib < m && s[ib] == b);
        let ic = (ia + ib) % m;
        vstd::arithmetic::div_mod::lemma_mod_bound(ia + ib, m);
        let c = s[ic];
        assert(s.contains(c));
        assert(char_add(s, a, b) == c);
        // the index of c is ic, since positions are unique
        let jc = s.index_of(c);
        assert(0 <= jc < m && s[jc] == c);
        assert(jc == ic) by {
            if jc != ic {
                assert(s[jc] == s[ic]);
            }
        }
        let id = (ic - ib + m) % m;
        vstd::arithmetic::div_mod::lemma_mod_bound(ic - ib + m, m);
        assert(char_sub(s, c, b) == s[id]);
        // (ia + ib) % m - ib + m is congruent to ia modulo m
        assert(id == ia) by {
            if ia + ib < m {
                assert(ic == ia + ib) by {
                    vstd::arithmetic::div_mod::lemma_small_mod((ia + ib) as nat, m as nat);
                }
                assert(id == (ia + m) % m);
                vstd::arithmetic::div_mod::lemma_mod_add_multiples_vanish(ia, m);
                assert((ia + m) % m == ia % m);
                assert(ia % m == ia) by {
                    vstd::arithmetic::div_mod::lemma_small_mod(ia as nat, m as nat);
                }
            } else {
                assert(ic == ia + ib - m) by {
                    vstd::arithmetic::div_mod::lemma_mod_add_multiples_vanish(ia + ib - m, m);
                    vstd::arithmetic::div_mod::lemma_small_mod((ia + ib - m) as nat, m as nat);
                    assert((ia + ib - m) % m == ia + ib - m);
                }
                assert(id == ia % m) by {
                    assert(ic - ib + m == ia + ib - m - ib + m);
                }
                assert(ia % m == ia) by {
                    vstd::arithmetic::div_mod::lemma_small_mod(ia as nat, m as nat);
                }
            }
        }
        assert(char_sub(s, char_add(s, a, b), b) == a);
        let ie = (ia - ib + m) % m;
        vstd::arithmetic::div_mod::lemma_mod_bound(ia - ib + m, m);
        assert(s.contains(char_sub(s, a, b)));
    } else {
        assert(char_add(s, a, b) == a);
        assert(char_sub(s, a, b) == a);
    }
}

} // verus!
