//! The keystream pairing discipline shared by the Vigenère and Autokey
//! ciphers: in whitespace-skip mode a whitespace character is echoed
//! untouched and does not consume a keystream character, while every other
//! character is paired with the next keystream character.

use crate::text::is_space_char;
use vstd::prelude::*;

verus! {

/// Whether a character consumes a keystream character.
pub open spec fn effective_char(skip: bool, c: char) -> bool {
    !(skip && is_space_char(c))
}

/// The keystream-consuming characters among the first `n` of the text, in
/// order.
pub open spec fn effective_prefix(text: Seq<char>, skip: bool, n: int) -> Seq<char>
    decreases n,
{
    if n <= 0 {
        Seq::empty()
    } else {
        effective_prefix(text, skip, n - 1) + if effective_char(skip, text[n - 1]) {
            seq![text[n - 1]]
        } else {
            Seq::empty()
        }
    }
}

/// How many keystream characters the first `n` text characters consume.
pub open spec fn keystream_pos(text: Seq<char>, skip: bool, n: int) -> int {
    effective_prefix(text, skip, n).len() as int
}

/// The keystream position never exceeds the number of characters seen.
pub proof fn lemma_keystream_pos_bound(text: Seq<char>, skip: bool, n: int)
    requires
        n >= 0,
    ensures
        0 <= keystream_pos(text, skip, n) <= n,
    decreases n,
{
    if n > 0 {
        lemma_keystream_pos_bound(text, skip, n - 1);
    }
}

/// Texts with the same pattern of keystream-consuming positions consume
/// keystream characters at the same rate.
pub proof fn lemma_keystream_pos_congruent(s: Seq<char>, t: Seq<char>, skip: bool, n: int)
    requires
        forall|i: int|
            0 <= i < n ==> effective_char(skip, s[i]) == effective_char(skip, t[i]),
    ensures
        keystream_pos(s, skip, n) == keystream_pos(t, skip, n),
    decreases n,
{
    if n > 0 {
        lemma_keystream_pos_congruent(s, t, skip, n - 1);
    }
}

/// The keystream-consuming characters of text `out` selected at the
/// positions where text `c` consumes keystream characters.  The Autokey
/// decipherment extends its keystream with recovered plaintext at exactly
/// the ciphertext's keystream-consuming positions.
pub open spec fn effective_sel(c: Seq<char>, out: Seq<char>, skip: bool, n: int) -> Seq<char>
    decreases n,
{
    if n <= 0 {
        Seq::empty()
    } else {
        effective_sel(c, out, skip, n - 1) + if effective_char(skip, c[n - 1]) {
            seq![out[n - 1]]
        } else {
            Seq::empty()
        }
    }
}

/// Selection by `c`'s pattern yields exactly as many characters as `c`
/// consumes keystream characters.
pub proof fn lemma_effective_sel_len(c: Seq<char>, out: Seq<char>, skip: bool, n: int)
    requires
        n >= 0,
    ensures
        effective_sel(c, out, skip, n).len() == keystream_pos(c, skip, n),
    decreases n,
{
    if n > 0 {
        lemma_effective_sel_len(c, out, skip, n - 1);
    }
}

/// `effective_sel` reads only the first `n` characters of `out`.
pub proof fn lemma_effective_sel_agrees(
    c: Seq<char>,
    out1: Seq<char>,
    out2: Seq<char>,
    skip: bool,
    n: int,
)
    requires
        forall|i: int| 0 <= i < n ==> out1[i] == out2[i],
    ensures
        effective_sel(c, out1, skip, n) == effective_sel(c, out2, skip, n),
    decreases n,
{
    if n > 0 {
        lemma_effective_sel_agrees(c, out1, out2, skip, n - 1);
    }
}

/// When `out` agrees with `t` and `c` consumes keystream characters exactly
/// where `t` does, selecting from `out` by `c`'s pattern yields the
/// keystream-consuming characters of `t`.
pub proof fn lemma_effective_sel_matches_prefix(
    c: Seq<char>,
    out: Seq<char>,
    t: Seq<char>,
    skip: bool,
    n: int,
)
    requires
        forall|i: int| 0 <= i < n ==> out[i] == t[i],
        forall|i: int|
            0 <= i < n ==> effective_char(skip, c[i]) == effective_char(skip, t[i]),
    ensures
        effective_sel(c, out, skip, n) == effective_prefix(t, skip, n),
    decreases n,
{
    if n > 0 {
        lemma_effective_sel_matches_prefix(c, out, t, skip, n - 1);
    }
}

} // verus!
