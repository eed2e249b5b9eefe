//! The attack drivers: sequential brute force over the Caesar key space,
//! and a dictionary attack that parses raw key lines, skipping malformed
//! ones, and funnels every candidate into one scoreboard.

use crate::caesar::Caesar;
use crate::caesar::caesar_keys;
use crate::cipher::Decipher;
use crate::cipher::KeysIterator;
use crate::cipher::ParseKey;
use crate::language::confidence_spec;
use crate::ngrams::RankedNgrams;
use crate::scoreboard::Scoreboard;
use crate::scoreboard::board_insert;
use vstd::prelude::*;

verus! {

/// A message carrying one candidate decipherment from a deciphering
/// producer to the scoring collector.
pub enum CandidateCollectorMsg {
    CandidatePlaintext { text: String, key: String },
}

/// The scoreboard contents after brute-forcing the first `k` Caesar keys:
/// each key's decipherment is scored and inserted in turn.
pub open spec fn brute_force_fold(
    cipher: &Caesar,
    ct: Seq<char>,
    tabs: Seq<(usize, RankedNgrams)>,
    order: usize,
    b0: Seq<(u64, Seq<char>, Seq<char>)>,
    cap: int,
    k: int,
) -> Seq<(u64, Seq<char>, Seq<char>)>
    decreases k,
{
    if k <= 0 {
        b0
    } else {
        let prev = brute_force_fold(cipher, ct, tabs, order, b0, cap, k - 1);
        let key = caesar_keys(cipher.alpha())[k - 1];
        let text = cipher.decipher_spec(ct, &key);
        board_insert(prev, (confidence_spec(tabs, order, text), text, seq![key@]), cap)
    }
}

/// Brute force: deciphers the ciphertext under every Caesar key in
/// alphabet order, scoring each candidate into the scoreboard.
pub fn brute_force(cipher: &Caesar, ciphertext: &str, scoreboard: &mut Scoreboard)
    ensures
        final(scoreboard).board() == brute_force_fold(
            cipher,
            ciphertext@,
            old(scoreboard).conf().spec_language().tables(),
            old(scoreboard).conf().spec_order(),
            old(scoreboard).board(),
            old(scoreboard).cap(),
            caesar_keys(cipher.alpha()).len() as int,
        ),
        final(scoreboard).cap() == old(scoreboard).cap(),
        final(scoreboard).conf() == old(scoreboard).conf(),
{
    let ghost tabs = scoreboard.conf().spec_language().tables();
    let ghost order = scoreboard.conf().spec_order();
    let ghost b0 = scoreboard.board();
    let ghost cap = scoreboard.cap();
    let keys = cipher.keys_iter();
    let mut i: usize = 0;
    while i < keys.len()
        invariant
            i <= keys@.len(),
            keys@ == caesar_keys(cipher.alpha()),
            scoreboard.board() == brute_force_fold(
                cipher,
                ciphertext@,
                tabs,
                order,
                b0,
                cap,
                i as int,
            ),
            scoreboard.cap() == cap,
            scoreboard.conf() == old(scoreboard).conf(),
            tabs == scoreboard.conf().spec_language().tables(),
            order == scoreboard.conf().spec_order(),
        decreases keys@.len() - i,
    {
        let text = cipher.decipher(ciphertext, &keys[i]);
        let label = keys[i].label();
        scoreboard.insert(text, label);
        i = i + 1;
    }
}

/// The scoreboard contents after consuming the first `k` dictionary
/// lines: a line that parses as a key has its decipherment scored and
/// inserted; a malformed line is skipped.
pub open spec fn dictionary_fold<D: ParseKey>(
    cipher: &D,
    ct: Seq<char>,
    lines: Seq<String>,
    tabs: Seq<(usize, RankedNgrams)>,
    order: usize,
    b0: Seq<(u64, Seq<char>, Seq<char>)>,
    cap: int,
    k: int,
) -> Seq<(u64, Seq<char>, Seq<char>)>
    decreases k,
{
    if k <= 0 {
        b0
    } else {
        let prev = dictionary_fold(cipher, ct, lines, tabs, order, b0, cap, k - 1);
        let line = lines[k - 1]@;
        if cipher.parse_key_ok(line) {
            let text = cipher.dict_text_spec(ct, line);
            board_insert(prev, (confidence_spec(tabs, order, text), text, line), cap)
        } else {
            prev
        }
    }
}

/// Dictionary attack: parses each raw key line, skipping malformed ones
/// with no effect on the run, deciphers under each parsed key and scores
/// the candidate into the scoreboard.
pub fn dictionary_attack<D: ParseKey>(
    cipher: &D,
    ciphertext: &str,
    dictionary: &Vec<String>,
    scoreboard: &mut Scoreboard,
)
    ensures
        final(scoreboard).board() == dictionary_fold(
            cipher,
            ciphertext@,
            dictionary@,
            old(scoreboard).conf().spec_language().tables(),
            old(scoreboard).conf().spec_order(),
            old(scoreboard).board(),
            old(scoreboard).cap(),
            dictionary@.len() as int,
        ),
        final(scoreboard).cap() == old(scoreboard).cap(),
        final(scoreboard).conf() == old(scoreboard).conf(),
{
    let ghost tabs = scoreboard.conf().spec_language().tables();
    let ghost order = scoreboard.conf().spec_order();
    let ghost b0 = scoreboard.board();
    let ghost cap = scoreboard.cap();
    let mut i: usize = 0;
    while i < dictionary.len()
        invariant
            i <= dictionary@.len(),
            scoreboard.board() == dictionary_fold(
                cipher,
                ciphertext@,
                dictionary@,
                tabs,
                order,
                b0,
                cap,
                i as int,
            ),
            scoreboard.cap() == cap,
            scoreboard.conf() == old(scoreboard).conf(),
            tabs == scoreboard.conf().spec_language().tables(),
            order == scoreboard.conf().spec_order(),
        decreases dictionary@.len() - i,
    {
        match cipher.try_parse_key(dictionary[i].as_str()) {
            Some(k) => {
                proof {
                    assert(cipher.decipher_spec(ciphertext@, &k) == cipher.dict_text_spec(
                        ciphertext@,
                        dictionary@[i as int]@,
                    ));
                }
                let text = cipher.decipher(ciphertext, &k);
                scoreboard.insert(text, dictionary[i].clone());
            },
            None => {},
        }
        i = i + 1;
    }
}

} // verus!
