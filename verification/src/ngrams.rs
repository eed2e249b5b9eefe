//! N-gram frequency tables: mappings from n-length character sequences to
//! their frequency, normalized to parts per `SCALE` of the total
//! occurrence count.  A ranked variant additionally holds the entries
//! pre-sorted ascending by frequency, giving O(1) access to the
//! least-frequent ("long-tail") entry.

use crate::text::chars_of;
use crate::text::str_eq;
use crate::text::string_of;
use vstd::prelude::*;

verus! {

/// Frequencies are expressed in parts per `SCALE` of the total count.
pub const SCALE: u64 = 1_000_000;

/// The (characters, frequency) view of stored table entries.
pub open spec fn view_pairs(entries: Seq<(String, u64)>) -> Seq<(Seq<char>, u64)>
    decreases entries.len(),
{
    if entries.len() == 0 {
        Seq::empty()
    } else {
        view_pairs(entries.drop_last()).push((entries.last().0@, entries.last().1))
    }
}

/// The entries viewed pairwise: same length, same key and frequency at
/// each position.
pub proof fn lemma_view_pairs_index(entries: Seq<(String, u64)>, i: int)
    requires
        0 <= i < entries.len(),
    ensures
        view_pairs(entries).len() == entries.len(),
        view_pairs(entries)[i] == (entries[i].0@, entries[i].1),
    decreases entries.len(),
{
    lemma_view_pairs_len(entries);
    if i < entries.len() - 1 {
        lemma_view_pairs_index(entries.drop_last(), i);
    }
}

pub proof fn lemma_view_pairs_len(entries: Seq<(String, u64)>)
    ensures
        view_pairs(entries).len() == entries.len(),
    decreases entries.len(),
{
    if entries.len() > 0 {
        lemma_view_pairs_len(entries.drop_last());
    }
}

/// Whether the table holds the n-gram.
pub open spec fn table_contains(t: Seq<(Seq<char>, u64)>, w: Seq<char>) -> bool
    decreases t.len(),
{
    t.len() != 0 && (t.last().0 == w || table_contains(t.drop_last(), w))
}

/// The frequency the table assigns to the n-gram; zero when absent.
pub open spec fn table_lookup(t: Seq<(Seq<char>, u64)>, w: Seq<char>) -> u64
    decreases t.len(),
{
    if t.len() == 0 {
        0
    } else if t.last().0 == w {
        t.last().1
    } else {
        table_lookup(t.drop_last(), w)
    }
}

/// A well-formed table: pairwise distinct keys, frequencies within scale.
pub open spec fn table_wf(t: Seq<(Seq<char>, u64)>) -> bool {
    &&& forall|i: int, j: int| 0 <= i < j < t.len() ==> (#[trigger] t[i]).0 != (#[trigger] t[j]).0
    &&& forall|i: int| 0 <= i < t.len() ==> (#[trigger] t[i]).1 <= SCALE
}

/// In a table with distinct keys, the lookup of a present key is its
/// stored frequency.
pub proof fn lemma_table_lookup_at(t: Seq<(Seq<char>, u64)>, p: int)
    requires
        forall|i: int, j: int|
            0 <= i < j < t.len() ==> (#[trigger] t[i]).0 != (#[trigger] t[j]).0,
        0 <= p < t.len(),
    ensures
        table_contains(t, t[p].0),
        table_lookup(t, t[p].0) == t[p].1,
    decreases t.len(),
{
    if p < t.len() - 1 {
        lemma_table_lookup_at(t.drop_last(), p);
        assert(t.last().0 != t[p].0);
    }
}

/// The lookup of an absent key is zero.
pub proof fn lemma_table_lookup_absent(t: Seq<(Seq<char>, u64)>, w: Seq<char>)
    requires
        forall|i: int| 0 <= i < t.len() ==> (#[trigger] t[i]).0 != w,
    ensures
        !table_contains(t, w),
        table_lookup(t, w) == 0,
    decreases t.len(),
{
    if t.len() > 0 {
        lemma_table_lookup_absent(t.drop_last(), w);
    }
}

/// In a table whose frequencies are within scale, every lookup is too.
pub proof fn lemma_table_lookup_bound(t: Seq<(Seq<char>, u64)>, w: Seq<char>)
    requires
        forall|i: int| 0 <= i < t.len() ==> (#[trigger] t[i]).1 <= SCALE,
    ensures
        table_lookup(t, w) <= SCALE,
    decreases t.len(),
{
    if t.len() > 0 {
        lemma_table_lookup_bound(t.drop_last(), w);
    }
}

/// The frequency of a count against a total, in parts per `SCALE`;
/// zero when there is nothing to normalize by.
pub open spec fn freq_of(count: int, total: int) -> u64 {
    if total <= 0 {
        0u64
    } else {
        ((count * (SCALE as int)) / total) as u64
    }
}

/// Normalizing a count that is at most the total never exceeds the scale.
pub proof fn lemma_freq_div_bound(c: int, t: int)
    requires
        0 <= c <= t,
        0 < t,
    ensures
        0 <= (c * (SCALE as int)) / t <= SCALE,
        freq_of(c, t) == (c * (SCALE as int)) / t,
{
    assert(c * (SCALE as int) <= t * (SCALE as int)) by (nonlinear_arith)
        requires
            0 <= c <= t,
    ;
    vstd::arithmetic::div_mod::lemma_div_is_ordered(c * (SCALE as int), t * (SCALE as int), t);
    assert((t * (SCALE as int)) / t == SCALE as int) by (nonlinear_arith)
        requires
            0 < t,
    ;
    assert(c * (SCALE as int) >= 0) by (nonlinear_arith)
        requires
            c >= 0,
    ;
    vstd::arithmetic::div_mod::lemma_div_pos_is_pos(c * (SCALE as int), t);
}

/// The sum of the first `k` occurrence counts.
pub open spec fn count_sum(pv: Seq<(Seq<char>, u64)>, k: int) -> int
    decreases k,
{
    if k <= 0 {
        0
    } else {
        count_sum(pv, k - 1) + pv[k - 1].1
    }
}

/// Every count contributes to the sum, and the sum is nonnegative.
pub proof fn lemma_count_sum_bounds(pv: Seq<(Seq<char>, u64)>, k: int, i: int)
    requires
        0 <= i < k <= pv.len(),
    ensures
        count_sum(pv, k) >= pv[i].1,
        count_sum(pv, k) >= 0,
    decreases k,
{
    lemma_count_sum_nonneg(pv, k - 1);
    if i < k - 1 {
        lemma_count_sum_bounds(pv, k - 1, i);
    }
}

pub proof fn lemma_count_sum_nonneg(pv: Seq<(Seq<char>, u64)>, k: int)
    ensures
        count_sum(pv, k) >= 0,
    decreases k,
{
    if k > 0 {
        lemma_count_sum_nonneg(pv, k - 1);
    }
}

/// The first `k` pairs normalized against the given total, keeping the
/// first occurrence of each key.
pub open spec fn norm_table(pv: Seq<(Seq<char>, u64)>, total: int, k: int) -> Seq<
    (Seq<char>, u64),
>
    decreases k,
{
    if k <= 0 {
        Seq::empty()
    } else {
        let prev = norm_table(pv, total, k - 1);
        if table_contains(prev, pv[k - 1].0) {
            prev
        } else {
            prev.push((pv[k - 1].0, freq_of(pv[k - 1].1 as int, total)))
        }
    }
}

/// The window of width `n` starting at position `i`.
pub open spec fn window_at(text: Seq<char>, n: int, i: int) -> Seq<char> {
    text.subrange(i, i + n)
}

/// How many windows of width `n` the text has.
pub open spec fn window_total(text: Seq<char>, n: int) -> int {
    if text.len() >= n {
        text.len() - n + 1
    } else {
        0
    }
}

/// How many of the first `k` windows equal `w`.
pub open spec fn window_count_upto(text: Seq<char>, n: int, w: Seq<char>, k: int) -> int
    decreases k,
{
    if k <= 0 {
        0
    } else {
        window_count_upto(text, n, w, k - 1) + if window_at(text, n, k - 1) == w {
            1int
        } else {
            0int
        }
    }
}

/// The distinct windows among the first `k`, in order of first appearance.
pub open spec fn window_keys_upto(text: Seq<char>, n: int, k: int) -> Seq<Seq<char>>
    decreases k,
{
    if k <= 0 {
        Seq::empty()
    } else {
        let rest = window_keys_upto(text, n, k - 1);
        if rest.contains(window_at(text, n, k - 1)) {
            rest
        } else {
            rest.push(window_at(text, n, k - 1))
        }
    }
}

/// A window is among the keys exactly when it has appeared.
pub proof fn lemma_window_keys_complete(text: Seq<char>, n: int, w: Seq<char>, k: int)
    requires
        k >= 0,
    ensures
        window_keys_upto(text, n, k).contains(w) <==> window_count_upto(text, n, w, k) > 0,
        window_count_upto(text, n, w, k) >= 0,
        window_count_upto(text, n, w, k) <= k,
    decreases k,
{
    broadcast use vstd::seq_lib::lemma_seq_contains_after_push;

    if k > 0 {
        lemma_window_keys_complete(text, n, w, k - 1);
    }
}

/// The frequencies of the given keys in the text, in order.
pub open spec fn table_from_keys(
    text: Seq<char>,
    n: int,
    keys: Seq<Seq<char>>,
    total: int,
) -> Seq<(Seq<char>, u64)>
    decreases keys.len(),
{
    if keys.len() == 0 {
        Seq::empty()
    } else {
        table_from_keys(text, n, keys.drop_last(), total).push(
            (keys.last(), freq_of(window_count_upto(text, n, keys.last(), total), total)),
        )
    }
}

/// The n-gram table of a text: every window of width `n`, keyed in order
/// of first appearance, with its count normalized by the window total.
pub open spec fn text_table(text: Seq<char>, n: int) -> Seq<(Seq<char>, u64)> {
    let total = window_total(text, n);
    table_from_keys(text, n, window_keys_upto(text, n, total), total)
}

/// An n-gram frequency table.
pub struct Ngrams {
    entries: Vec<(String, u64)>,
}

impl View for Ngrams {
    type V = Seq<(Seq<char>, u64)>;

    closed spec fn view(&self) -> Seq<(Seq<char>, u64)> {
        view_pairs(self.entries@)
    }
}

/// Finds the position of the key in the table, scanning in order.
fn find_key(entries: &Vec<(String, u64)>, w: &str) -> (r: Option<usize>)
    ensures
        match r {
            Some(p) => p < entries@.len() && entries@[p as int].0@ == w@,
            None => forall|j: int| 0 <= j < entries@.len() ==> (#[trigger] entries@[j]).0@ != w@,
        },
{
    let mut j: usize = 0;
    while j < entries.len()
        invariant
            j <= entries@.len(),
            forall|p: int| 0 <= p < j ==> (#[trigger] entries@[p]).0@ != w@,
        decreases entries@.len() - j,
    {
        if str_eq(entries[j].0.as_str(), w) {
            return Some(j);
        }
        j = j + 1;
    }
    None
}

impl Ngrams {
    /// Distinct keys, frequencies within scale.
    #[verifier::type_invariant]
    pub open spec fn wf(&self) -> bool {
        table_wf(self@)
    }

    /// The frequency assigned to the n-gram; zero when it is absent.
    pub fn get(&self, ngram: &str) -> (r: u64)
        ensures
            r == table_lookup(self@, ngram@),
    {
        proof {
            use_type_invariant(self);
        }
        match find_key(&self.entries, ngram) {
            Some(p) => {
                proof {
                    lemma_view_pairs_index(self.entries@, p as int);
                    lemma_table_lookup_at(self@, p as int);
                }
                self.entries[p].1
            },
            None => {
                proof {
                    lemma_view_pairs_len(self.entries@);
                    assert forall|i: int| 0 <= i < self@.len() implies (#[trigger] self@[i]).0
                        != ngram@ by {
                        lemma_view_pairs_index(self.entries@, i);
                    }
                    lemma_table_lookup_absent(self@, ngram@);
                }
                0
            },
        }
    }

    /// Whether the table holds no n-grams.
    pub fn is_empty(&self) -> (r: bool)
        ensures
            r == (self@.len() == 0),
    {
        proof {
            lemma_view_pairs_len(self.entries@);
        }
        self.entries.is_empty()
    }

    /// The number of n-grams in the table.
    pub fn len(&self) -> (r: usize)
        ensures
            r == self@.len(),
    {
        proof {
            lemma_view_pairs_len(self.entries@);
        }
        self.entries.len()
    }

    /// The stored entries, each an n-gram with its frequency.
    pub fn entries(&self) -> (r: &Vec<(String, u64)>)
        ensures
            view_pairs(r@) == self@,
            table_wf(self@),
    {
        proof {
            use_type_invariant(self);
        }
        &self.entries
    }

    /// Whether the table holds the n-gram.
    pub fn contains(&self, ngram: &str) -> (r: bool)
        ensures
            r == table_contains(self@, ngram@),
    {
        proof {
            use_type_invariant(self);
        }
        match find_key(&self.entries, ngram) {
            Some(p) => {
                proof {
                    lemma_view_pairs_index(self.entries@, p as int);
                    lemma_table_lookup_at(self@, p as int);
                }
                true
            },
            None => {
                proof {
                    lemma_view_pairs_len(self.entries@);
                    assert forall|i: int| 0 <= i < self@.len() implies (#[trigger] self@[i]).0
                        != ngram@ by {
                        lemma_view_pairs_index(self.entries@, i);
                    }
                    lemma_table_lookup_absent(self@, ngram@);
                }
                false
            },
        }
    }

    /// Builds a table from raw (n-gram, occurrence count) pairs: counts
    /// are normalized by the total occurrence sum, and on a repeated
    /// n-gram the first pair wins.
    pub fn from_counts(pairs: Vec<(String, u64)>) -> (r: Ngrams)
        ensures
            r@ == norm_table(
                view_pairs(pairs@),
                count_sum(view_pairs(pairs@), pairs@.len() as int),
                pairs@.len() as int,
            ),
    {
        let ghost pv = view_pairs(pairs@);
        proof {
            lemma_view_pairs_len(pairs@);
        }
        let mut total: u128 = 0;
        let mut i: usize = 0;
        while i < pairs.len()
            invariant
                i <= pairs@.len(),
                pv == view_pairs(pairs@),
                pv.len() == pairs@.len(),
                total == count_sum(pv, i as int),
                total <= (i as u128) * (u64::MAX as u128),
            decreases pairs@.len() - i,
        {
            proof {
                lemma_view_pairs_index(pairs@, i as int);
                assert((i as u128) * (u64::MAX as u128) + (u64::MAX as u128) == ((i + 1) as u128)
                    * (u64::MAX as u128)) by (nonlinear_arith);
                assert(((i + 1) as u128) * (u64::MAX as u128) <= (u128::MAX as u128))
                    by (nonlinear_arith)
                    requires
                        0 <= i + 1 <= 0xffff_ffff_ffff_ffffu128,
                ;
            }
            total = total + (pairs[i].1 as u128);
            i = i + 1;
        }
        let mut out: Vec<(String, u64)> = Vec::new();
        let mut k: usize = 0;
        while k < pairs.len()
            invariant
                k <= pairs@.len(),
                pv == view_pairs(pairs@),
                pv.len() == pairs@.len(),
                total == count_sum(pv, pairs@.len() as int),
                view_pairs(out@) == norm_table(pv, total as int, k as int),
                forall|a: int, b: int|
                    0 <= a < b < out@.len() ==> (#[trigger] out@[a]).0@ != (#[trigger] out@[b]).0@,
                forall|a: int| 0 <= a < out@.len() ==> (#[trigger] out@[a]).1 <= SCALE,
            decreases pairs@.len() - k,
        {
            proof {
                lemma_view_pairs_index(pairs@, k as int);
                lemma_view_pairs_len(out@);
                assert forall|a: int| 0 <= a < out@.len() implies (#[trigger] view_pairs(out@)[a])
                    == (out@[a].0@, out@[a].1) by {
                    lemma_view_pairs_index(out@, a);
                }
            }
            let key = &pairs[k].0;
            let c = pairs[k].1;
            match find_key(&out, key.as_str()) {
                Some(_) => {
                    proof {
                        let p = choose|p: int|
                            0 <= p < out@.len() && (#[trigger] out@[p]).0@ == key@;
                        lemma_view_pairs_index(out@, p);
                        lemma_table_lookup_at(view_pairs(out@), p);
                        assert(table_contains(view_pairs(out@), pv[k as int].0));
                    }
                },
                None => {
                    let f: u64 = if total == 0 {
                        0
                    } else {
                        proof {
                            lemma_count_sum_bounds(pv, pv.len() as int, k as int);
                            lemma_freq_div_bound(c as int, total as int);
                        }
                        ((c as u128) * (SCALE as u128) / total) as u64
                    };
                    proof {
                        assert forall|j: int| 0 <= j < view_pairs(out@).len() implies (
                        #[trigger] view_pairs(out@)[j]).0 != pv[k as int].0 by {
                            lemma_view_pairs_index(out@, j);
                        }
                        lemma_table_lookup_absent(view_pairs(out@), pv[k as int].0);
                        assert(f == freq_of(pv[k as int].1 as int, total as int));
                    }
                    let ghost old_out = out@;
                    out.push((key.clone(), f));
                    proof {
                        assert(out@.drop_last() =~= old_out);
                        assert forall|a: int| 0 <= a < old_out.len() implies (#[trigger] out@[a])
                            == old_out[a] by {}
                    }
                },
            }
            k = k + 1;
        }
        proof {
            lemma_view_pairs_len(out@);
            assert forall|a: int, b: int|
                0 <= a < b < view_pairs(out@).len() implies (#[trigger] view_pairs(out@)[a]).0 != (
            #[trigger] view_pairs(out@)[b]).0 by {
                lemma_view_pairs_index(out@, a);
                lemma_view_pairs_index(out@, b);
            }
            assert forall|a: int| 0 <= a < view_pairs(out@).len() implies (#[trigger] view_pairs(
                out@,
            )[a]).1 <= SCALE by {
                lemma_view_pairs_index(out@, a);
            }
        }
        Ngrams { entries: out }
    }

    /// Builds the n-gram table of a text: a sliding window of width `n`
    /// over its characters, counts normalized by the number of windows.
    /// A text shorter than `n` produces an empty table.
    pub fn from_text(text: &str, n: usize) -> (r: Ngrams)
        requires
            n >= 1,
        ensures
            r@ == text_table(text@, n as int),
    {
        let cs = chars_of(text);
        if cs.len() < n {
            let entries: Vec<(String, u64)> = Vec::new();
            return Ngrams { entries };
        }
        let total_w: usize = cs.len() - n + 1;
        let ghost ni = n as int;
        let mut counts: Vec<(String, u64)> = Vec::new();
        let mut i: usize = 0;
        while i < total_w
            invariant
                i <= total_w,
                cs@ == text@,
                n >= 1,
                cs@.len() >= n,
                ni == n as int,
                total_w == window_total(text@, ni),
                counts@.len() == window_keys_upto(text@, ni, i as int).len(),
                forall|j: int|
                    0 <= j < counts@.len() ==> (#[trigger] counts@[j]).0@ == window_keys_upto(
                        text@,
                        ni,
                        i as int,
                    )[j],
                forall|j: int|
                    0 <= j < counts@.len() ==> (#[trigger] counts@[j]).1 == window_count_upto(
                        text@,
                        ni,
                        counts@[j].0@,
                        i as int,
                    ),
                forall|a: int, b: int|
                    0 <= a < b < counts@.len() ==> (#[trigger] counts@[a]).0@ != (
                    #[trigger] counts@[b]).0@,
                forall|j: int| 0 <= j < counts@.len() ==> (#[trigger] counts@[j]).1 <= i,
            decreases total_w - i,
        {
            let mut wv: Vec<char> = Vec::new();
            let mut p: usize = i;
            let cslen: usize = cs.len();
            proof {
                assert(i + n <= cs@.len());
            }
            while wv.len() < n
                invariant
                    i <= p,
                    p == i + wv@.len(),
                    wv@.len() <= n,
                    i + n <= cs@.len(),
                    cslen == cs@.len(),
                    wv@ == cs@.subrange(i as int, p as int),
                decreases n - wv@.len(),
            {
                proof {
                    assert(cs@.subrange(i as int, p + 1) =~= cs@.subrange(i as int, p as int).push(
                        cs@[p as int],
                    ));
                }
                wv.push(cs[p]);
                p = p + 1;
            }
            let w = string_of(&wv);
            proof {
                assert(w@ == window_at(text@, ni, i as int));
            }
            let ghost keys_now = window_keys_upto(text@, ni, i as int);
            match find_key(&counts, w.as_str()) {
                Some(q) => {
                    proof {
                        assert(keys_now[q as int] == w@);
                        assert(keys_now.contains(w@));
                        assert(window_keys_upto(text@, ni, i + 1) == keys_now);
                    }
                    let e = counts.remove(q);
                    let c0 = e.1;
                    counts.insert(q, (e.0, c0 + 1));
                    proof {
                        assert forall|j: int|
                            0 <= j < counts@.len() implies (#[trigger] counts@[j]).1
                            == window_count_upto(text@, ni, counts@[j].0@, i + 1) by {
                            if j == q {
                            } else {
                                assert(counts@[j].0@ != w@);
                            }
                        }
                    }
                },
                None => {
                    proof {
                        assert forall|j: int|
                            0 <= j < keys_now.len() implies #[trigger] keys_now[j] != w@ by {
                            assert(counts@[j].0@ == keys_now[j]);
                        }
                        if keys_now.contains(w@) {
                            let j = keys_now.index_of(w@);
                            assert(keys_now[j] == w@);
                        }
                        assert(!keys_now.contains(w@));
                        assert(window_keys_upto(text@, ni, i + 1) == keys_now.push(w@));
                        lemma_window_keys_complete(text@, ni, w@, i as int);
                        assert(window_count_upto(text@, ni, w@, i as int) == 0);
                    }
                    counts.push((w, 1));
                    proof {
                        assert forall|j: int|
                            0 <= j < counts@.len() implies (#[trigger] counts@[j]).1
                            == window_count_upto(text@, ni, counts@[j].0@, i + 1) by {
                            if j < counts@.len() - 1 {
                                assert(counts@[j].0@ != w@);
                            }
                        }
                    }
                },
            }
            i = i + 1;
        }
        let ghost keys = window_keys_upto(text@, ni, total_w as int);
        let total: u64 = total_w as u64;
        let mut out: Vec<(String, u64)> = Vec::new();
        let mut k: usize = 0;
        while k < counts.len()
            invariant
                k <= counts@.len(),
                cs@ == text@,
                ni == n as int,
                n >= 1,
                cs@.len() >= n,
                total_w == window_total(text@, ni),
                total == total_w as u64,
                keys == window_keys_upto(text@, ni, total_w as int),
                counts@.len() == keys.len(),
                forall|j: int| 0 <= j < counts@.len() ==> (#[trigger] counts@[j]).0@ == keys[j],
                forall|j: int|
                    0 <= j < counts@.len() ==> (#[trigger] counts@[j]).1 == window_count_upto(
                        text@,
                        ni,
                        counts@[j].0@,
                        total_w as int,
                    ),
                view_pairs(out@) == table_from_keys(text@, ni, keys.take(k as int), total as int),
            decreases counts@.len() - k,
        {
            let c = counts[k].1;
            let s2 = counts[k].0.clone();
            proof {
                lemma_window_keys_complete(text@, ni, counts@[k as int].0@, total_w as int);
                lemma_freq_div_bound(c as int, total as int);
            }
            let f: u64 = ((c as u128) * (SCALE as u128) / (total as u128)) as u64;
            let ghost old_out = out@;
            out.push((s2, f));
            proof {
                assert(out@.drop_last() =~= old_out);
                assert(keys.take(k + 1).drop_last() =~= keys.take(k as int));
                assert(keys.take(k + 1).last() == keys[k as int]);
                assert(f == freq_of(
                    window_count_upto(text@, ni, keys[k as int], total_w as int),
                    total as int,
                ));
            }
            k = k + 1;
        }
        proof {
            assert(keys.take(keys.len() as int) =~= keys);
            lemma_view_pairs_len(out@);
            lemma_table_from_keys_len(text@, ni, keys, total as int);
            assert forall|a: int, b: int|
                0 <= a < b < view_pairs(out@).len() implies (#[trigger] view_pairs(out@)[a]).0 != (
            #[trigger] view_pairs(out@)[b]).0 by {
                lemma_table_from_keys_index(text@, ni, keys, total as int, a);
                lemma_table_from_keys_index(text@, ni, keys, total as int, b);
                lemma_window_keys_distinct(text@, ni, total_w as int, a, b);
            }
            assert forall|a: int| 0 <= a < view_pairs(out@).len() implies (#[trigger] view_pairs(
                out@,
            )[a]).1 <= SCALE by {
                lemma_table_from_keys_index(text@, ni, keys, total as int, a);
                lemma_window_keys_complete(text@, ni, keys[a], total_w as int);
                if total_w > 0 {
                    lemma_freq_div_bound(
                        window_count_upto(text@, ni, keys[a], total_w as int),
                        total_w as int,
                    );
                }
            }
        }
        Ngrams { entries: out }
    }
}

/// The frequencies table has one entry per key, in order.
pub proof fn lemma_table_from_keys_index(
    text: Seq<char>,
    n: int,
    keys: Seq<Seq<char>>,
    total: int,
    i: int,
)
    requires
        0 <= i < keys.len(),
    ensures
        table_from_keys(text, n, keys, total).len() == keys.len(),
        table_from_keys(text, n, keys, total)[i].0 == keys[i],
        table_from_keys(text, n, keys, total)[i].1 == freq_of(
            window_count_upto(text, n, keys[i], total),
            total,
        ),
    decreases keys.len(),
{
    lemma_table_from_keys_len(text, n, keys, total);
    if i < keys.len() - 1 {
        lemma_table_from_keys_index(text, n, keys.drop_last(), total, i);
    }
}

pub proof fn lemma_table_from_keys_len(text: Seq<char>, n: int, keys: Seq<Seq<char>>, total: int)
    ensures
        table_from_keys(text, n, keys, total).len() == keys.len(),
    decreases keys.len(),
{
    if keys.len() > 0 {
        lemma_table_from_keys_len(text, n, keys.drop_last(), total);
    }
}

/// First-appearance window keys are pairwise distinct.
pub proof fn lemma_window_keys_distinct(text: Seq<char>, n: int, k: int, a: int, b: int)
    requires
        0 <= a < b < window_keys_upto(text, n, k).len(),
    ensures
        window_keys_upto(text, n, k)[a] != window_keys_upto(text, n, k)[b],
    decreases k,
{
    if k > 0 {
        let rest = window_keys_upto(text, n, k - 1);
        if rest.contains(window_at(text, n, k - 1)) {
            lemma_window_keys_distinct(text, n, k - 1, a, b);
        } else {
            if b < rest.len() {
                lemma_window_keys_distinct(text, n, k - 1, a, b);
            } else {
                assert(window_keys_upto(text, n, k)[b] == window_at(text, n, k - 1));
                if rest[a] == window_at(text, n, k - 1) {
                    assert(rest.contains(window_at(text, n, k - 1)));
                }
            }
        }
    }
}

/// Sorted insertion by ascending frequency: the entry lands after every
/// entry whose frequency does not exceed its own.
pub open spec fn insert_by_freq(s: Seq<(Seq<char>, u64)>, e: (Seq<char>, u64)) -> Seq<
    (Seq<char>, u64),
>
    decreases s.len(),
{
    if s.len() == 0 {
        seq![e]
    } else if s.last().1 <= e.1 {
        s.push(e)
    } else {
        insert_by_freq(s.drop_last(), e).push(s.last())
    }
}

/// Insertion sort by ascending frequency, stable for equal frequencies.
pub open spec fn sort_by_freq(s: Seq<(Seq<char>, u64)>) -> Seq<(Seq<char>, u64)>
    decreases s.len(),
{
    if s.len() == 0 {
        Seq::empty()
    } else {
        insert_by_freq(sort_by_freq(s.drop_last()), s.last())
    }
}

/// Whether the entries are ordered by ascending frequency.
pub open spec fn sorted_by_freq(s: Seq<(Seq<char>, u64)>) -> bool {
    forall|i: int, j: int| 0 <= i <= j < s.len() ==> (#[trigger] s[i]).1 <= (#[trigger] s[j]).1
}

/// Sorted insertion keeps the entries sorted and adds exactly one entry.
pub proof fn lemma_insert_by_freq_sorted(s: Seq<(Seq<char>, u64)>, e: (Seq<char>, u64))
    requires
        sorted_by_freq(s),
    ensures
        sorted_by_freq(insert_by_freq(s, e)),
        insert_by_freq(s, e).len() == s.len() + 1,
        insert_by_freq(s, e).to_multiset() == s.to_multiset().insert(e),
    decreases s.len(),
{
    broadcast use vstd::seq_lib::group_to_multiset_ensures;

    if s.len() == 0 {
        assert(seq![e] =~= Seq::empty().push(e));
        assert(Seq::<(Seq<char>, u64)>::empty().to_multiset() =~= s.to_multiset());
    } else if s.last().1 <= e.1 {
    } else {
        assert(sorted_by_freq(s.drop_last()));
        lemma_insert_by_freq_sorted(s.drop_last(), e);
        let t = insert_by_freq(s.drop_last(), e);
        assert forall|i: int| 0 <= i < t.len() implies (#[trigger] t[i]).1 <= s.last().1 by {
            lemma_insert_by_freq_members(s.drop_last(), e, i);
        }
        assert(s.drop_last().push(s.last()) =~= s);
        assert(s.drop_last().to_multiset().insert(s.last()) == s.to_multiset());
    }
}

/// Every entry of a sorted insertion is either the new entry or one of the
/// old ones.
pub proof fn lemma_insert_by_freq_members(s: Seq<(Seq<char>, u64)>, e: (Seq<char>, u64), i: int)
    requires
        0 <= i < insert_by_freq(s, e).len(),
    ensures
        insert_by_freq(s, e)[i] == e || exists|j: int|
            0 <= j < s.len() && (#[trigger] s[j]) == insert_by_freq(s, e)[i],
    decreases s.len(),
{
    if s.len() > 0 && s.last().1 > e.1 {
        if i < insert_by_freq(s, e).len() - 1 {
            lemma_insert_by_freq_members(s.drop_last(), e, i);
        }
    }
}

/// Sorted insertion is insertion at the last position whose predecessors
/// all have frequencies not exceeding the new entry's.
pub proof fn lemma_insert_by_freq_at(
    s: Seq<(Seq<char>, u64)>,
    e: (Seq<char>, u64),
    idx: int,
)
    requires
        sorted_by_freq(s),
        0 <= idx <= s.len(),
        idx == s.len() || s[idx].1 > e.1,
        idx == 0 || s[idx - 1].1 <= e.1,
    ensures
        insert_by_freq(s, e) == s.take(idx) + seq![e] + s.skip(idx),
    decreases s.len(),
{
    if s.len() == 0 {
        assert(insert_by_freq(s, e) =~= s.take(idx) + seq![e] + s.skip(idx));
    } else if s.last().1 <= e.1 {
        assert(idx == s.len());
        assert(s.take(idx) =~= s);
        assert(s.skip(idx) =~= Seq::empty());
        assert(insert_by_freq(s, e) =~= s.take(idx) + seq![e] + s.skip(idx));
    } else {
        assert(idx < s.len());
        assert(sorted_by_freq(s.drop_last()));
        lemma_insert_by_freq_at(s.drop_last(), e, idx);
        assert(s.drop_last().take(idx) =~= s.take(idx));
        assert(insert_by_freq(s, e) =~= (s.drop_last().take(idx) + seq![e] + s.drop_last().skip(
            idx,
        )).push(s.last()));
        assert((s.drop_last().take(idx) + seq![e] + s.drop_last().skip(idx)).push(s.last()) =~= s
            .take(idx) + seq![e] + s.skip(idx));
    }
}

/// The sorted view of a table is always ordered by ascending frequency.
pub proof fn lemma_sort_by_freq_sorted(s: Seq<(Seq<char>, u64)>)
    ensures
        sorted_by_freq(sort_by_freq(s)),
        sort_by_freq(s).len() == s.len(),
    decreases s.len(),
{
    if s.len() > 0 {
        lemma_sort_by_freq_sorted(s.drop_last());
        lemma_insert_by_freq_sorted(sort_by_freq(s.drop_last()), s.last());
    }
}

/// The ranked view holds exactly the entries of the underlying table:
/// sorting only reorders.
pub proof fn lemma_sort_by_freq_permutes(s: Seq<(Seq<char>, u64)>)
    ensures
        sort_by_freq(s).to_multiset() == s.to_multiset(),
    decreases s.len(),
{
    broadcast use vstd::seq_lib::group_to_multiset_ensures;

    if s.len() > 0 {
        lemma_sort_by_freq_permutes(s.drop_last());
        lemma_sort_by_freq_sorted(s.drop_last());
        lemma_insert_by_freq_sorted(sort_by_freq(s.drop_last()), s.last());
        assert(s.drop_last().push(s.last()) =~= s);
        assert(s.drop_last().to_multiset().insert(s.last()) == s.to_multiset());
    }
}

/// The long-tail bucket is least frequent: the first ranked entry's
/// frequency is at most that of every entry of the table.
pub proof fn lemma_first_rank_minimal(s: Seq<(Seq<char>, u64)>, i: int)
    requires
        0 <= i < s.len(),
    ensures
        sort_by_freq(s).len() == s.len(),
        sort_by_freq(s)[0].1 <= s[i].1,
{
    broadcast use vstd::seq_lib::group_to_multiset_ensures;

    lemma_sort_by_freq_sorted(s);
    lemma_sort_by_freq_permutes(s);
    let t = sort_by_freq(s);
    assert(s.contains(s[i]));
    assert(s.to_multiset().contains(s[i]));
    assert(t.to_multiset().contains(s[i]));
    assert(t.contains(s[i]));
    let j = t.index_of(s[i]);
    assert(0 <= j < t.len() && t[j] == s[i]);
    assert(t[0].1 <= t[j].1);
}

/// An n-gram table together with its entries pre-sorted ascending by
/// frequency.  The first ranked entry is the least-frequent n-gram, the
/// "long-tail bucket" the scorer treats as a catch-all for unseen
/// n-grams.
pub struct RankedNgrams {
    ngrams: Ngrams,
    ranks: Vec<(String, u64)>,
}

impl RankedNgrams {
    /// The underlying n-gram table.
    pub closed spec fn table(&self) -> Seq<(Seq<char>, u64)> {
        self.ngrams@
    }

    /// The entries sorted ascending by frequency.
    pub closed spec fn ranked(&self) -> Seq<(Seq<char>, u64)> {
        view_pairs(self.ranks@)
    }

    /// The ranked view is exactly the sorted underlying table.
    #[verifier::type_invariant]
    pub open spec fn wf(&self) -> bool {
        self.ranked() == sort_by_freq(self.table())
    }

    /// Re-sorts the entries of a table into ranked form.
    pub fn from_ngrams(ngrams: Ngrams) -> (r: RankedNgrams)
        ensures
            r.table() == ngrams@,
            r.ranked() == sort_by_freq(ngrams@),
    {
        let mut ranks: Vec<(String, u64)> = Vec::new();
        let mut k: usize = 0;
        proof {
            lemma_view_pairs_len(ngrams.entries@);
        }
        while k < ngrams.entries.len()
            invariant
                k <= ngrams.entries@.len(),
                view_pairs(ngrams.entries@).len() == ngrams.entries@.len(),
                view_pairs(ranks@) == sort_by_freq(view_pairs(ngrams.entries@).take(k as int)),
                sorted_by_freq(view_pairs(ranks@)),
                ranks@.len() == k,
            decreases ngrams.entries@.len() - k,
        {
            let e = &ngrams.entries[k];
            let sk = e.0.clone();
            let f = e.1;
            let ghost ev = (e.0@, e.1);
            let ghost old_ranks = ranks@;
            let ghost rv = view_pairs(ranks@);
            proof {
                lemma_view_pairs_len(ranks@);
                assert forall|a: int| 0 <= a < ranks@.len() implies #[trigger] rv[a] == (
                    ranks@[a].0@,
                    ranks@[a].1,
                ) by {
                    lemma_view_pairs_index(ranks@, a);
                }
            }
            let idx = rank_insert_pos(&ranks, f);
            ranks.insert(idx, (sk, f));
            proof {
                lemma_insert_by_freq_at(rv, ev, idx as int);
                lemma_insert_by_freq_sorted(rv, ev);
                lemma_view_pairs_len(ranks@);
                assert forall|a: int| 0 <= a < ranks@.len() implies #[trigger] view_pairs(ranks@)[a]
                    == (rv.take(idx as int) + seq![ev] + rv.skip(idx as int))[a] by {
                    lemma_view_pairs_index(ranks@, a);
                    if a < idx {
                        assert(ranks@[a] == old_ranks[a]);
                    } else if a == idx {
                    } else {
                        assert(ranks@[a] == old_ranks[a - 1]);
                    }
                }
                assert(view_pairs(ranks@) =~= insert_by_freq(rv, ev));
                lemma_view_pairs_index(ngrams.entries@, k as int);
                assert(view_pairs(ngrams.entries@).take(k + 1).drop_last() =~= view_pairs(
                    ngrams.entries@,
                ).take(k as int));
                assert(view_pairs(ngrams.entries@).take(k + 1).last() == ev);
            }
            k = k + 1;
        }
        proof {
            assert(view_pairs(ngrams.entries@).take(ngrams.entries@.len() as int) =~= view_pairs(
                ngrams.entries@,
            ));
        }
        RankedNgrams { ngrams, ranks }
    }

    /// Builds a ranked table from raw (n-gram, occurrence count) pairs.
    pub fn from_counts(pairs: Vec<(String, u64)>) -> (r: RankedNgrams)
        ensures
            r.table() == norm_table(
                view_pairs(pairs@),
                count_sum(view_pairs(pairs@), pairs@.len() as int),
                pairs@.len() as int,
            ),
            r.ranked() == sort_by_freq(r.table()),
    {
        Self::from_ngrams(Ngrams::from_counts(pairs))
    }

    /// Builds the ranked n-gram table of a text.
    pub fn from_text(text: &str, n: usize) -> (r: RankedNgrams)
        requires
            n >= 1,
        ensures
            r.table() == text_table(text@, n as int),
            r.ranked() == sort_by_freq(r.table()),
    {
        Self::from_ngrams(Ngrams::from_text(text, n))
    }

    /// The frequency assigned to the n-gram; zero when it is absent.
    pub fn get(&self, ngram: &str) -> (r: u64)
        ensures
            r == table_lookup(self.table(), ngram@),
    {
        self.ngrams.get(ngram)
    }

    /// Whether the table holds no n-grams.
    pub fn is_empty(&self) -> (r: bool)
        ensures
            r == (self.ranked().len() == 0),
    {
        proof {
            lemma_view_pairs_len(self.ranks@);
        }
        self.ranks.is_empty()
    }

    /// The least-frequent entry, when the table is not empty.
    pub fn first(&self) -> (r: Option<&(String, u64)>)
        ensures
            match r {
                Some(e) => self.ranked().len() > 0 && (e.0@, e.1) == self.ranked()[0],
                None => self.ranked().len() == 0,
            },
    {
        proof {
            lemma_view_pairs_len(self.ranks@);
            if self.ranks@.len() > 0 {
                lemma_view_pairs_index(self.ranks@, 0);
            }
        }
        if self.ranks.len() == 0 {
            None
        } else {
            Some(&self.ranks[0])
        }
    }

    /// The most-frequent entry, when the table is not empty.
    pub fn last(&self) -> (r: Option<&(String, u64)>)
        ensures
            match r {
                Some(e) => self.ranked().len() > 0 && (e.0@, e.1) == self.ranked()[self.ranked().len()
                    - 1],
                None => self.ranked().len() == 0,
            },
    {
        proof {
            lemma_view_pairs_len(self.ranks@);
            if self.ranks@.len() > 0 {
                lemma_view_pairs_index(self.ranks@, self.ranks@.len() - 1);
            }
        }
        if self.ranks.len() == 0 {
            None
        } else {
            Some(&self.ranks[self.ranks.len() - 1])
        }
    }

    /// The underlying table's entries.
    pub fn entries(&self) -> (r: &Vec<(String, u64)>)
        ensures
            view_pairs(r@) == self.table(),
            table_wf(self.table()),
            self.ranked() == sort_by_freq(self.table()),
    {
        proof {
            use_type_invariant(self);
        }
        self.ngrams.entries()
    }

    /// Whether the underlying table holds the n-gram.
    pub fn contains(&self, ngram: &str) -> (r: bool)
        ensures
            r == table_contains(self.table(), ngram@),
    {
        self.ngrams.contains(ngram)
    }

    /// The ranked entries, ascending by frequency.
    pub fn ranks(&self) -> (r: &Vec<(String, u64)>)
        ensures
            view_pairs(r@) == self.ranked(),
    {
        &self.ranks
    }
}

/// Finds the position where an entry of the given frequency is inserted:
/// after every entry whose frequency does not exceed it.
fn rank_insert_pos(ranks: &Vec<(String, u64)>, f: u64) -> (r: usize)
    ensures
        r <= ranks@.len(),
        r == ranks@.len() || ranks@[r as int].1 > f,
        r == 0 || ranks@[r - 1].1 <= f,
{
    let mut idx: usize = ranks.len();
    while idx > 0
        invariant
            idx <= ranks@.len(),
            forall|m: int| idx <= m < ranks@.len() ==> (#[trigger] ranks@[m]).1 > f,
        decreases idx,
    {
        if ranks[idx - 1].1 <= f {
            return idx;
        }
        idx = idx - 1;
    }
    idx
}

} // verus!
