//! The language confidence model: ranked n-gram tables per order plus a
//! chi-squared goodness-of-fit scorer.  Lower scores mean the text is
//! closer to the modelled language.  The least-frequent ranked n-gram is
//! the "long-tail bucket": n-grams absent from the model defer their mass
//! into it instead of dividing by a zero expectation.

use crate::ngrams::RankedNgrams;
use crate::ngrams::SCALE;
use crate::ngrams::table_contains;
use crate::ngrams::table_lookup;
use crate::ngrams::table_wf;
use crate::ngrams::view_pairs;
use crate::ngrams::text_table;
use crate::ngrams::Ngrams;
use crate::text::all_alphabetic;
use crate::text::all_alphabetic_chars;
use crate::text::chars_of;
use crate::text::str_eq;
use vstd::prelude::*;

verus! {

/// Addition that stops at the largest representable score.
pub open spec fn sat_add(x: u64, y: u64) -> u64 {
    if x + y > u64::MAX {
        u64::MAX
    } else {
        (x + y) as u64
    }
}

/// One chi-squared term `(actual - expected)^2 / expected`, in score
/// units of `SCALE`; zero when the expectation is zero.
pub open spec fn chi2_term(a: u64, e: u64) -> u64 {
    if e == 0 {
        0u64
    } else {
        let d: int = if a >= e {
            a - e
        } else {
            e - a
        };
        let v = (d * d * (SCALE as int)) / (e as int);
        if v > u64::MAX {
            u64::MAX
        } else {
            v as u64
        }
    }
}

/// The (chi-squared sum, unpresent mass) accumulated over the first `k`
/// text-table entries: entries equal to the long-tail bucket or holding a
/// non-alphabetic character are skipped; entries the language knows
/// contribute a chi-squared term; entries it does not defer their mass.
pub open spec fn chi2_text_pass(
    tv: Seq<(Seq<char>, u64)>,
    lm: Seq<(Seq<char>, u64)>,
    bucket: Seq<char>,
    k: int,
) -> (u64, u64)
    decreases k,
{
    if k <= 0 {
        (0u64, 0u64)
    } else {
        let acc = chi2_text_pass(tv, lm, bucket, k - 1);
        let w = tv[k - 1].0;
        if w == bucket || !all_alphabetic(w) {
            acc
        } else {
            let a = tv[k - 1].1;
            let e = table_lookup(lm, w);
            if e > 0 {
                (sat_add(acc.0, chi2_term(a, e)), acc.1)
            } else {
                (acc.0, sat_add(acc.1, a))
            }
        }
    }
}

/// The chi-squared sum further accumulated over the first `k` language
/// entries that the text table does not hold: their actual frequency is
/// zero, so each contributes `expected * SCALE`.
pub open spec fn chi2_lang_pass(
    lm: Seq<(Seq<char>, u64)>,
    tv: Seq<(Seq<char>, u64)>,
    bucket: Seq<char>,
    k: int,
    chi0: u64,
) -> u64
    decreases k,
{
    if k <= 0 {
        chi0
    } else {
        let chi = chi2_lang_pass(lm, tv, bucket, k - 1, chi0);
        let w = lm[k - 1].0;
        if w == bucket || !all_alphabetic(w) || table_contains(tv, w) {
            chi
        } else {
            let e = lm[k - 1].1;
            if e > 0 {
                sat_add(chi, chi2_term(0u64, e))
            } else {
                chi
            }
        }
    }
}

/// The chi-squared confidence of a text table against a language table
/// with its ranked view: both passes, then one combined term for the
/// long-tail bucket carrying the bucket's own mass plus all deferred
/// unpresent mass (clamped to the full scale).  An empty language table
/// scores as maximally implausible.
pub open spec fn chi2_score(
    lm: Seq<(Seq<char>, u64)>,
    lr: Seq<(Seq<char>, u64)>,
    tv: Seq<(Seq<char>, u64)>,
) -> u64 {
    if lr.len() == 0 {
        u64::MAX
    } else {
        let bucket = lr[0].0;
        let acc = chi2_text_pass(tv, lm, bucket, tv.len() as int);
        let chi = chi2_lang_pass(lm, tv, bucket, lm.len() as int, acc.0);
        let a0 = sat_add(table_lookup(tv, bucket), acc.1);
        let abuk = if a0 > SCALE {
            SCALE
        } else {
            a0
        };
        let ebuk = table_lookup(lm, bucket);
        let bterm = if ebuk == 0 {
            if abuk > 0 {
                u64::MAX
            } else {
                0u64
            }
        } else {
            chi2_term(abuk, ebuk)
        };
        sat_add(chi, bterm)
    }
}

/// The ranked table registered for an n-gram order, if any.
pub open spec fn order_table(tabs: Seq<(usize, RankedNgrams)>, n: usize) -> Option<RankedNgrams>
    decreases tabs.len(),
{
    if tabs.len() == 0 {
        None
    } else if tabs.first().0 == n {
        Some(tabs.first().1)
    } else {
        order_table(tabs.drop_first(), n)
    }
}

/// What scoring a text at a given order yields: the maximum score when
/// the model has no data for the order, otherwise the chi-squared
/// confidence of the text's own n-gram table against the model's.
pub open spec fn confidence_spec(
    tabs: Seq<(usize, RankedNgrams)>,
    n: usize,
    text: Seq<char>,
) -> u64 {
    match order_table(tabs, n) {
        None => u64::MAX,
        Some(t) => chi2_score(t.table(), t.ranked(), text_table(text, n as int)),
    }
}

/// A language model: one ranked n-gram table per order, a ranked word
/// table, and an index-of-coincidence statistic reserved for future
/// scoring use, in parts per `SCALE`.
pub struct Language {
    word_ngrams: RankedNgrams,
    char_ngrams: Vec<(usize, RankedNgrams)>,
    index_of_coincidence: u64,
}

/// Saturating addition on scores.
fn sat_add_u64(x: u64, y: u64) -> (r: u64)
    ensures
        r == sat_add(x, y),
{
    if x > u64::MAX - y {
        u64::MAX
    } else {
        x + y
    }
}

/// One chi-squared term over in-scale frequencies.
fn chi2_term_exec(a: u64, e: u64) -> (r: u64)
    requires
        a <= SCALE,
        e <= SCALE,
    ensures
        r == chi2_term(a, e),
{
    if e == 0 {
        return 0;
    }
    let d: u64 = if a >= e {
        a - e
    } else {
        e - a
    };
    proof {
        assert((d as int) * (d as int) * (SCALE as int) <= (SCALE as int) * (SCALE as int) * (
        SCALE as int)) by (nonlinear_arith)
            requires
                0 <= d <= SCALE,
        ;
        assert((d as int) * (d as int) >= 0) by (nonlinear_arith)
            requires
                d >= 0,
        ;
    }
    let v: u128 = (d as u128) * (d as u128) * (SCALE as u128) / (e as u128);
    proof {
        assert((d as int) * (d as int) * (SCALE as int) / (e as int) <= (d as int) * (d as int) * (
        SCALE as int)) by {
            vstd::arithmetic::div_mod::lemma_div_is_ordered_by_denominator(
                (d as int) * (d as int) * (SCALE as int),
                1,
                e as int,
            );
            assert((d as int) * (d as int) * (SCALE as int) >= 0) by (nonlinear_arith)
                requires
                    d >= 0,
            ;
        }
    }
    v as u64
}

impl Language {
    /// The per-order ranked tables.
    pub closed spec fn tables(&self) -> Seq<(usize, RankedNgrams)> {
        self.char_ngrams@
    }

    /// The ranked word table.
    pub closed spec fn words(&self) -> RankedNgrams {
        self.word_ngrams
    }

    /// The index-of-coincidence statistic, in parts per `SCALE`.
    pub closed spec fn ioc(&self) -> u64 {
        self.index_of_coincidence
    }

    /// Builds a model from its parts; read-only afterwards.
    pub fn new(
        word_ngrams: RankedNgrams,
        char_ngrams: Vec<(usize, RankedNgrams)>,
        index_of_coincidence: u64,
    ) -> (r: Language)
        ensures
            r.tables() == char_ngrams@,
            r.words() == word_ngrams,
            r.ioc() == index_of_coincidence,
    {
        Language { word_ngrams, char_ngrams, index_of_coincidence }
    }

    /// The chi-squared confidence of the text at unigram order.
    pub fn text_confidence_chi2_unigram(&self, text: &str) -> (r: u64)
        ensures
            r == confidence_spec(self.tables(), 1, text@),
    {
        self.text_confidence_chi2_ngram(text, 1)
    }

    /// The chi-squared confidence of the text at bigram order.
    pub fn text_confidence_chi2_bigram(&self, text: &str) -> (r: u64)
        ensures
            r == confidence_spec(self.tables(), 2, text@),
    {
        self.text_confidence_chi2_ngram(text, 2)
    }

    /// The chi-squared confidence of the text at trigram order.
    pub fn text_confidence_chi2_trigram(&self, text: &str) -> (r: u64)
        ensures
            r == confidence_spec(self.tables(), 3, text@),
    {
        self.text_confidence_chi2_ngram(text, 3)
    }

    /// The chi-squared confidence of the text at the given n-gram order;
    /// lower is closer to the modelled language.
    pub fn text_confidence_chi2_ngram(&self, text: &str, n: usize) -> (r: u64)
        requires
            n >= 1,
        ensures
            r == confidence_spec(self.tables(), n, text@),
    {
        let mut ti: usize = 0;
        let tlen = self.char_ngrams.len();
        proof {
            assert(self.tables().skip(0) =~= self.tables());
        }
        while ti < tlen
            invariant
                n >= 1,
                ti <= tlen,
                tlen == self.tables().len(),
                order_table(self.tables(), n) == order_table(self.tables().skip(ti as int), n),
            decreases tlen - ti,
        {
            proof {
                assert(self.tables().skip(ti as int).first() == self.tables()[ti as int]);
                assert(self.tables().skip(ti as int).drop_first() =~= self.tables().skip(ti + 1));
            }
            if self.char_ngrams[ti].0 == n {
                let t = &self.char_ngrams[ti].1;
                proof {
                    assert(order_table(self.tables(), n) == Some(self.tables()[ti as int].1));
                }
                return Self::score_against(t, text, n);
            }
            ti = ti + 1;
        }
        proof {
            assert(self.tables().skip(tlen as int) =~= Seq::<(usize, RankedNgrams)>::empty());
        }
        u64::MAX
    }

    /// Scores a text against one ranked table, per `chi2_score`.
    fn score_against(t: &RankedNgrams, text: &str, n: usize) -> (r: u64)
        requires
            n >= 1,
        ensures
            r == chi2_score(t.table(), t.ranked(), text_table(text@, n as int)),
    {
        let ghost lm = t.table();
        let ghost lr = t.ranked();
        let lm_entries = t.entries();
        let text_tab = Ngrams::from_text(text, n);
        let ghost tv = text_tab@;
        let bucket_s: String = match t.first() {
            Some(e) => e.0.clone(),
            None => {
                return u64::MAX;
            },
        };
        let ghost bucket = lr[0].0;
        let tv_entries = text_tab.entries();
        let mut chi: u64 = 0;
        let mut unp: u64 = 0;
        let mut k: usize = 0;
        while k < tv_entries.len()
            invariant
                k <= tv_entries@.len(),
                bucket_s@ == bucket,
                tv == view_pairs(tv_entries@),
                table_wf(tv),
                lm == t.table(),
                table_wf(lm),
                (chi, unp) == chi2_text_pass(tv, lm, bucket, k as int),
            decreases tv_entries@.len() - k,
        {
            proof {
                crate::ngrams::lemma_view_pairs_index(tv_entries@, k as int);
            }
            let w = &tv_entries[k].0;
            let a = tv_entries[k].1;
            let wcs = chars_of(w.as_str());
            if !str_eq(w.as_str(), bucket_s.as_str()) && all_alphabetic_chars(&wcs) {
                let e = t.get(w.as_str());
                proof {
                    crate::ngrams::lemma_table_lookup_bound(lm, w@);
                }
                if e > 0 {
                    chi = sat_add_u64(chi, chi2_term_exec(a, e));
                } else {
                    unp = sat_add_u64(unp, a);
                }
            }
            k = k + 1;
        }
        proof {
            crate::ngrams::lemma_view_pairs_len(tv_entries@);
        }
        let mut j: usize = 0;
        while j < lm_entries.len()
            invariant
                j <= lm_entries@.len(),
                bucket_s@ == bucket,
                tv == text_tab@,
                table_wf(tv),
                lm == t.table(),
                lm == view_pairs(lm_entries@),
                table_wf(lm),
                (chi, unp) == {
                    let acc = chi2_text_pass(tv, lm, bucket, tv.len() as int);
                    (chi2_lang_pass(lm, tv, bucket, j as int, acc.0), acc.1)
                },
            decreases lm_entries@.len() - j,
        {
            proof {
                crate::ngrams::lemma_view_pairs_index(lm_entries@, j as int);
            }
            let w = &lm_entries[j].0;
            let e = lm_entries[j].1;
            let wcs = chars_of(w.as_str());
            if !str_eq(w.as_str(), bucket_s.as_str()) && all_alphabetic_chars(&wcs)
                && !text_tab.contains(w.as_str()) {
                if e > 0 {
                    chi = sat_add_u64(chi, chi2_term_exec(0, e));
                }
            }
            j = j + 1;
        }
        proof {
            crate::ngrams::lemma_view_pairs_len(lm_entries@);
            crate::ngrams::lemma_view_pairs_len(tv_entries@);
        }
        let a0 = sat_add_u64(text_tab.get(bucket_s.as_str()), unp);
        let abuk = if a0 > SCALE {
            SCALE
        } else {
            a0
        };
        let ebuk = t.get(bucket_s.as_str());
        proof {
            crate::ngrams::lemma_table_lookup_bound(lm, bucket);
        }
        let bterm: u64 = if ebuk == 0 {
            if abuk > 0 {
                u64::MAX
            } else {
                0
            }
        } else {
            chi2_term_exec(abuk, ebuk)
        };
        sat_add_u64(chi, bterm)
    }
}

/// A confidence scorer: a language model together with the n-gram order
/// it scores at.
pub struct Confidence {
    language: Language,
    order: usize,
}

impl Confidence {
    /// The n-gram order this scorer uses.
    pub closed spec fn spec_order(&self) -> usize {
        self.order
    }

    /// The language model this scorer uses.
    pub closed spec fn spec_language(&self) -> Language {
        self.language
    }

    /// Orders start at one.
    #[verifier::type_invariant]
    pub open spec fn wf(&self) -> bool {
        self.spec_order() >= 1
    }

    /// Builds a scorer for the given order.
    pub fn new(language: Language, order: usize) -> (r: Confidence)
        requires
            order >= 1,
        ensures
            r.spec_language() == language,
            r.spec_order() == order,
    {
        Confidence { language, order }
    }

    /// The confidence of the text: lower is closer to the language.
    pub fn run(&self, text: &str) -> (r: u64)
        ensures
            r == confidence_spec(self.spec_language().tables(), self.spec_order(), text@),
    {
        proof {
            use_type_invariant(self);
        }
        self.language.text_confidence_chi2_ngram(text, self.order)
    }
}

} // verus!
