//! The ranking engine: a bounded best-of-K retention structure ordered by
//! ascending confidence score (lower is better).  Under capacity every
//! candidate is kept; at capacity a candidate enters only by strictly
//! beating the current worst, which is then evicted.

use crate::language::Confidence;
use crate::language::confidence_spec;
use vstd::prelude::*;

verus! {

/// A candidate decipherment: the recovered text, the key that produced
/// it, and its confidence score.
pub struct CandidatePlaintext {
    pub confidence: u64,
    pub text: String,
    pub key: String,
}

impl View for CandidatePlaintext {
    type V = (u64, Seq<char>, Seq<char>);

    open spec fn view(&self) -> (u64, Seq<char>, Seq<char>) {
        (self.confidence, self.text@, self.key@)
    }
}

/// The (confidence, text, key) views of the retained candidates.
pub open spec fn board_view(s: Seq<CandidatePlaintext>) -> Seq<(u64, Seq<char>, Seq<char>)>
    decreases s.len(),
{
    if s.len() == 0 {
        Seq::empty()
    } else {
        board_view(s.drop_last()).push(s.last()@)
    }
}

pub proof fn lemma_board_view_len(s: Seq<CandidatePlaintext>)
    ensures
        board_view(s).len() == s.len(),
    decreases s.len(),
{
    if s.len() > 0 {
        lemma_board_view_len(s.drop_last());
    }
}

pub proof fn lemma_board_view_index(s: Seq<CandidatePlaintext>, i: int)
    requires
        0 <= i < s.len(),
    ensures
        board_view(s).len() == s.len(),
        board_view(s)[i] == s[i]@,
    decreases s.len(),
{
    lemma_board_view_len(s);
    if i < s.len() - 1 {
        lemma_board_view_index(s.drop_last(), i);
    }
}

/// Whether the candidates are ordered by ascending score.
pub open spec fn sorted_by_conf(s: Seq<(u64, Seq<char>, Seq<char>)>) -> bool {
    forall|i: int, j: int| 0 <= i <= j < s.len() ==> (#[trigger] s[i]).0 <= (#[trigger] s[j]).0
}

/// Sorted insertion by ascending score: the candidate lands after every
/// candidate whose score does not exceed its own.
pub open spec fn insert_sorted(
    s: Seq<(u64, Seq<char>, Seq<char>)>,
    c: (u64, Seq<char>, Seq<char>),
) -> Seq<(u64, Seq<char>, Seq<char>)>
    decreases s.len(),
{
    if s.len() == 0 {
        seq![c]
    } else if s.last().0 <= c.0 {
        s.push(c)
    } else {
        insert_sorted(s.drop_last(), c).push(s.last())
    }
}

/// What one insertion does to the retained candidates: under capacity the
/// candidate is kept; at capacity it enters only by strictly beating the
/// worst, which is evicted; otherwise the board is unchanged.
pub open spec fn board_insert(
    s: Seq<(u64, Seq<char>, Seq<char>)>,
    c: (u64, Seq<char>, Seq<char>),
    cap: int,
) -> Seq<(u64, Seq<char>, Seq<char>)> {
    if s.len() < cap {
        insert_sorted(s, c)
    } else if s.len() > 0 && c.0 < s.last().0 {
        insert_sorted(s, c).drop_last()
    } else {
        s
    }
}

/// Sorted insertion keeps candidates sorted and adds exactly one.
pub proof fn lemma_insert_sorted_sorted(
    s: Seq<(u64, Seq<char>, Seq<char>)>,
    c: (u64, Seq<char>, Seq<char>),
)
    requires
        sorted_by_conf(s),
    ensures
        sorted_by_conf(insert_sorted(s, c)),
        insert_sorted(s, c).len() == s.len() + 1,
        insert_sorted(s, c).to_multiset() == s.to_multiset().insert(c),
    decreases s.len(),
{
    broadcast use vstd::seq_lib::group_to_multiset_ensures;

    if s.len() == 0 {
        assert(seq![c] =~= Seq::empty().push(c));
        assert(Seq::<(u64, Seq<char>, Seq<char>)>::empty().to_multiset() =~= s.to_multiset());
    } else if s.last().0 <= c.0 {
    } else {
        assert(sorted_by_conf(s.drop_last()));
        lemma_insert_sorted_sorted(s.drop_last(), c);
        let t = insert_sorted(s.drop_last(), c);
        assert forall|i: int| 0 <= i < t.len() implies (#[trigger] t[i]).0 <= s.last().0 by {
            lemma_insert_sorted_members(s.drop_last(), c, i);
        }
        assert(s.drop_last().push(s.last()) =~= s);
        assert(s.drop_last().to_multiset().insert(s.last()) == s.to_multiset());
    }
}

/// Every candidate after a sorted insertion is the new candidate or one of
/// the old ones.
pub proof fn lemma_insert_sorted_members(
    s: Seq<(u64, Seq<char>, Seq<char>)>,
    c: (u64, Seq<char>, Seq<char>),
    i: int,
)
    requires
        0 <= i < insert_sorted(s, c).len(),
    ensures
        insert_sorted(s, c)[i] == c || exists|j: int|
            0 <= j < s.len() && (#[trigger] s[j]) == insert_sorted(s, c)[i],
    decreases s.len(),
{
    if s.len() > 0 && s.last().0 > c.0 {
        if i < insert_sorted(s, c).len() - 1 {
            lemma_insert_sorted_members(s.drop_last(), c, i);
        }
    }
}

/// Sorted insertion is insertion at the last position whose predecessors
/// all score no worse than the candidate.
pub proof fn lemma_insert_sorted_at(
    s: Seq<(u64, Seq<char>, Seq<char>)>,
    c: (u64, Seq<char>, Seq<char>),
    idx: int,
)
    requires
        sorted_by_conf(s),
        0 <= idx <= s.len(),
        idx == s.len() || s[idx].0 > c.0,
        idx == 0 || s[idx - 1].0 <= c.0,
    ensures
        insert_sorted(s, c) == s.take(idx) + seq![c] + s.skip(idx),
    decreases s.len(),
{
    if s.len() == 0 {
        assert(insert_sorted(s, c) =~= s.take(idx) + seq![c] + s.skip(idx));
    } else if s.last().0 <= c.0 {
        assert(idx == s.len());
        assert(s.take(idx) =~= s);
        assert(s.skip(idx) =~= Seq::empty());
        assert(insert_sorted(s, c) =~= s.take(idx) + seq![c] + s.skip(idx));
    } else {
        assert(idx < s.len());
        assert(sorted_by_conf(s.drop_last()));
        lemma_insert_sorted_at(s.drop_last(), c, idx);
        assert(s.drop_last().take(idx) =~= s.take(idx));
        assert((s.drop_last().take(idx) + seq![c] + s.drop_last().skip(idx)).push(s.last()) =~= s
            .take(idx) + seq![c] + s.skip(idx));
    }
}

/// Scoreboard bound and retention: an insertion never grows the board
/// past its capacity, keeps it sorted, and never evicts a candidate in
/// favor of a worse-scoring one: whatever is discarded (the old worst, or
/// the rejected newcomer) scores at least as high as everything retained.
pub proof fn lemma_board_insert_retention(
    s: Seq<(u64, Seq<char>, Seq<char>)>,
    c: (u64, Seq<char>, Seq<char>),
    cap: int,
)
    requires
        sorted_by_conf(s),
        s.len() <= cap,
        cap >= 1,
    ensures
        board_insert(s, c, cap).len() <= cap,
        board_insert(s, c, cap).len() == if s.len() < cap {
            s.len() + 1
        } else {
            s.len() as nat + 0
        },
        sorted_by_conf(board_insert(s, c, cap)),
        s.len() < cap ==> board_insert(s, c, cap).to_multiset() == s.to_multiset().insert(c),
        s.len() == cap && c.0 < s.last().0 ==> forall|i: int|
            0 <= i < board_insert(s, c, cap).len() ==> (#[trigger] board_insert(s, c, cap)[i]).0
                <= s.last().0,
        s.len() == cap && c.0 >= s.last().0 ==> board_insert(s, c, cap) == s && (forall|i: int|
            0 <= i < s.len() ==> (#[trigger] s[i]).0 <= c.0),
{
    lemma_insert_sorted_sorted(s, c);
    if s.len() < cap {
    } else if c.0 < s.last().0 {
        let t = insert_sorted(s, c);
        assert(sorted_by_conf(t.drop_last()));
        assert forall|i: int| 0 <= i < t.drop_last().len() implies (#[trigger] t.drop_last()[i]).0
            <= s.last().0 by {
            lemma_insert_sorted_members(s, c, i);
        }
    } else {
        assert forall|i: int| 0 <= i < s.len() implies (#[trigger] s[i]).0 <= c.0 by {}
    }
}

/// Finds the position where a candidate of the given score is inserted:
/// after every candidate whose score does not exceed it.
fn board_pos(rows: &Vec<CandidatePlaintext>, conf: u64) -> (r: usize)
    ensures
        r <= rows@.len(),
        r == rows@.len() || board_view(rows@)[r as int].0 > conf,
        r == 0 || board_view(rows@)[r - 1].0 <= conf,
{
    proof {
        lemma_board_view_len(rows@);
    }
    let mut idx: usize = rows.len();
    while idx > 0
        invariant
            idx <= rows@.len(),
            board_view(rows@).len() == rows@.len(),
            forall|m: int|
                idx <= m < rows@.len() ==> (#[trigger] board_view(rows@)[m]).0 > conf,
        decreases idx,
    {
        proof {
            lemma_board_view_index(rows@, idx - 1);
        }
        if rows[idx - 1].confidence <= conf {
            return idx;
        }
        idx = idx - 1;
    }
    idx
}

/// Inserts the candidate at its sorted position.
fn rows_insert_sorted(rows: &mut Vec<CandidatePlaintext>, candidate: CandidatePlaintext)
    requires
        sorted_by_conf(board_view(old(rows)@)),
    ensures
        board_view(final(rows)@) == insert_sorted(board_view(old(rows)@), candidate@),
        final(rows)@.len() == old(rows)@.len() + 1,
{
    proof {
        lemma_board_view_len(rows@);
    }
    let ghost bv = board_view(rows@);
    let ghost old_rows = rows@;
    let idx = board_pos(rows, candidate.confidence);
    let ghost ins = idx as int;
    rows.insert(idx, candidate);
    proof {
        lemma_insert_sorted_at(bv, candidate@, ins);
        lemma_board_view_len(rows@);
        assert forall|a: int| 0 <= a < rows@.len() implies #[trigger] board_view(rows@)[a] == (
        bv.take(ins) + seq![candidate@] + bv.skip(ins))[a] by {
            lemma_board_view_index(rows@, a);
            if a < ins {
                assert(rows@[a] == old_rows[a]);
                lemma_board_view_index(old_rows, a);
            } else if a == ins {
            } else {
                assert(rows@[a] == old_rows[a - 1]);
                lemma_board_view_index(old_rows, a - 1);
            }
        }
        assert(board_view(rows@) =~= insert_sorted(bv, candidate@));
    }
}

/// A bounded best-of-K scoreboard with its confidence scorer.
pub struct Scoreboard {
    scoreboard: Vec<CandidatePlaintext>,
    confidence: Confidence,
    len: usize,
}

impl Scoreboard {
    /// The retained candidates, best first.
    pub closed spec fn board(&self) -> Seq<(u64, Seq<char>, Seq<char>)> {
        board_view(self.scoreboard@)
    }

    /// The fixed capacity K.
    pub closed spec fn cap(&self) -> int {
        self.len as int
    }

    /// The scorer used by `insert`.
    pub closed spec fn conf(&self) -> Confidence {
        self.confidence
    }

    /// At most K candidates, sorted ascending by score, K at least one.
    #[verifier::type_invariant]
    pub open spec fn wf(&self) -> bool {
        &&& self.cap() >= 1
        &&& self.board().len() <= self.cap()
        &&& sorted_by_conf(self.board())
    }

    /// An empty scoreboard of the given capacity.
    pub fn new(len: usize, confidence: Confidence) -> (r: Scoreboard)
        requires
            len >= 1,
        ensures
            r.board() == Seq::<(u64, Seq<char>, Seq<char>)>::empty(),
            r.cap() == len,
            r.conf() == confidence,
    {
        let scoreboard: Vec<CandidatePlaintext> = Vec::new();
        Scoreboard { scoreboard, confidence, len }
    }

    /// Inserts a candidate with a precomputed score: kept under capacity,
    /// kept at capacity only by strictly beating the current worst.
    pub fn insert_with_confidence(&mut self, text: String, key: String, confidence: u64)
        ensures
            final(self).board() == board_insert(
                old(self).board(),
                (confidence, text@, key@),
                old(self).cap(),
            ),
            final(self).cap() == old(self).cap(),
            final(self).conf() == old(self).conf(),
    {
        proof {
            use_type_invariant(&*self);
        }
        let ghost bv = self.board();
        let ghost cv = (confidence, text@, key@);
        let candidate = CandidatePlaintext { confidence, text, key };
        let mut rows: Vec<CandidatePlaintext> = Vec::new();
        core::mem::swap(&mut rows, &mut self.scoreboard);
        proof {
            lemma_board_view_len(rows@);
            lemma_board_insert_retention(bv, cv, self.cap());
        }
        if rows.len() < self.len {
            rows_insert_sorted(&mut rows, candidate);
        } else {
            proof {
                lemma_board_view_index(rows@, rows@.len() - 1);
            }
            let worst = rows[rows.len() - 1].confidence;
            if confidence < worst {
                rows_insert_sorted(&mut rows, candidate);
                let ghost pre_pop = rows@;
                rows.pop();
                proof {
                    assert(pre_pop.drop_last() =~= rows@);
                    assert(board_view(pre_pop) == board_view(pre_pop.drop_last()).push(
                        pre_pop.last()@,
                    ));
                    assert(board_view(pre_pop).drop_last() =~= board_view(pre_pop.drop_last()));
                    assert(board_view(rows@) == insert_sorted(bv, cv).drop_last());
                }
            }
        }
        proof {
            assert(board_view(rows@) == board_insert(bv, cv, self.cap()));
        }
        core::mem::swap(&mut rows, &mut self.scoreboard);
    }

    /// Scores the text with the scoreboard's own scorer, then inserts.
    pub fn insert(&mut self, text: String, key: String)
        ensures
            final(self).board() == board_insert(
                old(self).board(),
                (
                    confidence_spec(
                        old(self).conf().spec_language().tables(),
                        old(self).conf().spec_order(),
                        text@,
                    ),
                    text@,
                    key@,
                ),
                old(self).cap(),
            ),
            final(self).cap() == old(self).cap(),
            final(self).conf() == old(self).conf(),
    {
        let confidence = self.confidence.run(text.as_str());
        self.insert_with_confidence(text, key, confidence);
    }

    /// The retained candidates in ascending score order.
    pub fn candidates(&self) -> (r: &Vec<CandidatePlaintext>)
        ensures
            board_view(r@) == self.board(),
            sorted_by_conf(self.board()),
            self.board().len() <= self.cap(),
    {
        proof {
            use_type_invariant(self);
        }
        &self.scoreboard
    }
}

/// The exclusively-owned ranking manager used by the single-threaded
/// brute-force driver: a scoreboard driven by its own scorer.
pub struct Manager {
    scoreboard: Scoreboard,
}

impl Manager {
    /// The retained candidates, best first.
    pub open spec fn board(&self) -> Seq<(u64, Seq<char>, Seq<char>)> {
        self.inner().board()
    }

    /// The underlying scoreboard.
    pub closed spec fn inner(&self) -> Scoreboard {
        self.scoreboard
    }

    /// An empty manager of the given capacity.
    pub fn new(len: usize, confidence: Confidence) -> (r: Manager)
        requires
            len >= 1,
        ensures
            r.board() == Seq::<(u64, Seq<char>, Seq<char>)>::empty(),
            r.inner().cap() == len,
            r.inner().conf() == confidence,
    {
        Manager { scoreboard: Scoreboard::new(len, confidence) }
    }

    /// Scores the text and inserts it as a candidate.
    pub fn insert(&mut self, text: String, key: String)
        ensures
            final(self).inner().board() == board_insert(
                old(self).inner().board(),
                (
                    confidence_spec(
                        old(self).inner().conf().spec_language().tables(),
                        old(self).inner().conf().spec_order(),
                        text@,
                    ),
                    text@,
                    key@,
                ),
                old(self).inner().cap(),
            ),
            final(self).inner().cap() == old(self).inner().cap(),
            final(self).inner().conf() == old(self).inner().conf(),
    {
        self.scoreboard.insert(text, key);
    }

    /// The retained candidates in ascending score order.
    pub fn candidates(&self) -> (r: &Vec<CandidatePlaintext>)
        ensures
            board_view(r@) == self.board(),
            sorted_by_conf(self.board()),
            self.board().len() <= self.inner().cap(),
    {
        self.scoreboard.candidates()
    }
}

} // verus!
