//! The score of a layout on a corpus: the cost of every quartad, weighted
//! by its count, summed.
use crate::corpus::{total_count, Corpus, Quartad};
use crate::layout::{layout_lookup, KeyPress, Layout, LayoutPosMap, NUM_KEYS};
use crate::penalty::{
    lemma_quartad_cost_bounds, quartad_cost, quartad_penalty, KeyPressQuartad, MAX_RULE_PENALTY,
};
use rayon::iter::{IntoParallelRefIterator, ParallelIterator};
use vstd::prelude::*;

verus! {

/// Largest cost of one occurrence of a quartad.
pub const MAX_QUARTAD_PENALTY: i64 = 3840;

/// The key presses of a quartad, newest first, if all four characters resolve.
pub open spec fn quartad_presses(
    lookup: spec_fn(char) -> Option<KeyPress>,
    q: Seq<char>,
) -> Option<KeyPressQuartad> {
    match (lookup(q[3]), lookup(q[2]), lookup(q[1]), lookup(q[0])) {
        (Some(curr), Some(old1), Some(old2), Some(old3)) => Some(
            KeyPressQuartad { curr, old1, old2, old3 },
        ),
        _ => None,
    }
}

/// Cost of all occurrences of one quartad; nothing when it does not resolve.
pub open spec fn entry_score(lookup: spec_fn(char) -> Option<KeyPress>, e: (Quartad, usize)) -> int {
    match quartad_presses(lookup, e.0@) {
        Some(kq) => e.1 * quartad_cost(kq),
        None => 0,
    }
}

/// Cost of a quartad table.
pub open spec fn total_score(
    lookup: spec_fn(char) -> Option<KeyPress>,
    qs: Seq<(Quartad, usize)>,
) -> int
    decreases qs.len(),
{
    if qs.len() == 0 {
        0
    } else {
        total_score(lookup, qs.drop_last()) + entry_score(lookup, qs.last())
    }
}

/// Score of layout `l` on a quartad table.
pub open spec fn layout_score(l: (Seq<char>, Seq<char>), qs: Seq<(Quartad, usize)>) -> int {
    total_score(layout_lookup(l), qs)
}

/// Every key press that `lookup` gives lies on a slot.
pub open spec fn on_slots(lookup: spec_fn(char) -> Option<KeyPress>) -> bool {
    forall|c: char| #[trigger] lookup(c) matches Some(kp) ==> kp.pos < NUM_KEYS
}

proof fn lemma_entry_bounds(lookup: spec_fn(char) -> Option<KeyPress>, e: (Quartad, usize))
    requires
        on_slots(lookup),
    ensures
        -(e.1 as int) <= entry_score(lookup, e) <= MAX_QUARTAD_PENALTY * e.1,
{
    if let Some(kq) = quartad_presses(lookup, e.0@) {
        assert(kq.curr.pos < NUM_KEYS);
        lemma_quartad_cost_bounds(kq);
        let c = quartad_cost(kq);
        let n = e.1 as int;
        assert(-n <= n * c <= 16 * MAX_RULE_PENALTY * n) by (nonlinear_arith)
            requires
                -1 <= c <= 16 * MAX_RULE_PENALTY,
                n >= 0,
        ;
    }
}

/// A table scores at least minus its total count (the reward of one inward
/// roll per occurrence) and at most the largest quartad cost per occurrence.
pub proof fn lemma_score_bounds(lookup: spec_fn(char) -> Option<KeyPress>, qs: Seq<(Quartad, usize)>)
    requires
        on_slots(lookup),
    ensures
        -(total_count(qs) as int) <= total_score(lookup, qs) <= MAX_QUARTAD_PENALTY * total_count(qs),
    decreases qs.len(),
{
    if qs.len() > 0 {
        lemma_score_bounds(lookup, qs.drop_last());
        lemma_entry_bounds(lookup, qs.last());
    }
}

pub proof fn lemma_total_count_prefix(qs: Seq<(Quartad, usize)>, i: int)
    requires
        0 <= i <= qs.len(),
    ensures
        total_count(qs.take(i)) <= total_count(qs),
    decreases qs.len() - i,
{
    if i < qs.len() {
        lemma_total_count_prefix(qs, i + 1);
        assert(qs.take(i + 1).drop_last() =~= qs.take(i));
    } else {
        assert(qs.take(i) =~= qs);
    }
}

impl Quartad {
    /// The key presses of the quartad, newest first, if all four resolve.
    pub fn get_kp_quartad(&self, pos_map: &LayoutPosMap) -> (r: Option<KeyPressQuartad>)
        requires
            pos_map.wf(),
        ensures
            r == quartad_presses(pos_map.lookup(), self@),
    {
        let curr = pos_map.get_key_position(self.0[3]);
        let old1 = pos_map.get_key_position(self.0[2]);
        let old2 = pos_map.get_key_position(self.0[1]);
        let old3 = pos_map.get_key_position(self.0[0]);
        match (curr, old1, old2, old3) {
            (Some(curr), Some(old1), Some(old2), Some(old3)) => Some(
                KeyPressQuartad { curr, old1, old2, old3 },
            ),
            _ => None,
        }
    }
}

/// Cost of all occurrences of one entry of a quartad table.
pub fn entry_penalty(pos_map: &LayoutPosMap, e: &(Quartad, usize)) -> (r: i128)
    requires
        pos_map.wf(),
        on_slots(pos_map.lookup()),
    ensures
        r == entry_score(pos_map.lookup(), *e),
{
    match e.0.get_kp_quartad(pos_map) {
        Some(kq) => {
            assert(kq.curr.pos < NUM_KEYS);
            let cost = quartad_penalty(&kq);
            proof {
                lemma_quartad_cost_bounds(kq);
                lemma_entry_bounds(pos_map.lookup(), *e);
            }
            (e.1 as i128) * (cost as i128)
        },
        None => 0,
    }
}

/// Sum of the costs of all entries, computed on several threads.
///
/// Relies on rayon's `par_iter().map(..).sum()` over a slice: the sum of
/// the mapped values, in whatever order the threads add them.
#[verifier::external_body]
fn par_total_penalty(quartads: &Vec<(Quartad, usize)>, pos_map: &LayoutPosMap) -> (r: i128)
    requires
        pos_map.wf(),
        on_slots(pos_map.lookup()),
        total_count(quartads@) <= usize::MAX,
    ensures
        r == total_score(pos_map.lookup(), quartads@),
{
    quartads.par_iter().map(|e| entry_penalty(pos_map, e)).sum()
}

impl Layout {
    /// Total penalty of the layout on the corpus.
    pub fn penalize(&self, corpus: &Corpus) -> (r: i128)
        requires
            corpus.wf(),
        ensures
            r == layout_score(self@, corpus.quartads@),
    {
        let pos_map = self.get_position_map();
        proof {
            self.lemma_pos_map_lookup(&pos_map);
        }
        let ghost qs = corpus.quartads@;
        let mut total: i128 = 0;
        for i in 0..corpus.quartads.len()
            invariant
                qs == corpus.quartads@,
                corpus.wf(),
                pos_map.wf(),
                pos_map.lookup() == layout_lookup(self@),
                on_slots(pos_map.lookup()),
                total == total_score(pos_map.lookup(), qs.take(i as int)),
        {
            proof {
                assert(qs.take(i + 1).drop_last() =~= qs.take(i as int));
                lemma_total_count_prefix(qs, i + 1);
                lemma_score_bounds(pos_map.lookup(), qs.take(i + 1));
            }
            total = total + entry_penalty(&pos_map, &corpus.quartads[i]);
        }
        assert(qs.take(qs.len() as int) =~= qs);
        total
    }

    /// Total penalty of the layout on the corpus, the quartads shared out
    /// among threads; the same value as `penalize`.
    pub fn par_penalize(&self, corpus: &Corpus) -> (r: i128)
        requires
            corpus.wf(),
        ensures
            r == layout_score(self@, corpus.quartads@),
    {
        let pos_map = self.get_position_map();
        proof {
            self.lemma_pos_map_lookup(&pos_map);
        }
        par_total_penalty(&corpus.quartads, &pos_map)
    }
}

} // verus!

verus! {

/// The key presses of every layout lie on its slots.
pub proof fn lemma_layout_on_slots(l: (Seq<char>, Seq<char>))
    requires
        l.0.len() == NUM_KEYS,
        l.1.len() == NUM_KEYS,
    ensures
        on_slots(layout_lookup(l)),
{
    assert forall|c: char| (#[trigger] layout_lookup(l)(c) matches Some(kp) ==> kp.pos < NUM_KEYS) by {
        crate::layout::lemma_position_in_range(l, c);
    }
}

/// A layout scores at least minus the length of a well-formed corpus.
pub proof fn lemma_layout_score_lower_bound(l: (Seq<char>, Seq<char>), corpus: &Corpus)
    requires
        l.0.len() == NUM_KEYS,
        l.1.len() == NUM_KEYS,
        corpus.wf(),
    ensures
        layout_score(l, corpus.quartads@) >= -(corpus.len as int),
{
    lemma_layout_on_slots(l);
    lemma_score_bounds(layout_lookup(l), corpus.quartads@);
}

/// A layout's score on a well-formed corpus lies within the limits that
/// annealing compares.
pub proof fn lemma_layout_score_bounds(l: (Seq<char>, Seq<char>), corpus: &Corpus)
    requires
        l.0.len() == NUM_KEYS,
        l.1.len() == NUM_KEYS,
        corpus.wf(),
    ensures
        -crate::simulator::PENALTY_LIMIT <= layout_score(l, corpus.quartads@)
            <= crate::simulator::PENALTY_LIMIT,
{
    lemma_layout_on_slots(l);
    lemma_score_bounds(layout_lookup(l), corpus.quartads@);
    assert(corpus.len <= usize::MAX);
}

} // verus!
