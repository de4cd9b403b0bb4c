//! The two searches: a simulated annealing over random swaps, and a
//! refinement that climbs down to a local optimum of a swap neighbourhood.
use crate::annealing::{accept_transition, get_simulation_range, N};
use crate::config::Config;
use crate::corpus::Corpus;
use crate::corpus::Quartad;
use crate::layout::{
    all_selections, apply_swaps, covers_domain, in_domain, is_selection, only_selections,
    selected_swaps, shuffle_position, swap_sequence, swappable, valid_swaps, Layout,
    LayoutPermutations, Swap,
};
use crate::random::gen_index;
use rand::StdRng;
use crate::scoring::{layout_score, lemma_layout_score_bounds, lemma_layout_score_lower_bound};
use rayon::iter::{IntoParallelRefIterator, ParallelIterator};
use vstd::prelude::*;

verus! {

/// No sequence of `k` distinct swaps of the domain lowers the score of `l`.
pub open spec fn is_local_optimum(
    l: (Seq<char>, Seq<char>),
    qs: Seq<(crate::corpus::Quartad, usize)>,
    k: int,
) -> bool {
    forall|ss: Seq<Swap>|
        #[trigger] swap_sequence(ss, k) ==> layout_score(apply_swaps(l, ss), qs) >= layout_score(
            l,
            qs,
        )
}

/// No sequence of `k` distinct swaps of the domain takes `l` to a lower
/// score than `m`.
pub open spec fn is_best_neighbour(
    l: (Seq<char>, Seq<char>),
    m: (Seq<char>, Seq<char>),
    qs: Seq<(crate::corpus::Quartad, usize)>,
    k: int,
) -> bool {
    forall|ss: Seq<Swap>|
        #[trigger] swap_sequence(ss, k) ==> layout_score(apply_swaps(l, ss), qs) >= layout_score(
            m,
            qs,
        )
}

/// The swaps of a selection are distinct swaps of the domain.
proof fn lemma_selection_is_swap_sequence(p: &LayoutPermutations, sel: Seq<usize>)
    requires
        p.wf(),
        is_selection(sel, p.swaps@.len() as int, p.swaps_per_iteration as int),
    ensures
        swap_sequence(selected_swaps(p.swaps@, sel), p.swaps_per_iteration as int),
{
    let ss = selected_swaps(p.swaps@, sel);
    assert forall|i: int| 0 <= i < ss.len() implies in_domain(#[trigger] ss[i]) by {
        assert(sel[i] < p.swaps@.len());
    }
    assert forall|i: int, j: int| 0 <= i < ss.len() && 0 <= j < ss.len() && i != j implies ss[i]
        != ss[j] by {
        assert(sel[i] != sel[j]);
    }
}

/// Where swap `w` stands in `sw`.
spec fn index_of_swap(sw: Seq<Swap>, w: Swap) -> int {
    choose|t: int| 0 <= t < sw.len() && #[trigger] sw[t] == w
}

/// Every sequence of distinct swaps of the domain is the swaps of some
/// candidate of the neighbourhood.
proof fn lemma_swap_sequence_is_candidate(p: &LayoutPermutations, ss: Seq<Swap>)
    requires
        p.wf(),
        swap_sequence(ss, p.swaps_per_iteration as int),
    ensures
        exists|t: int|
            0 <= t < p.selections@.len() && #[trigger] p.spec_candidate(t) == apply_swaps(
                p.orig_layout@,
                ss,
            ),
{
    let sw = p.swaps@;
    assert(covers_domain(sw));
    let sel = Seq::new(ss.len(), |i: int| index_of_swap(sw, ss[i]) as usize);
    assert forall|i: int| 0 <= i < ss.len() implies #[trigger] sel[i] < sw.len() && sw[sel[i] as int] == ss[i] by {
        assert(in_domain(ss[i]));
        assert(exists|t: int| 0 <= t < sw.len() && #[trigger] sw[t] == ss[i]);
        let t = index_of_swap(sw, ss[i]);
        assert(0 <= t < sw.len() && sw[t] == ss[i]);
    }
    assert(is_selection(sel, sw.len() as int, p.swaps_per_iteration as int)) by {
        assert forall|i: int, j: int| 0 <= i < sel.len() && 0 <= j < sel.len() && i != j implies sel[i] != sel[j] by {
            assert(ss[i] != ss[j]);
        }
    }
    assert(all_selections(p.selections@, sw.len() as int, p.swaps_per_iteration as int));
    let t = choose|t: int| 0 <= t < p.selections@.len() && #[trigger] p.selections@[t]@ == sel;
    assert(selected_swaps(sw, sel) =~= ss);
    assert(p.spec_candidate(t) == apply_swaps(p.orig_layout@, ss));
}

impl LayoutPermutations {
    /// Penalty of the layout that the swaps picked by `sel` lead to.
    pub fn selection_penalty(&self, sel: &Vec<usize>, corpus: &Corpus) -> (r: i128)
        requires
            corpus.wf(),
            forall|i: int| 0 <= i < sel@.len() ==> #[trigger] sel@[i] < self.swaps@.len(),
        ensures
            r == layout_score(
                apply_swaps(self.orig_layout@, selected_swaps(self.swaps@, sel@)),
                corpus.quartads@,
            ),
    {
        self.apply_selection(sel).penalize(corpus)
    }
}

/// The penalty of every candidate, computed on several threads.
///
/// Relies on rayon's `par_iter().map(..).collect()` over a slice: one mapped
/// value per element, in the order of the slice.
#[verifier::external_body]
fn par_candidate_penalties(perms: &LayoutPermutations, corpus: &Corpus) -> (r: Vec<i128>)
    requires
        perms.wf(),
        corpus.wf(),
    ensures
        r@.len() == perms.selections@.len(),
        forall|t: int|
            0 <= t < r@.len() ==> #[trigger] r@[t] == layout_score(
                perms.spec_candidate(t),
                corpus.quartads@,
            ),
{
    perms.selections.par_iter().map(|sel| perms.selection_penalty(sel, corpus)).collect()
}

/// Index of a smallest entry: the first one.
pub fn index_of_min(v: &Vec<i128>) -> (r: usize)
    requires
        v@.len() > 0,
    ensures
        r < v@.len(),
        forall|u: int| 0 <= u < v@.len() ==> v@[r as int] <= #[trigger] v@[u],
        forall|u: int| 0 <= u < r ==> v@[r as int] < #[trigger] v@[u],
{
    let mut best: usize = 0;
    for i in 1..v.len()
        invariant
            v@.len() > 0,
            best < i,
            forall|u: int| 0 <= u < i ==> v@[best as int] <= #[trigger] v@[u],
            forall|u: int| 0 <= u < best ==> v@[best as int] < #[trigger] v@[u],
    {
        if v[i] < v[best] {
            best = i;
        }
    }
    best
}

/// Hill climbing over the neighbourhood of `config.swaps` swaps: moves to
/// the best candidate while it scores strictly lower, and returns every
/// layout it moved through, starting with `config.layout` and ending at a
/// local optimum.
#[verifier::spinoff_prover]
pub fn refine(corpus: &Corpus, config: &Config) -> (r: Vec<Layout>)
    requires
        corpus.wf(),
    ensures
        r@.len() >= 1,
        r@[0] == config.layout,
        forall|m: int|
            0 <= m < r@.len() - 1 ==> layout_score(#[trigger] r@[m + 1]@, corpus.quartads@)
                < layout_score(r@[m]@, corpus.quartads@),
        forall|m: int|
            0 <= m < r@.len() - 1 ==> exists|ss: Seq<Swap>|
                swap_sequence(ss, config.swaps as int) && #[trigger] r@[m + 1]@ == apply_swaps(
                    r@[m]@,
                    ss,
                ),
        forall|m: int|
            0 <= m < r@.len() - 1 ==> is_best_neighbour(
                r@[m]@,
                #[trigger] r@[m + 1]@,
                corpus.quartads@,
                config.swaps as int,
            ),
        is_local_optimum(r@[r@.len() - 1]@, corpus.quartads@, config.swaps as int),
        is_local_optimum(config.layout@, corpus.quartads@, config.swaps as int) ==> r@.len()
            == 1,
{
    let ghost qs = corpus.quartads@;
    let ghost k = config.swaps as int;
    let mut perms = LayoutPermutations::from_config(config);
    let mut curr = config.layout;
    let mut curr_penalty = curr.penalize(corpus);
    let mut trajectory: Vec<Layout> = Vec::new();
    trajectory.push(curr);
    proof {
        lemma_layout_score_lower_bound(curr@, corpus);
    }
    loop
        invariant_except_break
            corpus.wf(),
            qs == corpus.quartads@,
            k == config.swaps as int,
            perms.wf(),
            perms.swaps_per_iteration == config.swaps,
            curr_penalty == layout_score(curr@, qs),
            curr_penalty + corpus.len >= 0,
            trajectory@.len() >= 1,
            trajectory@[0] == config.layout,
            trajectory@[trajectory@.len() - 1] == curr,
            forall|m: int|
                0 <= m < trajectory@.len() - 1 ==> layout_score(#[trigger] trajectory@[m + 1]@, qs)
                    < layout_score(trajectory@[m]@, qs),
            forall|m: int|
                0 <= m < trajectory@.len() - 1 ==> exists|ss: Seq<Swap>|
                    swap_sequence(ss, k) && #[trigger] trajectory@[m + 1]@ == apply_swaps(
                        trajectory@[m]@,
                        ss,
                    ),
            forall|m: int|
                0 <= m < trajectory@.len() - 1 ==> is_best_neighbour(
                    trajectory@[m]@,
                    #[trigger] trajectory@[m + 1]@,
                    qs,
                    k,
                ),
            trajectory@.len() > 1 ==> !is_local_optimum(config.layout@, qs, k),
        ensures
            trajectory@.len() >= 1,
            trajectory@[0] == config.layout,
            forall|m: int|
                0 <= m < trajectory@.len() - 1 ==> layout_score(#[trigger] trajectory@[m + 1]@, qs)
                    < layout_score(trajectory@[m]@, qs),
            forall|m: int|
                0 <= m < trajectory@.len() - 1 ==> exists|ss: Seq<Swap>|
                    swap_sequence(ss, k) && #[trigger] trajectory@[m + 1]@ == apply_swaps(
                        trajectory@[m]@,
                        ss,
                    ),
            forall|m: int|
                0 <= m < trajectory@.len() - 1 ==> is_best_neighbour(
                    trajectory@[m]@,
                    #[trigger] trajectory@[m + 1]@,
                    qs,
                    k,
                ),
            is_local_optimum(trajectory@[trajectory@.len() - 1]@, qs, k),
            trajectory@.len() > 1 ==> !is_local_optimum(config.layout@, qs, k),
        decreases curr_penalty + corpus.len,
    {
        perms.set_layout(&curr);
        let penalties = par_candidate_penalties(&perms, corpus);
        if penalties.len() == 0 {
            proof {
                assert forall|ss: Seq<Swap>| #[trigger] swap_sequence(ss, k) implies layout_score(
                    apply_swaps(curr@, ss),
                    qs,
                ) >= layout_score(curr@, qs) by {
                    lemma_swap_sequence_is_candidate(&perms, ss);
                }
            }
            break;
        }
        let best = index_of_min(&penalties);
        let best_penalty = penalties[best];
        if curr_penalty <= best_penalty {
            proof {
                assert forall|ss: Seq<Swap>| #[trigger] swap_sequence(ss, k) implies layout_score(
                    apply_swaps(curr@, ss),
                    qs,
                ) >= layout_score(curr@, qs) by {
                    lemma_swap_sequence_is_candidate(&perms, ss);
                    let t = choose|t: int|
                        0 <= t < perms.selections@.len() && #[trigger] perms.spec_candidate(t)
                            == apply_swaps(perms.orig_layout@, ss);
                    assert(penalties@[t] >= penalties@[best as int]);
                }
            }
            break;
        }
        let next = perms.candidate(best);
        proof {
            let sel = perms.selections@[best as int]@;
            assert(only_selections(perms.selections@, perms.swaps@.len() as int, k));
            lemma_selection_is_swap_sequence(&perms, sel);
            let ss = selected_swaps(perms.swaps@, sel);
            assert(next@ == apply_swaps(curr@, ss));
            if trajectory@.len() == 1 {
                assert(!is_local_optimum(config.layout@, qs, k)) by {
                    assert(swap_sequence(ss, k));
                }
            }
            lemma_layout_score_lower_bound(next@, corpus);
            assert forall|ss: Seq<Swap>| #[trigger] swap_sequence(ss, k) implies layout_score(
                apply_swaps(curr@, ss),
                qs,
            ) >= layout_score(next@, qs) by {
                lemma_swap_sequence_is_candidate(&perms, ss);
                let t = choose|t: int|
                    0 <= t < perms.selections@.len() && #[trigger] perms.spec_candidate(t)
                        == apply_swaps(perms.orig_layout@, ss);
                assert(penalties@[t] >= penalties@[best as int]);
            }
            assert(is_best_neighbour(curr@, next@, qs, k));
        }
        let ghost old_traj = trajectory@;
        curr = next;
        curr_penalty = best_penalty;
        trajectory.push(curr);
        proof {
            assert forall|m: int| 0 <= m < trajectory@.len() - 1 implies exists|ss: Seq<Swap>|
                swap_sequence(ss, k) && #[trigger] trajectory@[m + 1]@ == apply_swaps(
                    trajectory@[m]@,
                    ss,
                ) by {
                if m < old_traj.len() - 1 {
                    assert(trajectory@[m + 1] == old_traj[m + 1]);
                    assert(trajectory@[m] == old_traj[m]);
                    assert(is_best_neighbour(old_traj[m]@, old_traj[m + 1]@, qs, k));
                } else {
                    let sel = perms.selections@[best as int]@;
                    let ss = selected_swaps(perms.swaps@, sel);
                    assert(swap_sequence(ss, k));
                    assert(trajectory@[m + 1]@ == apply_swaps(trajectory@[m]@, ss));
                }
            }
        }
    }
    trajectory
}

/* ---------------------------------------------------------------------- *
 * Simulated annealing                                                    *
 * ---------------------------------------------------------------------- */

/// Bound on the magnitude of every penalty that annealing compares.
pub const PENALTY_LIMIT: i128 = 1_000_000_000_000_000_000_000_000;

/// The state of one annealing run: the layout last accepted and the best
/// layout seen, each with its penalty.
#[derive(Clone, Copy)]
pub struct AnnealState {
    pub current: Layout,
    pub current_penalty: i128,
    pub best: Layout,
    pub best_penalty: i128,
}

impl AnnealState {
    pub fn new(layout: Layout, penalty: i128) -> (r: AnnealState)
        ensures
            r.current == layout,
            r.best == layout,
            r.current_penalty == penalty,
            r.best_penalty == penalty,
    {
        AnnealState { current: layout, current_penalty: penalty, best: layout, best_penalty: penalty }
    }

    /// One iteration: the candidate replaces the current layout when
    /// `accept_transition` takes the move, and the best layout when it is
    /// taken and strictly better than the best so far. Returns whether it
    /// was taken.
    pub fn step(&mut self, candidate: Layout, candidate_penalty: i128, threshold: i128) -> (accepted: bool)
        requires
            -PENALTY_LIMIT <= old(self).current_penalty <= PENALTY_LIMIT,
            -PENALTY_LIMIT <= candidate_penalty <= PENALTY_LIMIT,
        ensures
            accepted == (candidate_penalty - old(self).current_penalty <= 0 || candidate_penalty
                - old(self).current_penalty < threshold),
            final(self).current == if accepted { candidate } else { old(self).current },
            final(self).current_penalty == if accepted {
                candidate_penalty
            } else {
                old(self).current_penalty
            },
            accepted && candidate_penalty < old(self).best_penalty ==> final(self).best == candidate
                && final(self).best_penalty == candidate_penalty,
            !(accepted && candidate_penalty < old(self).best_penalty) ==> final(self).best == old(
                self,
            ).best && final(self).best_penalty == old(self).best_penalty,
            final(self).best_penalty <= old(self).best_penalty,
    {
        let accepted = accept_transition(candidate_penalty - self.current_penalty, threshold);
        if accepted {
            if candidate_penalty < self.best_penalty {
                self.best = candidate;
                self.best_penalty = candidate_penalty;
            }
            self.current = candidate;
            self.current_penalty = candidate_penalty;
        }
        accepted
    }
}

/// The swap lists of a run, as sequences.
pub open spec fn swap_lists(v: Seq<Vec<Swap>>) -> Seq<Seq<Swap>> {
    v.map_values(|s: Vec<Swap>| s@)
}

/// Perturbations for one run: `N` swap lists, each of `1..=swaps` swaps of
/// distinct swappable slots.
pub open spec fn perturbations_ok(ps: Seq<Seq<Swap>>, swaps: int) -> bool {
    &&& ps.len() == N
    &&& forall|i: int|
        0 <= i < ps.len() ==> 1 <= (#[trigger] ps[i]).len() <= swaps && valid_swaps(ps[i])
}

/// The current and the best layout after the first `n` iterations of a run
/// from `l`: iteration `i` (from 1) applies the swaps `ps[i - 1]` to the
/// current layout; the candidate replaces the current layout when its score
/// does not rise, or rises by less than `ths[i - 1]`; and it replaces the
/// best layout when it is taken and scores strictly lower than the best.
pub open spec fn anneal(
    l: (Seq<char>, Seq<char>),
    qs: Seq<(Quartad, usize)>,
    ps: Seq<Seq<Swap>>,
    ths: Seq<i128>,
    n: int,
) -> ((Seq<char>, Seq<char>), (Seq<char>, Seq<char>))
    decreases n,
{
    if n <= 0 {
        (l, l)
    } else {
        let prev = anneal(l, qs, ps, ths, n - 1);
        let cand = apply_swaps(prev.0, ps[n - 1]);
        let de = layout_score(cand, qs) - layout_score(prev.0, qs);
        let taken = de <= 0 || de < ths[n - 1];
        (
            if taken { cand } else { prev.0 },
            if taken && layout_score(cand, qs) < layout_score(prev.1, qs) {
                cand
            } else {
                prev.1
            },
        )
    }
}

/// The candidate scored at iteration `n` (from 1) of a run.
pub open spec fn anneal_candidate(
    l: (Seq<char>, Seq<char>),
    qs: Seq<(Quartad, usize)>,
    ps: Seq<Seq<Swap>>,
    ths: Seq<i128>,
    n: int,
) -> (Seq<char>, Seq<char>) {
    apply_swaps(anneal(l, qs, ps, ths, n - 1).0, ps[n - 1])
}

/// The best score of a run never rises from one iteration to the next, and
/// it changes only when the candidate of that iteration scores strictly
/// lower, which then becomes the best layout.
pub proof fn lemma_best_never_rises(
    l: (Seq<char>, Seq<char>),
    qs: Seq<(Quartad, usize)>,
    ps: Seq<Seq<Swap>>,
    ths: Seq<i128>,
    n: int,
)
    requires
        n >= 1,
    ensures
        layout_score(anneal(l, qs, ps, ths, n).1, qs) <= layout_score(anneal(l, qs, ps, ths, n - 1).1, qs),
        anneal(l, qs, ps, ths, n).1 != anneal(l, qs, ps, ths, n - 1).1 ==> anneal(l, qs, ps, ths, n).1
            == anneal_candidate(l, qs, ps, ths, n) && layout_score(anneal_candidate(l, qs, ps, ths, n), qs)
            < layout_score(anneal(l, qs, ps, ths, n - 1).1, qs),
{
}

/// After `n` iterations the best layout scores no higher than the start,
/// the current layout, and every candidate scored so far.
pub proof fn lemma_best_beats_candidates(
    l: (Seq<char>, Seq<char>),
    qs: Seq<(Quartad, usize)>,
    ps: Seq<Seq<Swap>>,
    ths: Seq<i128>,
    n: int,
)
    requires
        n >= 0,
    ensures
        layout_score(anneal(l, qs, ps, ths, n).1, qs) <= layout_score(l, qs),
        layout_score(anneal(l, qs, ps, ths, n).1, qs) <= layout_score(anneal(l, qs, ps, ths, n).0, qs),
        forall|m: int|
            1 <= m <= n ==> layout_score(anneal(l, qs, ps, ths, n).1, qs) <= layout_score(
                #[trigger] anneal_candidate(l, qs, ps, ths, m),
                qs,
            ),
    decreases n,
{
    if n > 0 {
        lemma_best_beats_candidates(l, qs, ps, ths, n - 1);
        lemma_best_never_rises(l, qs, ps, ths, n);
    }
}

/// The swaps of one run: `N` lists, each of `1..=swaps` random swaps of
/// two distinct swappable slots.
pub fn draw_perturbations(rng: &mut StdRng, swaps: usize) -> (r: Vec<Vec<Swap>>)
    requires
        swaps > 0,
    ensures
        perturbations_ok(swap_lists(r@), swaps as int),
{
    let mut r: Vec<Vec<Swap>> = Vec::new();
    for i in 0..N
        invariant
            swaps > 0,
            r@.len() == i,
            forall|m: int|
                0 <= m < r@.len() ==> 1 <= (#[trigger] r@[m])@.len() <= swaps && valid_swaps(r@[m]@),
    {
        let times = gen_index(rng, swaps) + 1;
        let mut list: Vec<Swap> = Vec::new();
        for t in 0..times
            invariant
                list@.len() == t,
                valid_swaps(list@),
        {
            let (a, b) = shuffle_position(rng);
            let ghost before = list@;
            list.push(Swap(a, b));
            proof {
                assert forall|k: int| 0 <= k < list@.len() implies swappable(
                    #[trigger] list@[k].0 as int,
                ) && swappable(list@[k].1 as int) && list@[k].0 != list@[k].1 by {
                    if k < t {
                        assert(list@[k] == before[k]);
                        assert(swappable(before[k].0 as int));
                    } else {
                        assert(list@[k] == Swap(a, b));
                    }
                }
            }
        }
        r.push(list);
    }
    assert(swap_lists(r@).len() == N);
    r
}

/// One annealing run of `N` iterations from `config.layout`, with the
/// swaps and acceptance thresholds of every iteration given. Returns the
/// best layout seen, as `anneal` describes it.
#[verifier::spinoff_prover]
pub fn simulated_annealing(
    corpus: &Corpus,
    config: &Config,
    perturbations: &Vec<Vec<Swap>>,
    thresholds: &Vec<i128>,
) -> (r: Layout)
    requires
        corpus.wf(),
        perturbations_ok(swap_lists(perturbations@), config.swaps as int),
        thresholds@.len() == N,
    ensures
        r@ == anneal(
            config.layout@,
            corpus.quartads@,
            swap_lists(perturbations@),
            thresholds@,
            N as int,
        ).1,
        layout_score(r@, corpus.quartads@) <= layout_score(config.layout@, corpus.quartads@),
        forall|m: int|
            1 <= m <= N ==> layout_score(r@, corpus.quartads@) <= layout_score(
                #[trigger] anneal_candidate(
                    config.layout@,
                    corpus.quartads@,
                    swap_lists(perturbations@),
                    thresholds@,
                    m,
                ),
                corpus.quartads@,
            ),
{
    let ghost qs = corpus.quartads@;
    let ghost start = config.layout@;
    let ghost ps = swap_lists(perturbations@);
    let ghost ths = thresholds@;
    let init_penalty = config.layout.par_penalize(corpus);
    proof {
        lemma_layout_score_bounds(start, corpus);
    }
    let mut state = AnnealState::new(config.layout, init_penalty);
    let range = get_simulation_range();
    for i in range.start..range.end
        invariant
            range.start == 1,
            range.end == N + 1,
            corpus.wf(),
            qs == corpus.quartads@,
            start == config.layout@,
            ps == swap_lists(perturbations@),
            ths == thresholds@,
            perturbations_ok(ps, config.swaps as int),
            thresholds@.len() == N,
            state.current@ == anneal(start, qs, ps, ths, i - 1).0,
            state.best@ == anneal(start, qs, ps, ths, i - 1).1,
            state.current_penalty == layout_score(state.current@, qs),
            state.best_penalty == layout_score(state.best@, qs),
            -PENALTY_LIMIT <= state.current_penalty <= PENALTY_LIMIT,
    {
        let mut candidate = state.current;
        candidate.apply_swap_list(&perturbations[i - 1]);
        let candidate_penalty = candidate.par_penalize(corpus);
        proof {
            lemma_layout_score_bounds(candidate@, corpus);
            assert(ps[i - 1] == perturbations@[i - 1]@);
            assert(candidate@ == anneal_candidate(start, qs, ps, ths, i as int));
        }
        state.step(candidate, candidate_penalty, thresholds[i - 1]);
        proof {
            assert(state.current@ == anneal(start, qs, ps, ths, i as int).0);
            assert(state.best@ == anneal(start, qs, ps, ths, i as int).1);
        }
    }
    proof {
        lemma_best_beats_candidates(start, qs, ps, ths, N as int);
    }
    state.best
}

/// The result of annealing run `n` of a repetition, with its own swaps and
/// thresholds.
pub open spec fn run_result(
    l: (Seq<char>, Seq<char>),
    qs: Seq<(Quartad, usize)>,
    perturbations: Seq<Vec<Vec<Swap>>>,
    thresholds: Seq<Vec<i128>>,
    n: int,
) -> (Seq<char>, Seq<char>) {
    anneal(l, qs, swap_lists(perturbations[n]@), thresholds[n]@, N as int).1
}

/// Index of a layout that scores lowest among `layouts`: the first one.
pub fn best_of(corpus: &Corpus, layouts: &Vec<Layout>) -> (r: usize)
    requires
        corpus.wf(),
        layouts@.len() > 0,
    ensures
        r < layouts@.len(),
        forall|m: int|
            0 <= m < layouts@.len() ==> layout_score(layouts@[r as int]@, corpus.quartads@)
                <= layout_score((#[trigger] layouts@[m])@, corpus.quartads@),
{
    let mut best: usize = 0;
    let mut best_penalty = layouts[0].par_penalize(corpus);
    for n in 1..layouts.len()
        invariant
            corpus.wf(),
            layouts@.len() > 0,
            best < n,
            best_penalty == layout_score(layouts@[best as int]@, corpus.quartads@),
            forall|m: int|
                0 <= m < n ==> layout_score(layouts@[best as int]@, corpus.quartads@)
                    <= layout_score((#[trigger] layouts@[m])@, corpus.quartads@),
    {
        let p = layouts[n].par_penalize(corpus);
        if p < best_penalty {
            best = n;
            best_penalty = p;
        }
    }
    best
}

/// `config.repetition` annealing runs, each with its own row of swaps and
/// thresholds; returns the first of their results that scores lowest, or
/// `config.layout` when there is no run.
pub fn run(
    corpus: &Corpus,
    config: &Config,
    perturbations: &Vec<Vec<Vec<Swap>>>,
    thresholds: &Vec<Vec<i128>>,
) -> (r: Layout)
    requires
        corpus.wf(),
        perturbations@.len() == config.repetition,
        thresholds@.len() == config.repetition,
        forall|t: int|
            0 <= t < perturbations@.len() ==> perturbations_ok(
                swap_lists((#[trigger] perturbations@[t])@),
                config.swaps as int,
            ),
        forall|t: int| 0 <= t < thresholds@.len() ==> (#[trigger] thresholds@[t])@.len() == N,
    ensures
        config.repetition == 0 ==> r == config.layout,
        config.repetition > 0 ==> exists|n: int|
            0 <= n < config.repetition && r@ == #[trigger] run_result(
                config.layout@,
                corpus.quartads@,
                perturbations@,
                thresholds@,
                n,
            ),
        forall|n: int|
            0 <= n < config.repetition ==> layout_score(r@, corpus.quartads@) <= layout_score(
                #[trigger] run_result(config.layout@, corpus.quartads@, perturbations@, thresholds@, n),
                corpus.quartads@,
            ),
{
    if config.repetition == 0 {
        return config.layout;
    }
    let mut results: Vec<Layout> = Vec::new();
    for n in 0..config.repetition
        invariant
            corpus.wf(),
            perturbations@.len() == config.repetition,
            thresholds@.len() == config.repetition,
            forall|t: int|
                0 <= t < perturbations@.len() ==> perturbations_ok(
                    swap_lists((#[trigger] perturbations@[t])@),
                    config.swaps as int,
                ),
            forall|t: int| 0 <= t < thresholds@.len() ==> (#[trigger] thresholds@[t])@.len() == N,
            results@.len() == n,
            forall|m: int|
                0 <= m < n ==> (#[trigger] results@[m])@ == run_result(
                    config.layout@,
                    corpus.quartads@,
                    perturbations@,
                    thresholds@,
                    m,
                ),
    {
        let found = simulated_annealing(corpus, config, &perturbations[n], &thresholds[n]);
        results.push(found);
    }
    let b = best_of(corpus, &results);
    let r = results[b];
    assert(r@ == run_result(config.layout@, corpus.quartads@, perturbations@, thresholds@, b as int));
    assert forall|n: int| 0 <= n < config.repetition implies layout_score(r@, corpus.quartads@)
        <= layout_score(
        #[trigger] run_result(config.layout@, corpus.quartads@, perturbations@, thresholds@, n),
        corpus.quartads@,
    ) by {
        assert(results@[n]@ == run_result(config.layout@, corpus.quartads@, perturbations@, thresholds@, n));
    }
    r
}

} // verus!
