//! The detailed breakdown of a score: each rule's contribution bucketed by
//! the keys that triggered it. It is observational: its total is the score.
use crate::corpus::{total_count, Corpus, Quartad};
use crate::layout::{layout_lookup, KeyPress, Layout, NUM_KEYS};
use crate::penalty::{
    gated_rules, lemma_quartad_cost_bounds, penalize_kp_quartad, penalty_sum, value_of, Penalty,
    PenaltyVar, MAX_RULE_PENALTY,
};
use crate::scoring::{
    layout_score, lemma_layout_on_slots, on_slots, quartad_presses, total_score,
    MAX_QUARTAD_PENALTY,
};
use std::collections::HashMap;
use vstd::prelude::*;

verus! {

broadcast use vstd::std_specs::hash::group_hash_axioms;

/// A rule's penalty on the keys that triggered it (the newest ones of a quartad).
pub struct KeyContribution {
    pub kind: PenaltyVar,
    pub keys: Vec<char>,
    pub value: i128,
}

impl View for KeyContribution {
    type V = (PenaltyVar, Seq<char>, int);

    open spec fn view(&self) -> (PenaltyVar, Seq<char>, int) {
        (self.kind, self.keys@, self.value as int)
    }
}

/// The contribution of one rule outcome on all `count` occurrences of
/// quartad `q`: none when the rule has no value.
pub open spec fn contribution_of(p: Penalty, q: Seq<char>, count: int) -> Seq<(PenaltyVar, Seq<char>, int)> {
    match p.value {
        Some(v) => seq![(p.kind, q.subrange(4 - p.relevant_keys as int, 4), count * v)],
        None => Seq::empty(),
    }
}

pub open spec fn rule_contributions(rules: Seq<Penalty>, q: Seq<char>, count: int) -> Seq<
    (PenaltyVar, Seq<char>, int),
>
    decreases rules.len(),
{
    if rules.len() == 0 {
        Seq::empty()
    } else {
        rule_contributions(rules.drop_last(), q, count) + contribution_of(rules.last(), q, count)
    }
}

pub open spec fn entry_contributions(
    lookup: spec_fn(char) -> Option<KeyPress>,
    e: (Quartad, usize),
) -> Seq<(PenaltyVar, Seq<char>, int)> {
    match quartad_presses(lookup, e.0@) {
        Some(kq) => rule_contributions(gated_rules(kq), e.0@, e.1 as int),
        None => Seq::empty(),
    }
}

/// Every contribution of a quartad table, entry by entry, rule by rule.
pub open spec fn all_contributions(
    lookup: spec_fn(char) -> Option<KeyPress>,
    qs: Seq<(Quartad, usize)>,
) -> Seq<(PenaltyVar, Seq<char>, int)>
    decreases qs.len(),
{
    if qs.len() == 0 {
        Seq::empty()
    } else {
        all_contributions(lookup, qs.drop_last()) + entry_contributions(lookup, qs.last())
    }
}

pub open spec fn contribution_total(cs: Seq<(PenaltyVar, Seq<char>, int)>) -> int
    decreases cs.len(),
{
    if cs.len() == 0 {
        0
    } else {
        contribution_total(cs.drop_last()) + cs.last().2
    }
}

pub open spec fn abs_total(cs: Seq<(PenaltyVar, Seq<char>, int)>) -> int
    decreases cs.len(),
{
    if cs.len() == 0 {
        0
    } else {
        abs_total(cs.drop_last()) + if cs.last().2 < 0 {
            -cs.last().2
        } else {
            cs.last().2
        }
    }
}

/// Sum of the contributions of rule `kind` on keys `keys`.
pub open spec fn bucket_total(
    cs: Seq<(PenaltyVar, Seq<char>, int)>,
    kind: PenaltyVar,
    keys: Seq<char>,
) -> int
    decreases cs.len(),
{
    if cs.len() == 0 {
        0
    } else {
        bucket_total(cs.drop_last(), kind, keys) + if cs.last().0 == kind && cs.last().1 == keys {
            cs.last().2
        } else {
            0
        }
    }
}

proof fn lemma_totals_concat(a: Seq<(PenaltyVar, Seq<char>, int)>, b: Seq<(PenaltyVar, Seq<char>, int)>)
    ensures
        contribution_total(a + b) == contribution_total(a) + contribution_total(b),
        abs_total(a + b) == abs_total(a) + abs_total(b),
        forall|kind: PenaltyVar, keys: Seq<char>|
            #[trigger] bucket_total(a + b, kind, keys) == bucket_total(a, kind, keys) + bucket_total(
                b,
                kind,
                keys,
            ),
    decreases b.len(),
{
    if b.len() == 0 {
        assert(a + b =~= a);
    } else {
        lemma_totals_concat(a, b.drop_last());
        assert((a + b).drop_last() =~= a + b.drop_last());
        assert((a + b).last() == b.last());
        assert forall|kind: PenaltyVar, keys: Seq<char>|
            #[trigger] bucket_total(a + b, kind, keys) == bucket_total(a, kind, keys) + bucket_total(
                b,
                kind,
                keys,
            ) by {
            assert(bucket_total(a + b.drop_last(), kind, keys) == bucket_total(a, kind, keys)
                + bucket_total(b.drop_last(), kind, keys));
        }
    }
}

proof fn lemma_bucket_within_abs(cs: Seq<(PenaltyVar, Seq<char>, int)>, kind: PenaltyVar, keys: Seq<char>)
    ensures
        -abs_total(cs) <= bucket_total(cs, kind, keys) <= abs_total(cs),
        -abs_total(cs) <= contribution_total(cs) <= abs_total(cs),
        abs_total(cs) >= 0,
    decreases cs.len(),
{
    if cs.len() > 0 {
        lemma_bucket_within_abs(cs.drop_last(), kind, keys);
    }
}

proof fn lemma_rule_contributions(rules: Seq<Penalty>, q: Seq<char>, count: int)
    requires
        count >= 0,
        forall|k: int|
            0 <= k < rules.len() ==> -MAX_RULE_PENALTY <= #[trigger] value_of(rules[k])
                <= MAX_RULE_PENALTY,
    ensures
        contribution_total(rule_contributions(rules, q, count)) == count * penalty_sum(rules),
        abs_total(rule_contributions(rules, q, count)) <= count * MAX_RULE_PENALTY * rules.len(),
    decreases rules.len(),
{
    if rules.len() > 0 {
        let init = rules.drop_last();
        let p = rules.last();
        assert forall|k: int| 0 <= k < init.len() implies -MAX_RULE_PENALTY <= #[trigger] value_of(init[k])
            <= MAX_RULE_PENALTY by {
            assert(init[k] == rules[k]);
        }
        lemma_rule_contributions(init, q, count);
        lemma_totals_concat(rule_contributions(init, q, count), contribution_of(p, q, count));
        let v = value_of(p);
        assert(-MAX_RULE_PENALTY <= value_of(rules[rules.len() - 1]) <= MAX_RULE_PENALTY);
        let s = penalty_sum(init);
        let n = init.len() as int;
        assert(count * (s + v) == count * s + count * v) by (nonlinear_arith);
        assert(-(count * MAX_RULE_PENALTY) <= count * v <= count * MAX_RULE_PENALTY) by (nonlinear_arith)
            requires
                -MAX_RULE_PENALTY <= v <= MAX_RULE_PENALTY,
                count >= 0,
        ;
        assert(count * MAX_RULE_PENALTY * n + count * MAX_RULE_PENALTY == count * MAX_RULE_PENALTY * (
        n + 1)) by (nonlinear_arith);
        let c = contribution_of(p, q, count);
        match p.value {
            Some(w) => {
                assert(c.drop_last() =~= Seq::<(PenaltyVar, Seq<char>, int)>::empty());
                assert(c.len() == 1);
                assert(c.last().2 == count * w);
                assert(contribution_total(c.drop_last()) == 0);
                assert(abs_total(c.drop_last()) == 0);
                assert(v == w);
                assert(contribution_total(c) == count * v);
                assert(abs_total(c) <= count * MAX_RULE_PENALTY);
            },
            None => {
                assert(contribution_total(c) == 0);
                assert(abs_total(c) == 0);
                assert(v == 0);
            },
        }
        assert(rules.drop_last() == init);
    }
}

/// The contributions of a table add up to its score, and their magnitudes
/// to at most the largest quartad cost per occurrence.
proof fn lemma_all_contributions(lookup: spec_fn(char) -> Option<KeyPress>, qs: Seq<(Quartad, usize)>)
    requires
        on_slots(lookup),
    ensures
        contribution_total(all_contributions(lookup, qs)) == total_score(lookup, qs),
        abs_total(all_contributions(lookup, qs)) <= MAX_QUARTAD_PENALTY * total_count(qs),
    decreases qs.len(),
{
    if qs.len() > 0 {
        lemma_all_contributions(lookup, qs.drop_last());
        let e = qs.last();
        lemma_totals_concat(all_contributions(lookup, qs.drop_last()), entry_contributions(lookup, e));
        if let Some(kq) = quartad_presses(lookup, e.0@) {
            assert(kq.curr.pos < NUM_KEYS);
            let rules = gated_rules(kq);
            assert forall|k: int| 0 <= k < rules.len() implies -MAX_RULE_PENALTY <= #[trigger] value_of(
                rules[k],
            ) <= MAX_RULE_PENALTY by {
                lemma_quartad_cost_bounds(kq);
                crate::penalty::lemma_rule_values_bounded(kq);
            }
            lemma_rule_contributions(rules, e.0@, e.1 as int);
            crate::penalty::lemma_rule_values_bounded(kq);
        }
    }
}

} // verus!

verus! {

/* ---------------------------------------------------------------------- *
 * Collecting the contributions of one quartad                            *
 * ---------------------------------------------------------------------- */

/// The contributions of the rules of one quartad, gathered as they are added.
pub struct DetailedPenalty {
    pub quartad: Quartad,
    pub count: usize,
    pub value: Vec<KeyContribution>,
}

pub open spec fn contributions_view(v: Seq<KeyContribution>) -> Seq<(PenaltyVar, Seq<char>, int)> {
    v.map_values(|c: KeyContribution| c@)
}

impl DetailedPenalty {
    pub fn new(quartad: Quartad, count: usize) -> (r: DetailedPenalty)
        ensures
            r.quartad == quartad,
            r.count == count,
            r.value@ == Seq::<KeyContribution>::empty(),
    {
        DetailedPenalty { count, quartad, value: Vec::new() }
    }

    /// Records the contribution of `p`, if it has a value, on the newest
    /// `p.relevant_keys` keys of the quartad.
    pub fn add(&mut self, p: Penalty)
        requires
            1 <= p.relevant_keys <= 4,
            -MAX_RULE_PENALTY <= value_of(p) <= MAX_RULE_PENALTY,
        ensures
            final(self).quartad == old(self).quartad,
            final(self).count == old(self).count,
            contributions_view(final(self).value@) == contributions_view(old(self).value@)
                + contribution_of(p, old(self).quartad@, old(self).count as int),
    {
        let ghost before = self.value@;
        if let Some(v) = p.value {
            let mut keys: Vec<char> = Vec::new();
            let from = 4 - p.relevant_keys;
            for j in from..4
                invariant
                    from == 4 - p.relevant_keys,
                    keys@ == self.quartad@.subrange(from as int, j as int),
            {
                keys.push(self.quartad.0[j]);
                assert(keys@ =~= self.quartad@.subrange(from as int, j + 1));
            }
            assert(v == value_of(p));
            assert(-(usize::MAX as int) * MAX_RULE_PENALTY <= self.count as int * v <= (usize::MAX as int) * MAX_RULE_PENALTY) by (nonlinear_arith)
                requires
                    -MAX_RULE_PENALTY <= v <= MAX_RULE_PENALTY,
                    0 <= self.count <= usize::MAX,
            ;
            let value = (self.count as i128) * (v as i128);
            self.value.push(KeyContribution { kind: p.kind, keys, value });
        }
        assert(contributions_view(self.value@) =~= contributions_view(before) + contribution_of(
            p,
            self.quartad@,
            self.count as int,
        ));
    }
}

/* ---------------------------------------------------------------------- *
 * Buckets                                                                *
 * ---------------------------------------------------------------------- */

/// Digest of keys below 128 after a seed, seven bits per key.
pub open spec fn keys_digest(seed: int, keys: Seq<char>) -> int
    decreases keys.len(),
{
    if keys.len() == 0 {
        seed
    } else {
        keys_digest(seed, keys.drop_last()) * 128 + (keys.last() as u32 as int) % 128
    }
}

/// Hash-table key of the bucket of rule `kind` on `keys`.
pub open spec fn bucket_code(kind: PenaltyVar, keys: Seq<char>) -> int {
    keys_digest(kind.spec_index() * 8 + keys.len(), keys)
}

/// Bound on a digest of `n` keys after a seed below 128.
pub open spec fn digest_bound(n: nat) -> int
    decreases n,
{
    if n == 0 {
        128
    } else {
        digest_bound((n - 1) as nat) * 128
    }
}

proof fn lemma_digest_bounds(seed: int, keys: Seq<char>)
    requires
        0 <= seed < 128,
    ensures
        0 <= keys_digest(seed, keys) < digest_bound(keys.len()),
    decreases keys.len(),
{
    if keys.len() > 0 {
        lemma_digest_bounds(seed, keys.drop_last());
    }
}

fn bucket_code_of(kind: PenaltyVar, keys: &Vec<char>) -> (r: u64)
    requires
        keys@.len() <= 4,
    ensures
        r == bucket_code(kind, keys@),
{
    let seed = kind.index() * 8 + keys.len() as u64;
    let mut code: u64 = seed;
    proof {
        reveal_with_fuel(digest_bound, 5);
        assert(digest_bound(4) == 34359738368);
    }
    for j in 0..keys.len()
        invariant
            seed == kind.spec_index() * 8 + keys@.len(),
            0 <= seed < 128,
            keys@.len() <= 4,
            digest_bound(4) == 34359738368,
            code == keys_digest(seed as int, keys@.take(j as int)),
    {
        proof {
            assert(keys@.take(j + 1).drop_last() =~= keys@.take(j as int));
            lemma_digest_bounds(seed as int, keys@.take(j as int));
            assert(digest_bound(j as nat) <= digest_bound(4)) by {
                reveal_with_fuel(digest_bound, 5);
            }
        }
        code = code * 128 + (keys[j] as u32 as u64) % 128;
    }
    assert(keys@.take(keys@.len() as int) =~= keys@);
    code
}

fn same_keys(a: &Vec<char>, b: &Vec<char>) -> (r: bool)
    ensures
        r == (a@ == b@),
{
    if a.len() != b.len() {
        return false;
    }
    for j in 0..a.len()
        invariant
            a@.len() == b@.len(),
            forall|m: int| 0 <= m < j ==> a@[m] == b@[m],
    {
        if a[j] != b[j] {
            return false;
        }
    }
    assert(a@ =~= b@);
    true
}

/// Buckets consistent with the contributions `cs`: one bucket for each
/// rule and keys that occur in `cs`, holding their sum, and a table from
/// bucket code to some bucket with that code.
pub open spec fn tally_ok(
    buckets: Seq<KeyContribution>,
    index: Map<u64, usize>,
    cs: Seq<(PenaltyVar, Seq<char>, int)>,
) -> bool {
    &&& forall|b: int|
        0 <= b < buckets.len() ==> (#[trigger] buckets[b]).keys@.len() <= 4 && index.contains_key(
            bucket_code(buckets[b].kind, buckets[b].keys@) as u64,
        ) && buckets[b].value == bucket_total(cs, buckets[b].kind, buckets[b].keys@)
    &&& forall|k: u64| #[trigger] index.contains_key(k) ==> index[k] < buckets.len()
    &&& forall|b1: int, b2: int|
        0 <= b1 < buckets.len() && 0 <= b2 < buckets.len() && b1 != b2 ==> !(
        #[trigger] buckets[b1].kind == #[trigger] buckets[b2].kind && buckets[b1].keys@
            == buckets[b2].keys@)
    &&& forall|i: int|
        0 <= i < cs.len() ==> exists|b: int|
            0 <= b < buckets.len() && #[trigger] buckets[b].kind == (#[trigger] cs[i]).0
                && buckets[b].keys@ == cs[i].1
    &&& forall|b: int|
        0 <= b < buckets.len() ==> occurs(cs, (#[trigger] buckets[b]).kind, buckets[b].keys@)
}

/// Some contribution of `cs` is of rule `kind` on `keys`.
pub open spec fn occurs(cs: Seq<(PenaltyVar, Seq<char>, int)>, kind: PenaltyVar, keys: Seq<char>) -> bool {
    exists|i: int| 0 <= i < cs.len() && (#[trigger] cs[i]).0 == kind && cs[i].1 == keys
}

proof fn lemma_occurs_push(
    cs: Seq<(PenaltyVar, Seq<char>, int)>,
    c: (PenaltyVar, Seq<char>, int),
    kind: PenaltyVar,
    keys: Seq<char>,
)
    ensures
        occurs(cs, kind, keys) ==> occurs(cs.push(c), kind, keys),
        (c.0 == kind && c.1 == keys) ==> occurs(cs.push(c), kind, keys),
{
    if occurs(cs, kind, keys) {
        let i = choose|i: int| 0 <= i < cs.len() && (#[trigger] cs[i]).0 == kind && cs[i].1 == keys;
        assert(cs.push(c)[i] == cs[i]);
    }
    if c.0 == kind && c.1 == keys {
        assert(cs.push(c)[cs.len() as int] == c);
    }
}

proof fn lemma_bucket_witness(cs: Seq<(PenaltyVar, Seq<char>, int)>, kind: PenaltyVar, keys: Seq<char>)
    requires
        bucket_total(cs, kind, keys) != 0,
    ensures
        exists|i: int| 0 <= i < cs.len() && (#[trigger] cs[i]).0 == kind && cs[i].1 == keys,
    decreases cs.len(),
{
    if cs.len() > 0 && !(cs.last().0 == kind && cs.last().1 == keys) {
        lemma_bucket_witness(cs.drop_last(), kind, keys);
        let i = choose|i: int| 0 <= i < cs.drop_last().len() && (#[trigger] cs.drop_last()[i]).0 == kind && cs.drop_last()[i].1 == keys;
        assert(cs[i] == cs.drop_last()[i]);
    }
}

} // verus!

verus! {

proof fn lemma_bucket_push(
    cs: Seq<(PenaltyVar, Seq<char>, int)>,
    c: (PenaltyVar, Seq<char>, int),
    kind: PenaltyVar,
    keys: Seq<char>,
)
    ensures
        bucket_total(cs.push(c), kind, keys) == bucket_total(cs, kind, keys) + if c.0 == kind
            && c.1 == keys {
            c.2
        } else {
            0
        },
        abs_total(cs.push(c)) >= abs_total(cs),
{
    assert(cs.push(c).drop_last() =~= cs);
}

/// Index of the bucket of rule `kind` on `keys`, or the number of buckets
/// when there is none.
#[verifier::spinoff_prover]
fn find_bucket(
    buckets: &Vec<KeyContribution>,
    index: &HashMap<u64, usize>,
    kind: PenaltyVar,
    keys: &Vec<char>,
) -> (at: usize)
    requires
        keys@.len() <= 4,
        forall|b: int|
            0 <= b < buckets@.len() ==> index@.contains_key(
                bucket_code((#[trigger] buckets@[b]).kind, buckets@[b].keys@) as u64,
            ),
        forall|k: u64| #[trigger] index@.contains_key(k) ==> index@[k] < buckets@.len(),
    ensures
        at <= buckets@.len(),
        at < buckets@.len() ==> buckets@[at as int].kind == kind && buckets@[at as int].keys@
            == keys@,
        at == buckets@.len() ==> forall|m: int|
            0 <= m < buckets@.len() ==> !(#[trigger] buckets@[m].kind == kind && buckets@[m].keys@
                == keys@),
{
    let code = bucket_code_of(kind, keys);
    match index.get(&code) {
        Some(found) => {
            let b = *found;
            if buckets[b].kind == kind && same_keys(&buckets[b].keys, keys) {
                return b;
            }
            // Another bucket has the same code: look through all of them.
            let mut j: usize = 0;
            while j < buckets.len()
                invariant
                    j <= buckets@.len(),
                    forall|m: int|
                        0 <= m < j ==> !(#[trigger] buckets@[m].kind == kind && buckets@[m].keys@
                            == keys@),
                decreases buckets@.len() - j,
            {
                if buckets[j].kind == kind && same_keys(&buckets[j].keys, keys) {
                    return j;
                }
                j = j + 1;
            }
            buckets.len()
        },
        None => {
            proof {
                assert forall|m: int| 0 <= m < buckets@.len() implies !(
                #[trigger] buckets@[m].kind == kind && buckets@[m].keys@ == keys@) by {
                    if buckets@[m].kind == kind && buckets@[m].keys@ == keys@ {
                        assert(index@.contains_key(code));
                    }
                }
            }
            buckets.len()
        },
    }
}

/// Adds contribution `c` to bucket `at`, which is the bucket of its rule and keys.
#[verifier::spinoff_prover]
fn add_to_bucket(
    buckets: &mut Vec<KeyContribution>,
    index: &HashMap<u64, usize>,
    at: usize,
    c: KeyContribution,
    Ghost(cs): Ghost<Seq<(PenaltyVar, Seq<char>, int)>>,
)
    requires
        tally_ok(old(buckets)@, index@, cs),
        at < old(buckets)@.len(),
        old(buckets)@[at as int].kind == c.kind,
        old(buckets)@[at as int].keys@ == c.keys@,
        abs_total(cs.push(c@)) <= crate::simulator::PENALTY_LIMIT,
    ensures
        tally_ok(final(buckets)@, index@, cs.push(c@)),
{
    let ghost cs2 = cs.push(c@);
    let ghost old_buckets = buckets@;
    proof {
        lemma_bucket_push(cs, c@, c.kind, c.keys@);
        lemma_bucket_within_abs(cs2, c.kind, c.keys@);
    }
    let sum = buckets[at].value + c.value;
    buckets[at].value = sum;
    proof {
        let nb = buckets@;
        assert forall|b: int| 0 <= b < nb.len() implies (#[trigger] nb[b]).keys@.len() <= 4
            && index@.contains_key(bucket_code(nb[b].kind, nb[b].keys@) as u64) && nb[b].value
            == bucket_total(cs2, nb[b].kind, nb[b].keys@) by {
            lemma_bucket_push(cs, c@, old_buckets[b].kind, old_buckets[b].keys@);
            if b != at {
                assert(nb[b] == old_buckets[b]);
            }
        }
        assert forall|i: int| 0 <= i < cs2.len() implies exists|b: int|
            0 <= b < nb.len() && #[trigger] nb[b].kind == (#[trigger] cs2[i]).0 && nb[b].keys@
                == cs2[i].1 by {
            if i < cs.len() {
                assert(cs2[i] == cs[i]);
                let b = choose|b: int|
                    0 <= b < old_buckets.len() && #[trigger] old_buckets[b].kind == (
                    #[trigger] cs[i]).0 && old_buckets[b].keys@ == cs[i].1;
                assert(nb[b].kind == old_buckets[b].kind && nb[b].keys@ == old_buckets[b].keys@);
            } else {
                assert(nb[at as int].kind == cs2[i].0);
            }
        }
        assert forall|b1: int, b2: int|
            0 <= b1 < nb.len() && 0 <= b2 < nb.len() && b1 != b2 implies !(
            #[trigger] nb[b1].kind == #[trigger] nb[b2].kind && nb[b1].keys@ == nb[b2].keys@) by {
            assert(nb[b1].kind == old_buckets[b1].kind && nb[b1].keys@ == old_buckets[b1].keys@);
            assert(nb[b2].kind == old_buckets[b2].kind && nb[b2].keys@ == old_buckets[b2].keys@);
        }
        assert forall|b: int| 0 <= b < nb.len() implies occurs(cs2, (#[trigger] nb[b]).kind, nb[b].keys@) by {
            assert(nb[b].kind == old_buckets[b].kind && nb[b].keys@ == old_buckets[b].keys@);
            lemma_occurs_push(cs, c@, old_buckets[b].kind, old_buckets[b].keys@);
        }
    }
}

/// Opens a bucket for contribution `c`, whose rule and keys have none yet.
#[verifier::spinoff_prover]
fn open_bucket(
    buckets: &mut Vec<KeyContribution>,
    index: &mut HashMap<u64, usize>,
    c: KeyContribution,
    Ghost(cs): Ghost<Seq<(PenaltyVar, Seq<char>, int)>>,
)
    requires
        tally_ok(old(buckets)@, old(index)@, cs),
        c.keys@.len() <= 4,
        forall|m: int|
            0 <= m < old(buckets)@.len() ==> !(#[trigger] old(buckets)@[m].kind == c.kind && old(
                buckets,
            )@[m].keys@ == c.keys@),
    ensures
        tally_ok(final(buckets)@, final(index)@, cs.push(c@)),
{
    let ghost cs2 = cs.push(c@);
    let ghost old_buckets = buckets@;
    let ghost old_index = index@;
    proof {
        lemma_bucket_push(cs, c@, c.kind, c.keys@);
        if bucket_total(cs, c.kind, c.keys@) != 0 {
            lemma_bucket_witness(cs, c.kind, c.keys@);
            let i = choose|i: int| 0 <= i < cs.len() && (#[trigger] cs[i]).0 == c.kind && cs[i].1 == c.keys@;
            let b = choose|b: int|
                0 <= b < old_buckets.len() && #[trigger] old_buckets[b].kind == (#[trigger] cs[i]).0
                    && old_buckets[b].keys@ == cs[i].1;
        }
    }
    let code = bucket_code_of(c.kind, &c.keys);
    let n = buckets.len();
    buckets.push(c);
    if index.get(&code).is_none() {
        index.insert(code, n);
    }
    proof {
        let nb = buckets@;
        assert forall|k: u64| #[trigger] index@.contains_key(k) implies index@[k] < nb.len() by {
            if k != code {
                assert(old_index.contains_key(k));
            }
        }
        assert forall|b: int| 0 <= b < nb.len() implies (#[trigger] nb[b]).keys@.len() <= 4
            && index@.contains_key(bucket_code(nb[b].kind, nb[b].keys@) as u64) && nb[b].value
            == bucket_total(cs2, nb[b].kind, nb[b].keys@) by {
            if b < n {
                assert(nb[b] == old_buckets[b]);
                lemma_bucket_push(cs, c@, old_buckets[b].kind, old_buckets[b].keys@);
            }
        }
        assert forall|i: int| 0 <= i < cs2.len() implies exists|b: int|
            0 <= b < nb.len() && #[trigger] nb[b].kind == (#[trigger] cs2[i]).0 && nb[b].keys@
                == cs2[i].1 by {
            if i < cs.len() {
                assert(cs2[i] == cs[i]);
                let b = choose|b: int|
                    0 <= b < old_buckets.len() && #[trigger] old_buckets[b].kind == (
                    #[trigger] cs[i]).0 && old_buckets[b].keys@ == cs[i].1;
                assert(nb[b] == old_buckets[b]);
            } else {
                assert(nb[n as int].kind == cs2[i].0);
            }
        }
        assert forall|b1: int, b2: int|
            0 <= b1 < nb.len() && 0 <= b2 < nb.len() && b1 != b2 implies !(
            #[trigger] nb[b1].kind == #[trigger] nb[b2].kind && nb[b1].keys@ == nb[b2].keys@) by {
            if b1 < n && b2 < n {
                assert(nb[b1] == old_buckets[b1] && nb[b2] == old_buckets[b2]);
            }
        }
        assert forall|b: int| 0 <= b < nb.len() implies occurs(cs2, (#[trigger] nb[b]).kind, nb[b].keys@) by {
            if b < n {
                assert(nb[b] == old_buckets[b]);
                lemma_occurs_push(cs, c@, old_buckets[b].kind, old_buckets[b].keys@);
            } else {
                lemma_occurs_push(cs, c@, c.kind, c.keys@);
            }
        }
    }
}

} // verus!

verus! {

/// `buckets` is the breakdown of the contributions `cs`: one bucket for each
/// rule and keys that occur in `cs` and for no other, none twice, each
/// holding the sum of its contributions.
pub open spec fn is_breakdown(buckets: Seq<KeyContribution>, cs: Seq<(PenaltyVar, Seq<char>, int)>) -> bool {
    &&& forall|b: int|
        0 <= b < buckets.len() ==> (#[trigger] buckets[b]).value == bucket_total(
            cs,
            buckets[b].kind,
            buckets[b].keys@,
        )
    &&& forall|b1: int, b2: int|
        0 <= b1 < buckets.len() && 0 <= b2 < buckets.len() && b1 != b2 ==> !(
        #[trigger] buckets[b1].kind == #[trigger] buckets[b2].kind && buckets[b1].keys@
            == buckets[b2].keys@)
    &&& forall|i: int|
        0 <= i < cs.len() ==> exists|b: int|
            0 <= b < buckets.len() && #[trigger] buckets[b].kind == (#[trigger] cs[i]).0
                && buckets[b].keys@ == cs[i].1
    &&& forall|b: int|
        0 <= b < buckets.len() ==> occurs(cs, (#[trigger] buckets[b]).kind, buckets[b].keys@)
}

/// A score with its breakdown by rule and keys.
pub struct LayoutPenalty {
    pub total: i128,
    /// Length of the corpus in characters; `total / len` is the scaled score.
    pub len: usize,
    pub high_keys: Vec<KeyContribution>,
}

proof fn lemma_contribution_keys(rules: Seq<Penalty>, q: Seq<char>, count: int)
    requires
        q.len() == 4,
        forall|k: int| 0 <= k < rules.len() ==> 1 <= (#[trigger] rules[k]).relevant_keys <= 4,
    ensures
        forall|j: int|
            0 <= j < rule_contributions(rules, q, count).len() ==> (#[trigger] rule_contributions(
                rules,
                q,
                count,
            )[j]).1.len() <= 4,
    decreases rules.len(),
{
    if rules.len() > 0 {
        let init = rules.drop_last();
        assert forall|k: int| 0 <= k < init.len() implies 1 <= (#[trigger] init[k]).relevant_keys <= 4 by {
            assert(init[k] == rules[k]);
        }
        lemma_contribution_keys(init, q, count);
        let p = rules[rules.len() - 1];
        assert(1 <= p.relevant_keys <= 4);
        let a = rule_contributions(init, q, count);
        let b = contribution_of(p, q, count);
        assert(rule_contributions(rules, q, count) == a + b);
        assert forall|j: int| 0 <= j < (a + b).len() implies (#[trigger] (a + b)[j]).1.len() <= 4 by {
            if j < a.len() {
                assert((a + b)[j] == a[j]);
            } else {
                assert((a + b)[j] == b[j - a.len()]);
            }
        }
    }
}

impl Layout {
    /// The score of the layout on the corpus with its breakdown: the same
    /// total as `penalize`, and each rule's contributions bucketed by the
    /// keys that triggered them.
    #[verifier::spinoff_prover]
    pub fn penalize_with_details(&self, corpus: &Corpus) -> (r: LayoutPenalty)
        requires
            corpus.wf(),
        ensures
            r.total == layout_score(self@, corpus.quartads@),
            r.len == corpus.len,
            is_breakdown(r.high_keys@, all_contributions(layout_lookup(self@), corpus.quartads@)),
    {
        let pos_map = self.get_position_map();
        let ghost lookup = layout_lookup(self@);
        let ghost qs = corpus.quartads@;
        proof {
            self.lemma_pos_map_lookup(&pos_map);
            lemma_layout_on_slots(self@);
        }
        let mut total: i128 = 0;
        let mut buckets: Vec<KeyContribution> = Vec::new();
        let mut index: HashMap<u64, usize> = HashMap::new();
        proof {
            assert(qs.take(0) =~= Seq::<(Quartad, usize)>::empty());
        }
        for i in 0..corpus.quartads.len()
            invariant
                corpus.wf(),
                qs == corpus.quartads@,
                pos_map.wf(),
                pos_map.lookup() == lookup,
                lookup == layout_lookup(self@),
                on_slots(lookup),
                total == contribution_total(all_contributions(lookup, qs.take(i as int))),
                tally_ok(buckets@, index@, all_contributions(lookup, qs.take(i as int))),
        {
            let ghost prev = all_contributions(lookup, qs.take(i as int));
            let ghost next = all_contributions(lookup, qs.take(i + 1));
            proof {
                assert(qs.take(i + 1).drop_last() =~= qs.take(i as int));
                lemma_all_contributions(lookup, qs.take(i + 1));
                crate::scoring::lemma_total_count_prefix(qs, i + 1);
                assert(corpus.len <= usize::MAX);
            }
            let entry = &corpus.quartads[i];
            match entry.0.get_kp_quartad(&pos_map) {
                Some(kq) => {
                    assert(kq.curr.pos < NUM_KEYS);
                    let mut details = DetailedPenalty::new(entry.0, entry.1);
                    let rules = penalize_kp_quartad(&kq);
                    proof {
                        crate::penalty::lemma_rule_values_bounded(kq);
                        lemma_contribution_keys(rules@, entry.0@, entry.1 as int);
                    }
                    for r in 0..rules.len()
                        invariant
                            details.quartad == entry.0,
                            details.count == entry.1,
                            rules@ == gated_rules(kq),
                            kq.curr.pos < NUM_KEYS,
                            rules@.len() == 16,
                            forall|k: int|
                                0 <= k < 16 ==> #[trigger] value_of(rules@[k]) <= MAX_RULE_PENALTY
                                    && (k == crate::penalty::ROLL_IN_INDEX || 0 <= value_of(rules@[k])),
                            forall|k: int|
                                0 <= k < 16 ==> 1 <= (#[trigger] rules@[k]).relevant_keys <= 4,
                            contributions_view(details.value@) == rule_contributions(
                                rules@.take(r as int),
                                entry.0@,
                                entry.1 as int,
                            ),
                    {
                        proof {
                            assert(rules@.take(r + 1).drop_last() =~= rules@.take(r as int));
                            crate::penalty::lemma_rule_values_bounded(kq);
                            assert(-1 <= value_of(rules@[r as int]));
                        }
                        details.add(rules[r]);
                    }
                    let ghost ec = contributions_view(details.value@);
                    proof {
                        assert(rules@.take(16) =~= rules@);
                        assert(ec == entry_contributions(lookup, qs[i as int]));
                        assert(next == prev + ec);
                        lemma_totals_concat(prev, ec);
                        assert(abs_total(next) <= MAX_QUARTAD_PENALTY * total_count(qs));
                        assert(abs_total(next) <= crate::simulator::PENALTY_LIMIT);
                        assert(prev + Seq::<(PenaltyVar, Seq<char>, int)>::empty() =~= prev);
                    }
                    let ghost mut done: Seq<(PenaltyVar, Seq<char>, int)> = Seq::empty();
                    while details.value.len() > 0
                        invariant
                            ec == done + contributions_view(details.value@),
                            forall|j: int|
                                0 <= j < ec.len() ==> (#[trigger] ec[j]).1.len() <= 4,
                            abs_total(next) <= crate::simulator::PENALTY_LIMIT,
                            next == prev + ec,
                            total == contribution_total(prev + done),
                            tally_ok(buckets@, index@, prev + done),
                        decreases details.value@.len(),
                    {
                        let c = details.value.remove(0);
                        let ghost done2 = done.push(c@);
                        proof {
                            let rest = contributions_view(details.value@);
                            assert(ec =~= done2 + rest);
                            assert(c@ == ec[done.len() as int]);
                            assert(c.keys@.len() <= 4);
                            assert(prev + done2 == (prev + done).push(c@));
                            lemma_totals_concat(prev + done2, rest);
                            assert(next =~= (prev + done2) + rest);
                            lemma_bucket_within_abs(rest, c.kind, c.keys@);
                            lemma_bucket_within_abs(prev + done2, c.kind, c.keys@);
                            lemma_totals_concat(prev + done, seq![c@]);
                            let one = seq![c@];
                            assert(one.drop_last() =~= Seq::<(PenaltyVar, Seq<char>, int)>::empty());
                            assert(one.len() == 1 && one.last() == c@);
                            assert(contribution_total(one.drop_last()) == 0);
                            assert(contribution_total(one) == c@.2);
                            assert((prev + done) + seq![c@] =~= prev + done2);
                            assert(contribution_total(prev + done2) == contribution_total(prev + done) + c.value);
                            assert(abs_total(prev + done2) <= abs_total(next));
                        }
                        total = total + c.value;
                        let at = find_bucket(&buckets, &index, c.kind, &c.keys);
                        if at < buckets.len() {
                            add_to_bucket(&mut buckets, &index, at, c, Ghost(prev + done));
                        } else {
                            open_bucket(&mut buckets, &mut index, c, Ghost(prev + done));
                        }
                        proof {
                            done = done2;
                        }
                    }
                    proof {
                        assert(done =~= ec);
                    }
                },
                None => {
                    proof {
                        assert(next =~= prev);
                    }
                },
            }
        }
        proof {
            assert(qs.take(qs.len() as int) =~= qs);
            lemma_all_contributions(lookup, qs);
        }
        LayoutPenalty { total, len: corpus.len, high_keys: buckets }
    }
}

} // verus!

verus! {

/// The breakdown is observational: the contributions of every rule on
/// every quartad add up to exactly the score of the layout.
pub proof fn lemma_breakdown_total(l: (Seq<char>, Seq<char>), qs: Seq<(Quartad, usize)>)
    requires
        l.0.len() == NUM_KEYS,
        l.1.len() == NUM_KEYS,
    ensures
        contribution_total(all_contributions(layout_lookup(l), qs)) == layout_score(l, qs),
{
    lemma_layout_on_slots(l);
    lemma_all_contributions(layout_lookup(l), qs);
}

} // verus!
