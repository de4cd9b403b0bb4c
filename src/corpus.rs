//! A corpus as a table of its quartads: the runs of four consecutive
//! characters that all resolve under a layout, with their counts.
use crate::layout::{lemma_code_injective, position_of, Layout};
use crate::utils::chars_of;
use std::collections::HashMap;
use vstd::prelude::*;

verus! {

broadcast use vstd::std_specs::hash::group_hash_axioms;

/// Four consecutive characters of a corpus, oldest first.
#[derive(Debug, Clone, Copy, PartialEq, Eq)]
pub struct Quartad(pub [char; 4]);

impl View for Quartad {
    type V = Seq<char>;

    open spec fn view(&self) -> Seq<char> {
        self.0@
    }
}

/// The distinct quartads of a text with the number of times each occurs,
/// and the length of the text in characters.
pub struct Corpus {
    pub quartads: Vec<(Quartad, usize)>,
    pub len: usize,
}

/// Whether `c` resolves to a key under the layout `l`.
pub open spec fn resolves(l: (Seq<char>, Seq<char>), c: char) -> bool {
    position_of(l, c) is Some
}

/// Number of consecutive resolving characters of `t` that end at index `i`.
pub open spec fn run_len(t: Seq<char>, l: (Seq<char>, Seq<char>), i: int) -> nat
    decreases i + 1,
{
    if i < 0 || i >= t.len() || !resolves(l, t[i]) {
        0
    } else {
        run_len(t, l, i - 1) + 1
    }
}

/// A quartad ends at index `i`: it and the three characters before it resolve.
pub open spec fn emitted(t: Seq<char>, l: (Seq<char>, Seq<char>), i: int) -> bool {
    run_len(t, l, i) >= 4
}

/// The four characters that end at index `i`.
pub open spec fn window(t: Seq<char>, i: int) -> Seq<char> {
    t.subrange(i - 3, i + 1)
}

/// How often `q` ends at an index below `n`.
pub open spec fn count_of(t: Seq<char>, l: (Seq<char>, Seq<char>), q: Seq<char>, n: int) -> nat
    decreases n,
{
    if n <= 0 {
        0
    } else {
        count_of(t, l, q, n - 1) + if emitted(t, l, n - 1) && window(t, n - 1) == q {
            1nat
        } else {
            0nat
        }
    }
}

/// How many quartads end at an index below `n`.
pub open spec fn emitted_count(t: Seq<char>, l: (Seq<char>, Seq<char>), n: int) -> nat
    decreases n,
{
    if n <= 0 {
        0
    } else {
        emitted_count(t, l, n - 1) + if emitted(t, l, n - 1) {
            1nat
        } else {
            0nat
        }
    }
}

/// Sum of the counts of a quartad table.
pub open spec fn total_count(s: Seq<(Quartad, usize)>) -> nat
    decreases s.len(),
{
    if s.len() == 0 {
        0
    } else {
        total_count(s.drop_last()) + s.last().1 as nat
    }
}

/// Key of a quartad in the counting table; distinct for quartads of
/// characters below 128.
pub open spec fn quartad_key(q: Seq<char>) -> int {
    ((q[0] as u32 as int * 128 + q[1] as u32 as int) * 128 + q[2] as u32 as int) * 128
        + q[3] as u32 as int
}

impl Corpus {
    pub open spec fn wf(&self) -> bool {
        total_count(self.quartads@) <= self.len
    }

    /// `self` is the quartad table of text `t` under layout `l`: each
    /// quartad once, with its count, and every quartad of `t` present.
    pub open spec fn is_corpus_of(&self, t: Seq<char>, l: (Seq<char>, Seq<char>)) -> bool {
        &&& self.len == t.len()
        &&& forall|j: int|
            0 <= j < self.quartads@.len() ==> #[trigger] self.quartads@[j].1 == count_of(
                t,
                l,
                self.quartads@[j].0@,
                t.len() as int,
            ) && self.quartads@[j].1 > 0
        &&& forall|j: int, j2: int|
            0 <= j < self.quartads@.len() && 0 <= j2 < self.quartads@.len() && j != j2
                ==> #[trigger] self.quartads@[j].0@ != #[trigger] self.quartads@[j2].0@
        &&& forall|i: int|
            0 <= i < t.len() && #[trigger] emitted(t, l, i) ==> exists|j: int|
                0 <= j < self.quartads@.len() && #[trigger] self.quartads@[j].0@ == window(t, i)
    }
}

proof fn lemma_total_count_update(s: Seq<(Quartad, usize)>, j: int, x: (Quartad, usize))
    requires
        0 <= j < s.len(),
    ensures
        total_count(s.update(j, x)) == total_count(s) - s[j].1 + x.1,
    decreases s.len(),
{
    if j < s.len() - 1 {
        lemma_total_count_update(s.drop_last(), j, x);
        assert(s.update(j, x).drop_last() =~= s.drop_last().update(j, x));
    } else {
        assert(s.update(j, x).drop_last() =~= s.drop_last());
    }
}

proof fn lemma_emitted_count_bound(t: Seq<char>, l: (Seq<char>, Seq<char>), n: int)
    ensures
        emitted_count(t, l, n) <= if n < 0 { 0 } else { n },
    decreases n,
{
    if n > 0 {
        lemma_emitted_count_bound(t, l, n - 1);
    }
}

proof fn lemma_quartad_key_injective(a: Seq<char>, b: Seq<char>)
    requires
        a.len() == 4,
        b.len() == 4,
        forall|k: int| 0 <= k < 4 ==> (#[trigger] a[k] as u32) < 128 && (b[k] as u32) < 128,
        quartad_key(a) == quartad_key(b),
    ensures
        a == b,
{
    assert((a[0] as u32) < 128 && (a[1] as u32) < 128 && (a[2] as u32) < 128 && (a[3] as u32) < 128);
    assert((b[0] as u32) < 128 && (b[1] as u32) < 128 && (b[2] as u32) < 128 && (b[3] as u32) < 128);
    assert(a[3] as u32 == b[3] as u32);
    assert(a[2] as u32 == b[2] as u32);
    assert(a[1] as u32 == b[1] as u32);
    assert(a[0] as u32 == b[0] as u32);
    assert forall|k: int| 0 <= k < 4 implies a[k] == b[k] by {
        lemma_code_injective(a[k], b[k]);
    }
    assert(a =~= b);
}

proof fn lemma_count_bound(t: Seq<char>, l: (Seq<char>, Seq<char>), q: Seq<char>, n: int)
    ensures
        count_of(t, l, q, n) <= emitted_count(t, l, n),
    decreases n,
{
    if n > 0 {
        lemma_count_bound(t, l, q, n - 1);
    }
}

proof fn lemma_count_witness(t: Seq<char>, l: (Seq<char>, Seq<char>), q: Seq<char>, n: int)
    requires
        count_of(t, l, q, n) > 0,
    ensures
        exists|p: int| 0 <= p < n && #[trigger] emitted(t, l, p) && window(t, p) == q,
    decreases n,
{
    if n > 0 && !(emitted(t, l, n - 1) && window(t, n - 1) == q) {
        lemma_count_witness(t, l, q, n - 1);
    }
}

proof fn lemma_run_resolves(t: Seq<char>, l: (Seq<char>, Seq<char>), i: int, k: int)
    requires
        0 <= k < run_len(t, l, i),
    ensures
        0 <= i - k < t.len(),
        resolves(l, t[i - k]),
    decreases k,
{
    if k > 0 {
        lemma_run_resolves(t, l, i - 1, k - 1);
    }
}

/// A resolving character has a code below 128.
proof fn lemma_resolves_small(l: (Seq<char>, Seq<char>), c: char)
    requires
        resolves(l, c),
    ensures
        0 < (c as u32) < 128,
{
}

impl Corpus {
    /// The quartad table of `text` under `layout`.
    #[verifier::spinoff_prover]
    pub fn from_chars(text: &Vec<char>, layout: &Layout) -> (r: Corpus)
        ensures
            r.wf(),
            r.is_corpus_of(text@, layout@),
    {
        let ghost t = text@;
        let ghost l = layout@;
        let pos_map = layout.get_position_map();
        let mut quartads: Vec<(Quartad, usize)> = Vec::new();
        let mut index: HashMap<u64, usize> = HashMap::new();
        let mut run: usize = 0;
        for i in 0..text.len()
            invariant
                t == text@,
                l == layout@,
                pos_map.wf(),
                forall|c: char| #[trigger] pos_map.spec_get(c) == position_of(l, c),
                run == run_len(t, l, i - 1),
                run <= i,
                forall|j: int, k: int|
                    0 <= j < quartads@.len() && 0 <= k < 4 ==> resolves(
                        l,
                        #[trigger] quartads@[j].0@[k],
                    ),
                forall|j: int|
                    0 <= j < quartads@.len() ==> #[trigger] index@.contains_key(
                        quartad_key(quartads@[j].0@) as u64,
                    ) && index@[quartad_key(quartads@[j].0@) as u64] == j,
                forall|kk: u64|
                    #[trigger] index@.contains_key(kk) ==> index@[kk] < quartads@.len()
                        && quartad_key(quartads@[index@[kk] as int].0@) == kk,
                forall|j: int|
                    0 <= j < quartads@.len() ==> #[trigger] quartads@[j].1 == count_of(
                        t,
                        l,
                        quartads@[j].0@,
                        i as int,
                    ) && quartads@[j].1 > 0,
                forall|j: int, j2: int|
                    0 <= j < quartads@.len() && 0 <= j2 < quartads@.len() && j != j2
                        ==> #[trigger] quartads@[j].0@ != #[trigger] quartads@[j2].0@,
                forall|p: int|
                    0 <= p < i && #[trigger] emitted(t, l, p) ==> exists|j: int|
                        0 <= j < quartads@.len() && #[trigger] quartads@[j].0@ == window(t, p),
                total_count(quartads@) == emitted_count(t, l, i as int),
        {
            let c = text[i];
            let ghost qs0 = quartads@;
            let ghost mut hit: int = 0;
            proof {
                lemma_emitted_count_bound(t, l, i as int);
            }
            if pos_map.get_key_position(c).is_some() {
                run = run + 1;
                assert(run == run_len(t, l, i as int));
                if run >= 4 {
                    let q = Quartad([text[i - 3], text[i - 2], text[i - 1], c]);
                    proof {
                        assert(q@ =~= window(t, i as int));
                        assert forall|k: int| 0 <= k < 4 implies resolves(l, #[trigger] q@[k]) by {
                            lemma_run_resolves(t, l, i as int, 3 - k);
                        }
                        lemma_resolves_small(l, q@[0]);
                        lemma_resolves_small(l, q@[1]);
                        lemma_resolves_small(l, q@[2]);
                        lemma_resolves_small(l, q@[3]);
                    }
                    let key: u64 = (((q.0[0] as u32 as u64) * 128 + q.0[1] as u32 as u64) * 128
                        + q.0[2] as u32 as u64) * 128 + q.0[3] as u32 as u64;
                    assert(key == quartad_key(q@));
                    match index.get(&key) {
                        Some(found) => {
                            let j = *found;
                            let (known, count) = quartads[j];
                            proof {
                                let qj = quartads@[j as int].0@;
                                assert forall|k: int| 0 <= k < 4 implies (#[trigger] qj[k] as u32)
                                    < 128 && (q@[k] as u32) < 128 by {
                                    lemma_resolves_small(l, qj[k]);
                                    lemma_resolves_small(l, q@[k]);
                                }
                                lemma_quartad_key_injective(qj, q@);
                                lemma_count_bound(t, l, qj, i as int);
                                lemma_total_count_update(
                                    quartads@,
                                    j as int,
                                    (known, (count + 1) as usize),
                                );
                            }
                            let ghost before = quartads@;
                            quartads.set(j, (known, count + 1));
                            proof {
                                assert forall|j2: int| 0 <= j2 < quartads@.len() implies #[trigger] quartads@[j2].0@ == before[j2].0@ by {}
                                assert forall|j2: int| 0 <= j2 < quartads@.len() implies #[trigger] index@.contains_key(
                                    quartad_key(quartads@[j2].0@) as u64,
                                ) && index@[quartad_key(quartads@[j2].0@) as u64] == j2 by {
                                    assert(quartads@[j2].0@ == before[j2].0@);
                                    assert(index@.contains_key(quartad_key(before[j2].0@) as u64));
                                }
                                assert(quartads@[j as int].0@ == window(t, i as int));
                                hit = j as int;
                            }
                        },
                        None => {
                            proof {
                                if count_of(t, l, q@, i as int) > 0 {
                                    lemma_count_witness(t, l, q@, i as int);
                                }
                                assert(quartads@.push((q, 1usize)).drop_last() =~= quartads@);
                            }
                            let ghost before = quartads@;
                            let ghost index_before = index@;
                            index.insert(key, quartads.len());
                            quartads.push((q, 1));
                            proof {
                                assert forall|j2: int| 0 <= j2 < before.len() implies #[trigger] quartads@[j2] == before[j2] by {}
                                assert forall|j2: int| 0 <= j2 < before.len() implies quartad_key(#[trigger] before[j2].0@) as u64 != key by {
                                    assert(index_before.contains_key(quartad_key(before[j2].0@) as u64));
                                }
                                assert forall|j2: int| 0 <= j2 < quartads@.len() implies #[trigger] index@.contains_key(
                                    quartad_key(quartads@[j2].0@) as u64,
                                ) && index@[quartad_key(quartads@[j2].0@) as u64] == j2 by {
                                    if j2 < before.len() {
                                        assert(quartads@[j2] == before[j2]);
                                        assert(index_before.contains_key(quartad_key(before[j2].0@) as u64));
                                        assert(quartad_key(before[j2].0@) as u64 != key);
                                    } else {
                                        assert(quartads@[j2].0@ == q@);
                                    }
                                }
                                assert(quartads@[before.len() as int].0@ == window(t, i as int));
                                hit = before.len() as int;
                            }
                        },
                    }
                }
            } else {
                run = 0;
                assert(run == run_len(t, l, i as int));
            }
            assert(run == run_len(t, l, i as int));
            proof {
                assert forall|j: int| 0 <= j < qs0.len() implies #[trigger] quartads@[j].0@ == qs0[j].0@ by {}
                assert forall|p: int| 0 <= p < i + 1 && #[trigger] emitted(t, l, p) implies exists|j: int|
                    0 <= j < quartads@.len() && #[trigger] quartads@[j].0@ == window(t, p) by {
                    if p < i {
                        let j = choose|j: int| 0 <= j < qs0.len() && #[trigger] qs0[j].0@ == window(t, p);
                        assert(quartads@[j].0@ == window(t, p));
                    } else {
                        assert(quartads@[hit].0@ == window(t, p));
                    }
                }
            }
        }
        proof {
            lemma_emitted_count_bound(t, l, text.len() as int);
        }
        let r = Corpus { quartads, len: text.len() };
        assert forall|p: int| 0 <= p < t.len() && #[trigger] emitted(t, l, p) implies exists|j: int|
            0 <= j < r.quartads@.len() && #[trigger] r.quartads@[j].0@ == window(t, p) by {
            let j = choose|j: int| 0 <= j < r.quartads@.len() && #[trigger] r.quartads@[j].0@ == window(t, p);
        }
        r
    }

    /// The quartad table of `text` under `layout`.
    pub fn from_text(text: &str, layout: &Layout) -> (r: Corpus)
        ensures
            r.wf(),
            r.is_corpus_of(text@, layout@),
    {
        let chars = chars_of(text);
        Corpus::from_chars(&chars, layout)
    }
}

} // verus!
