//! The penalty model: sixteen ergonomic rules evaluated on four consecutive
//! key presses.
//!
//! Penalties are whole numbers of eighths of a point, so that every weight of
//! the model, the small reward for an inward roll included, is exact.
use crate::layout::{Finger, KeyPress, Row, NUM_KEYS};
use vstd::prelude::*;

verus! {

/// Penalty units in one point.
pub const UNITS_PER_POINT: i64 = 8;

/// Same finger on two different keys; again as much for each of the two
/// keys in a centre column.
pub const SAME_FINGER_PENALTY: i64 = 80;
/// Same finger jumping between the top and the bottom row.
pub const LONG_JUMP_PENALTY: i64 = 40;
/// Same hand jumping between the top and the bottom row.
pub const LONG_JUMP_HAND_PENALTY: i64 = 8;
/// Neighbouring fingers jumping between the top and the bottom row, except
/// from the middle finger on the top row to the index finger on the bottom row.
pub const LONG_JUMP_CONSECUTIVE_PENALTY: i64 = 40;
/// Ring finger stretched above both its neighbours in a three-key roll.
pub const RING_STRETCH_PENALTY: i64 = 160;
/// Pinky following the ring finger.
pub const PINKY_RING_PENALTY: i64 = 40;
/// Pinky reaching above the ring finger, or the ring finger below the pinky.
pub const PINKY_RING_TWIST_PENALTY: i64 = 80;
/// A roll that turns back at the end of the hand.
pub const ROLL_REVERSAL_PENALTY: i64 = 80;
/// Four keys in a row on one hand.
pub const SAME_HAND_PENALTY: i64 = 4;
/// Hands alternating on each of four keys.
pub const ALTERNATING_HAND_PENALTY: i64 = 4;
/// Rolling outwards.
pub const ROLL_OUT_PENALTY: i64 = 1;
/// Rolling inwards: a reward.
pub const ROLL_IN_PENALTY: i64 = -1;
/// Same finger on two different keys with one key between them; again as
/// much for each of the two keys in a centre column.
pub const SFB_SANDWICH_PENALTY: i64 = 80;
/// Same finger jumping between the top and the bottom row with one key between.
pub const LONG_JUMP_SANDWICH_PENALTY: i64 = 40;
/// Three keys rolling across the three rows in one direction.
pub const TWIST_PENALTY: i64 = 80;

/// Largest magnitude of one rule's value.
pub const MAX_RULE_PENALTY: i64 = 240;

#[derive(Clone, Copy, PartialEq, Eq, Structural, Hash, Debug)]
pub enum PenaltyVar {
    Base,
    SameFinger,
    LongJump,
    LongJumpHand,
    LongJumpConsecutive,
    PinkyRing,
    PinkyRingTwist,
    RollOut,
    RollIn,
    RingStretch,
    RollReversal,
    Twist,
    SameFingerSandwich,
    LongJumpSandwich,
    SameHand,
    AlternatingHand,
}

/// The four most recent key presses, newest first.
#[derive(Clone, Copy, PartialEq, Eq, Structural, Debug)]
pub struct KeyPressQuartad {
    pub curr: KeyPress,
    pub old1: KeyPress,
    pub old2: KeyPress,
    pub old3: KeyPress,
}

/// The outcome of one rule: its value, or `None` where it does not apply,
/// and how many of the newest keys it depends on.
#[derive(Clone, Copy, PartialEq, Eq, Structural, Debug)]
pub struct Penalty {
    pub kind: PenaltyVar,
    pub relevant_keys: usize,
    pub value: Option<i64>,
}

/// Cost of striking a key on its own, by slot, in eighths of a point.
///
/// The three rows of ten keys cost, in points: top 2.5 0.5 0.5 1 2.5 |
/// 2.5 1 0.5 0.5 2.5, home 1 0 0 0 2 | 2 0 0 0 1, bottom 1.5 1.5 1 0.5 3 |
/// 3 0.5 1 1.5 1.5. The outer pinky column of the right hand (slots 10 and
/// 21) is a further stretch of the pinky beyond slots 9 and 20: it costs
/// half a point more than its neighbour: 3 on the top row and 1.5 on the
/// home row. Thumb keys cost nothing, as do the two placeholders.
pub open spec fn base_penalty_table() -> Seq<i64> {
    seq![
        20, 4, 4, 8, 20, 20, 8, 4, 4, 20, 24,
        8, 0, 0, 0, 16, 16, 0, 0, 0, 8, 12,
        12, 12, 8, 4, 24, 24, 4, 8, 12, 12,
        0, 0,
        0, 0,
    ]
}

pub fn base_penalty(pos: usize) -> (r: i64)
    requires
        pos < NUM_KEYS,
    ensures
        r == base_penalty_table()[pos as int],
{
    let table: [i64; 36] = [
        20, 4, 4, 8, 20, 20, 8, 4, 4, 20, 24,
        8, 0, 0, 0, 16, 16, 0, 0, 0, 8, 12,
        12, 12, 8, 4, 24, 24, 4, 8, 12, 12,
        0, 0,
        0, 0,
    ];
    assert(table@ =~= base_penalty_table());
    table[pos]
}

/* ---------------------------------------------------------------------- *
 * The rules                                                              *
 * ---------------------------------------------------------------------- */

/// A jump between the top and the bottom row, either way.
pub open spec fn is_long_jump(a: Row, b: Row) -> bool {
    (a == Row::Top && b == Row::Bottom) || (a == Row::Bottom && b == Row::Top)
}

pub open spec fn center_factor(a: KeyPress, b: KeyPress) -> i64 {
    (1 + (if a.center { 1int } else { 0 }) + (if b.center { 1int } else { 0 })) as i64
}

pub open spec fn rule(kind: PenaltyVar, relevant_keys: usize, applies: bool, value: i64) -> Penalty {
    Penalty { kind, relevant_keys, value: if applies { Some(value) } else { None } }
}

pub open spec fn spec_base(q: KeyPressQuartad) -> Penalty {
    rule(PenaltyVar::Base, 1, true, base_penalty_table()[q.curr.pos as int])
}

pub open spec fn spec_same_finger(q: KeyPressQuartad) -> Penalty {
    rule(
        PenaltyVar::SameFinger,
        2,
        q.curr.finger == q.old1.finger && q.curr.pos != q.old1.pos,
        (SAME_FINGER_PENALTY * center_factor(q.curr, q.old1)) as i64,
    )
}

pub open spec fn spec_long_jump(q: KeyPressQuartad) -> Penalty {
    rule(
        PenaltyVar::LongJump,
        2,
        q.curr.finger == q.old1.finger && is_long_jump(q.curr.row, q.old1.row),
        LONG_JUMP_PENALTY,
    )
}

pub open spec fn spec_long_jump_hand(q: KeyPressQuartad) -> Penalty {
    rule(
        PenaltyVar::LongJumpHand,
        2,
        is_long_jump(q.curr.row, q.old1.row),
        LONG_JUMP_HAND_PENALTY,
    )
}

/// Neighbouring fingers as the consecutive long jump rule counts them.
pub open spec fn consecutive_fingers(c: KeyPress, o: KeyPress) -> bool {
    (c.finger == Finger::Ring && o.finger == Finger::Pinky) || (c.finger == Finger::Pinky
        && o.finger == Finger::Ring) || (c.finger == Finger::Middle && o.finger == Finger::Ring)
        || (c.finger == Finger::Ring && o.finger == Finger::Middle) || (c.finger == Finger::Index
        && (o.finger == Finger::Middle || o.finger == Finger::Ring) && c.row == Row::Top && o.row
        == Row::Bottom)
}

pub open spec fn spec_long_jump_consecutive(q: KeyPressQuartad) -> Penalty {
    rule(
        PenaltyVar::LongJumpConsecutive,
        2,
        is_long_jump(q.curr.row, q.old1.row) && consecutive_fingers(q.curr, q.old1),
        LONG_JUMP_CONSECUTIVE_PENALTY,
    )
}

pub open spec fn spec_pinky_ring(q: KeyPressQuartad) -> Penalty {
    rule(
        PenaltyVar::PinkyRing,
        2,
        q.curr.finger == Finger::Pinky && q.old1.finger == Finger::Ring,
        PINKY_RING_PENALTY,
    )
}

pub open spec fn spec_pinky_ring_twist(q: KeyPressQuartad) -> Penalty {
    rule(
        PenaltyVar::PinkyRingTwist,
        2,
        (q.curr.finger == Finger::Ring && q.old1.finger == Finger::Pinky
            && q.curr.row.spec_rank() < q.old1.row.spec_rank()) || (q.curr.finger == Finger::Pinky
            && q.old1.finger == Finger::Ring && q.old1.row.spec_rank() < q.curr.row.spec_rank()),
        PINKY_RING_TWIST_PENALTY,
    )
}

/// Moving from finger `prev` outwards to finger `curr`.
pub open spec fn is_roll_out_spec(curr: Finger, prev: Finger) -> bool {
    curr.spec_rank() > prev.spec_rank()
}

/// Moving from finger `prev` inwards to finger `curr`.
pub open spec fn is_roll_in_spec(curr: Finger, prev: Finger) -> bool {
    prev.spec_rank() > curr.spec_rank()
}

pub open spec fn spec_roll_out(q: KeyPressQuartad) -> Penalty {
    rule(
        PenaltyVar::RollOut,
        2,
        q.old1.finger != Finger::Thumb && is_roll_out_spec(q.curr.finger, q.old1.finger),
        ROLL_OUT_PENALTY,
    )
}

pub open spec fn spec_roll_in(q: KeyPressQuartad) -> Penalty {
    rule(PenaltyVar::RollIn, 2, is_roll_in_spec(q.curr.finger, q.old1.finger), ROLL_IN_PENALTY)
}

pub open spec fn spec_ring_stretch(q: KeyPressQuartad) -> Penalty {
    rule(
        PenaltyVar::RingStretch,
        3,
        ((q.curr.finger == Finger::Middle && q.old1.finger == Finger::Ring && q.old2.finger
            == Finger::Pinky) || (q.curr.finger == Finger::Pinky && q.old1.finger == Finger::Ring
            && q.old2.finger == Finger::Middle)) && q.old1.row.spec_rank() > q.curr.row.spec_rank()
            && q.old1.row.spec_rank() > q.old2.row.spec_rank(),
        RING_STRETCH_PENALTY,
    )
}

pub open spec fn spec_roll_reversal(q: KeyPressQuartad) -> Penalty {
    rule(
        PenaltyVar::RollReversal,
        3,
        (q.curr.finger == Finger::Middle && q.old1.finger == Finger::Pinky && q.old2.finger
            == Finger::Ring) || (q.curr.finger == Finger::Ring && q.old1.finger == Finger::Pinky
            && q.old2.finger == Finger::Middle),
        ROLL_REVERSAL_PENALTY,
    )
}

pub open spec fn spec_twist(q: KeyPressQuartad) -> Penalty {
    rule(
        PenaltyVar::Twist,
        3,
        ((q.curr.row == Row::Bottom && q.old1.row == Row::Home && q.old2.row == Row::Top) || (
        q.curr.row == Row::Top && q.old1.row == Row::Home && q.old2.row == Row::Bottom)) && ((
        is_roll_out_spec(q.curr.finger, q.old1.finger) && is_roll_out_spec(
            q.old1.finger,
            q.old2.finger,
        )) || (is_roll_in_spec(q.curr.finger, q.old1.finger) && is_roll_in_spec(
            q.old1.finger,
            q.old2.finger,
        ))),
        TWIST_PENALTY,
    )
}

pub open spec fn spec_same_finger_sandwich(q: KeyPressQuartad) -> Penalty {
    rule(
        PenaltyVar::SameFingerSandwich,
        3,
        q.curr.pos != q.old2.pos,
        (SFB_SANDWICH_PENALTY * center_factor(q.curr, q.old2)) as i64,
    )
}

pub open spec fn spec_long_jump_sandwich(q: KeyPressQuartad) -> Penalty {
    rule(
        PenaltyVar::LongJumpSandwich,
        3,
        is_long_jump(q.curr.row, q.old2.row),
        LONG_JUMP_SANDWICH_PENALTY,
    )
}

pub open spec fn spec_same_hand(q: KeyPressQuartad) -> Penalty {
    rule(PenaltyVar::SameHand, 4, true, SAME_HAND_PENALTY)
}

pub open spec fn spec_alternating_hand(q: KeyPressQuartad) -> Penalty {
    rule(PenaltyVar::AlternatingHand, 4, true, ALTERNATING_HAND_PENALTY)
}

/* ---------------------------------------------------------------------- *
 * Gating and totals                                                      *
 * ---------------------------------------------------------------------- */

/// The newest key and the one before it are on one hand.
pub open spec fn gate_pair(q: KeyPressQuartad) -> bool {
    q.curr.hand == q.old1.hand
}

/// The three newest keys are on one hand.
pub open spec fn gate_triple(q: KeyPressQuartad) -> bool {
    q.curr.hand == q.old1.hand && q.old1.hand == q.old2.hand
}

/// The newest key and the one two before it share hand and finger.
pub open spec fn gate_sandwich(q: KeyPressQuartad) -> bool {
    q.curr.hand == q.old2.hand && q.curr.finger == q.old2.finger
}

/// All four keys are on one hand.
pub open spec fn gate_same_hand(q: KeyPressQuartad) -> bool {
    gate_triple(q) && q.old2.hand == q.old3.hand
}

/// The hand changes on each of the four keys.
pub open spec fn gate_alternating(q: KeyPressQuartad) -> bool {
    q.curr.hand != q.old1.hand && q.old1.hand != q.old2.hand && q.old2.hand != q.old3.hand
}

/// `p` where `gate` holds, else `p` without a value.
pub open spec fn gated(p: Penalty, gate: bool) -> Penalty {
    if gate {
        p
    } else {
        Penalty { value: None, ..p }
    }
}

/// The outcome of every rule on `q`, in the order of `PenaltyVar`; a rule
/// whose condition on the hands does not hold has no value.
pub open spec fn gated_rules(q: KeyPressQuartad) -> Seq<Penalty> {
    seq![
        spec_base(q),
        gated(spec_same_finger(q), gate_pair(q)),
        gated(spec_long_jump(q), gate_pair(q)),
        gated(spec_long_jump_hand(q), gate_pair(q)),
        gated(spec_long_jump_consecutive(q), gate_pair(q)),
        gated(spec_pinky_ring(q), gate_pair(q)),
        gated(spec_pinky_ring_twist(q), gate_pair(q)),
        gated(spec_roll_out(q), gate_pair(q)),
        gated(spec_roll_in(q), gate_pair(q)),
        gated(spec_ring_stretch(q), gate_triple(q)),
        gated(spec_roll_reversal(q), gate_triple(q)),
        gated(spec_twist(q), gate_triple(q)),
        gated(spec_same_finger_sandwich(q), gate_sandwich(q)),
        gated(spec_long_jump_sandwich(q), gate_sandwich(q)),
        gated(spec_same_hand(q), gate_same_hand(q)),
        gated(spec_alternating_hand(q), !gate_same_hand(q) && gate_alternating(q)),
    ]
}

/// Index of the one rule whose value can be negative.
pub const ROLL_IN_INDEX: usize = 8;

pub open spec fn value_of(p: Penalty) -> int {
    match p.value {
        Some(v) => v as int,
        None => 0,
    }
}

/// Sum of the values of `s`; rules without a value count nothing.
pub open spec fn penalty_sum(s: Seq<Penalty>) -> int
    decreases s.len(),
{
    if s.len() == 0 {
        0
    } else {
        penalty_sum(s.drop_last()) + value_of(s.last())
    }
}

/// Cost of one occurrence of the quartad `q`.
pub open spec fn quartad_cost(q: KeyPressQuartad) -> int {
    penalty_sum(gated_rules(q))
}

pub proof fn lemma_rule_values_bounded(q: KeyPressQuartad)
    requires
        q.curr.pos < NUM_KEYS,
    ensures
        gated_rules(q).len() == 16,
        forall|k: int|
            0 <= k < 16 ==> #[trigger] value_of(gated_rules(q)[k]) <= MAX_RULE_PENALTY && (k
                == ROLL_IN_INDEX || 0 <= value_of(gated_rules(q)[k])),
        -1 <= value_of(gated_rules(q)[ROLL_IN_INDEX as int]),
        forall|k: int|
            0 <= k < 16 ==> 1 <= (#[trigger] gated_rules(q)[k]).relevant_keys <= 4,
{
    let t = base_penalty_table();
    assert(0 <= t[q.curr.pos as int] <= 24);
}

proof fn lemma_penalty_sum_bounds(s: Seq<Penalty>, n: int)
    requires
        0 <= n <= s.len(),
        forall|k: int|
            0 <= k < s.len() ==> #[trigger] value_of(s[k]) <= MAX_RULE_PENALTY && (k
                == ROLL_IN_INDEX || 0 <= value_of(s[k])),
        s.len() > ROLL_IN_INDEX ==> -1 <= value_of(s[ROLL_IN_INDEX as int]),
    ensures
        (if n > ROLL_IN_INDEX { -1 } else { 0 }) <= penalty_sum(s.take(n)) <= MAX_RULE_PENALTY * n,
    decreases n,
{
    if n > 0 {
        lemma_penalty_sum_bounds(s, n - 1);
        assert(s.take(n).drop_last() =~= s.take(n - 1));
    }
}

/// One occurrence of a quartad costs at least the reward of one inward roll
/// and at most sixteen times the largest rule value.
pub proof fn lemma_quartad_cost_bounds(q: KeyPressQuartad)
    requires
        q.curr.pos < NUM_KEYS,
    ensures
        -1 <= quartad_cost(q) <= 16 * MAX_RULE_PENALTY,
{
    lemma_rule_values_bounded(q);
    lemma_penalty_sum_bounds(gated_rules(q), 16);
    assert(gated_rules(q).take(16) =~= gated_rules(q));
}

/* ---------------------------------------------------------------------- *
 * Evaluation                                                             *
 * ---------------------------------------------------------------------- */

fn long_jump_rows(a: Row, b: Row) -> (r: bool)
    ensures
        r == is_long_jump(a, b),
{
    (a == Row::Top && b == Row::Bottom) || (a == Row::Bottom && b == Row::Top)
}

fn center_count(a: &KeyPress, b: &KeyPress) -> (r: i64)
    ensures
        r == center_factor(*a, *b),
{
    1 + (if a.center { 1 } else { 0 }) + (if b.center { 1 } else { 0 })
}

pub fn is_roll_out(curr: Finger, prev: Finger) -> (r: bool)
    ensures
        r == is_roll_out_spec(curr, prev),
{
    curr.rank() > prev.rank()
}

pub fn is_roll_in(curr: Finger, prev: Finger) -> (r: bool)
    ensures
        r == is_roll_in_spec(curr, prev),
{
    prev.rank() > curr.rank()
}

fn outcome(kind: PenaltyVar, relevant_keys: usize, applies: bool, value: i64) -> (r: Penalty)
    ensures
        r == rule(kind, relevant_keys, applies, value),
{
    Penalty { kind, relevant_keys, value: if applies { Some(value) } else { None } }
}

pub fn base(q: &KeyPressQuartad) -> (r: Penalty)
    requires
        q.curr.pos < NUM_KEYS,
    ensures
        r == spec_base(*q),
{
    outcome(PenaltyVar::Base, 1, true, base_penalty(q.curr.pos))
}

pub fn same_finger(q: &KeyPressQuartad) -> (r: Penalty)
    ensures
        r == spec_same_finger(*q),
{
    let applies = q.curr.finger == q.old1.finger && q.curr.pos != q.old1.pos;
    outcome(
        PenaltyVar::SameFinger,
        2,
        applies,
        SAME_FINGER_PENALTY * center_count(&q.curr, &q.old1),
    )
}

pub fn long_jump(q: &KeyPressQuartad) -> (r: Penalty)
    ensures
        r == spec_long_jump(*q),
{
    let applies = q.curr.finger == q.old1.finger && long_jump_rows(q.curr.row, q.old1.row);
    outcome(PenaltyVar::LongJump, 2, applies, LONG_JUMP_PENALTY)
}

pub fn long_jump_hand(q: &KeyPressQuartad) -> (r: Penalty)
    ensures
        r == spec_long_jump_hand(*q),
{
    let applies = long_jump_rows(q.curr.row, q.old1.row);
    outcome(PenaltyVar::LongJumpHand, 2, applies, LONG_JUMP_HAND_PENALTY)
}

pub fn long_jump_consecutive(q: &KeyPressQuartad) -> (r: Penalty)
    ensures
        r == spec_long_jump_consecutive(*q),
{
    let c = &q.curr;
    let o = &q.old1;
    let neighbours = (c.finger == Finger::Ring && o.finger == Finger::Pinky) || (c.finger
        == Finger::Pinky && o.finger == Finger::Ring) || (c.finger == Finger::Middle && o.finger
        == Finger::Ring) || (c.finger == Finger::Ring && o.finger == Finger::Middle) || (c.finger
        == Finger::Index && (o.finger == Finger::Middle || o.finger == Finger::Ring) && c.row
        == Row::Top && o.row == Row::Bottom);
    let applies = long_jump_rows(c.row, o.row) && neighbours;
    outcome(PenaltyVar::LongJumpConsecutive, 2, applies, LONG_JUMP_CONSECUTIVE_PENALTY)
}

pub fn pinky_ring(q: &KeyPressQuartad) -> (r: Penalty)
    ensures
        r == spec_pinky_ring(*q),
{
    let applies = q.curr.finger == Finger::Pinky && q.old1.finger == Finger::Ring;
    outcome(PenaltyVar::PinkyRing, 2, applies, PINKY_RING_PENALTY)
}

pub fn pinky_ring_twist(q: &KeyPressQuartad) -> (r: Penalty)
    ensures
        r == spec_pinky_ring_twist(*q),
{
    let c = &q.curr;
    let o = &q.old1;
    let applies = (c.finger == Finger::Ring && o.finger == Finger::Pinky && c.row.rank()
        < o.row.rank()) || (c.finger == Finger::Pinky && o.finger == Finger::Ring && o.row.rank()
        < c.row.rank());
    outcome(PenaltyVar::PinkyRingTwist, 2, applies, PINKY_RING_TWIST_PENALTY)
}

pub fn roll_out(q: &KeyPressQuartad) -> (r: Penalty)
    ensures
        r == spec_roll_out(*q),
{
    let applies = q.old1.finger != Finger::Thumb && is_roll_out(q.curr.finger, q.old1.finger);
    outcome(PenaltyVar::RollOut, 2, applies, ROLL_OUT_PENALTY)
}

pub fn roll_in(q: &KeyPressQuartad) -> (r: Penalty)
    ensures
        r == spec_roll_in(*q),
{
    let applies = is_roll_in(q.curr.finger, q.old1.finger);
    outcome(PenaltyVar::RollIn, 2, applies, ROLL_IN_PENALTY)
}

pub fn ring_stretch(q: &KeyPressQuartad) -> (r: Penalty)
    ensures
        r == spec_ring_stretch(*q),
{
    let c = &q.curr;
    let o1 = &q.old1;
    let o2 = &q.old2;
    let fingers = (c.finger == Finger::Middle && o1.finger == Finger::Ring && o2.finger
        == Finger::Pinky) || (c.finger == Finger::Pinky && o1.finger == Finger::Ring && o2.finger
        == Finger::Middle);
    let applies = fingers && o1.row.rank() > c.row.rank() && o1.row.rank() > o2.row.rank();
    outcome(PenaltyVar::RingStretch, 3, applies, RING_STRETCH_PENALTY)
}

pub fn roll_reversal(q: &KeyPressQuartad) -> (r: Penalty)
    ensures
        r == spec_roll_reversal(*q),
{
    let c = &q.curr;
    let o1 = &q.old1;
    let o2 = &q.old2;
    let applies = (c.finger == Finger::Middle && o1.finger == Finger::Pinky && o2.finger
        == Finger::Ring) || (c.finger == Finger::Ring && o1.finger == Finger::Pinky && o2.finger
        == Finger::Middle);
    outcome(PenaltyVar::RollReversal, 3, applies, ROLL_REVERSAL_PENALTY)
}

pub fn twist(q: &KeyPressQuartad) -> (r: Penalty)
    ensures
        r == spec_twist(*q),
{
    let c = &q.curr;
    let o1 = &q.old1;
    let o2 = &q.old2;
    let rows = (c.row == Row::Bottom && o1.row == Row::Home && o2.row == Row::Top) || (c.row
        == Row::Top && o1.row == Row::Home && o2.row == Row::Bottom);
    let rolls = (is_roll_out(c.finger, o1.finger) && is_roll_out(o1.finger, o2.finger)) || (
    is_roll_in(c.finger, o1.finger) && is_roll_in(o1.finger, o2.finger));
    outcome(PenaltyVar::Twist, 3, rows && rolls, TWIST_PENALTY)
}

pub fn same_finger_sandwich(q: &KeyPressQuartad) -> (r: Penalty)
    ensures
        r == spec_same_finger_sandwich(*q),
{
    let applies = q.curr.pos != q.old2.pos;
    outcome(
        PenaltyVar::SameFingerSandwich,
        3,
        applies,
        SFB_SANDWICH_PENALTY * center_count(&q.curr, &q.old2),
    )
}

pub fn long_jump_sandwich(q: &KeyPressQuartad) -> (r: Penalty)
    ensures
        r == spec_long_jump_sandwich(*q),
{
    let applies = long_jump_rows(q.curr.row, q.old2.row);
    outcome(PenaltyVar::LongJumpSandwich, 3, applies, LONG_JUMP_SANDWICH_PENALTY)
}

pub fn same_hand(q: &KeyPressQuartad) -> (r: Penalty)
    ensures
        r == spec_same_hand(*q),
{
    outcome(PenaltyVar::SameHand, 4, true, SAME_HAND_PENALTY)
}

pub fn alternating_hand(q: &KeyPressQuartad) -> (r: Penalty)
    ensures
        r == spec_alternating_hand(*q),
{
    outcome(PenaltyVar::AlternatingHand, 4, true, ALTERNATING_HAND_PENALTY)
}

fn gate(p: Penalty, applies: bool) -> (r: Penalty)
    ensures
        r == gated(p, applies),
{
    if applies {
        p
    } else {
        Penalty { value: None, ..p }
    }
}

/// Evaluates every rule on `q`, each under its condition on the hands.
pub fn penalize_kp_quartad(q: &KeyPressQuartad) -> (r: Vec<Penalty>)
    requires
        q.curr.pos < NUM_KEYS,
    ensures
        r@ == gated_rules(*q),
{
    let pair = q.curr.hand == q.old1.hand;
    let triple = pair && q.old1.hand == q.old2.hand;
    let sandwich = q.curr.hand == q.old2.hand && q.curr.finger == q.old2.finger;
    let all_same = triple && q.old2.hand == q.old3.hand;
    let alternating = q.curr.hand != q.old1.hand && q.old1.hand != q.old2.hand && q.old2.hand
        != q.old3.hand;
    let mut r: Vec<Penalty> = Vec::new();
    r.push(base(q));
    r.push(gate(same_finger(q), pair));
    r.push(gate(long_jump(q), pair));
    r.push(gate(long_jump_hand(q), pair));
    r.push(gate(long_jump_consecutive(q), pair));
    r.push(gate(pinky_ring(q), pair));
    r.push(gate(pinky_ring_twist(q), pair));
    r.push(gate(roll_out(q), pair));
    r.push(gate(roll_in(q), pair));
    r.push(gate(ring_stretch(q), triple));
    r.push(gate(roll_reversal(q), triple));
    r.push(gate(twist(q), triple));
    r.push(gate(same_finger_sandwich(q), sandwich));
    r.push(gate(long_jump_sandwich(q), sandwich));
    r.push(gate(same_hand(q), all_same));
    r.push(gate(alternating_hand(q), !all_same && alternating));
    assert(r@ =~= gated_rules(*q));
    r
}

/// A running sum of penalty values.
pub struct TotalPenalty {
    pub value: i64,
}

impl TotalPenalty {
    pub fn new() -> (r: TotalPenalty)
        ensures
            r.value == 0,
    {
        TotalPenalty { value: 0 }
    }

    /// Adds the value of `p`, if it has one.
    pub fn add(&mut self, p: Penalty)
        requires
            -MAX_RULE_PENALTY * 16 <= old(self).value <= MAX_RULE_PENALTY * 16,
            p.value matches Some(v) ==> -MAX_RULE_PENALTY <= v <= MAX_RULE_PENALTY,
        ensures
            final(self).value == old(self).value + value_of(p),
    {
        if let Some(v) = p.value {
            self.value = self.value + v;
        }
    }
}

/// Cost of one occurrence of `q`: the sum of the values of its rules.
pub fn quartad_penalty(q: &KeyPressQuartad) -> (r: i64)
    requires
        q.curr.pos < NUM_KEYS,
    ensures
        r == quartad_cost(*q),
{
    let rules = penalize_kp_quartad(q);
    let mut total = TotalPenalty::new();
    proof {
        lemma_rule_values_bounded(*q);
    }
    for i in 0..rules.len()
        invariant
            rules@ == gated_rules(*q),
            rules@.len() == 16,
            forall|k: int|
                0 <= k < 16 ==> #[trigger] value_of(rules@[k]) <= MAX_RULE_PENALTY && (k
                    == ROLL_IN_INDEX || 0 <= value_of(rules@[k])),
            -1 <= value_of(rules@[ROLL_IN_INDEX as int]),
            total.value == penalty_sum(rules@.take(i as int)),
    {
        proof {
            lemma_penalty_sum_bounds(rules@, i as int);
            assert(rules@.take(i + 1).drop_last() =~= rules@.take(i as int));
            let k = i as int;
            assert(value_of(rules@[k]) <= MAX_RULE_PENALTY);
            if k != ROLL_IN_INDEX {
                assert(0 <= value_of(rules@[k]));
            }
        }
        total.add(rules[i]);
    }
    assert(rules@.take(16) =~= rules@);
    total.value
}

impl PenaltyVar {
    /// Position of the rule in the order of the variants.
    pub open spec fn spec_index(self) -> int {
        match self {
            PenaltyVar::Base => 0,
            PenaltyVar::SameFinger => 1,
            PenaltyVar::LongJump => 2,
            PenaltyVar::LongJumpHand => 3,
            PenaltyVar::LongJumpConsecutive => 4,
            PenaltyVar::PinkyRing => 5,
            PenaltyVar::PinkyRingTwist => 6,
            PenaltyVar::RollOut => 7,
            PenaltyVar::RollIn => 8,
            PenaltyVar::RingStretch => 9,
            PenaltyVar::RollReversal => 10,
            PenaltyVar::Twist => 11,
            PenaltyVar::SameFingerSandwich => 12,
            PenaltyVar::LongJumpSandwich => 13,
            PenaltyVar::SameHand => 14,
            PenaltyVar::AlternatingHand => 15,
        }
    }

    pub fn index(&self) -> (r: u64)
        ensures
            r == self.spec_index(),
    {
        match self {
            PenaltyVar::Base => 0,
            PenaltyVar::SameFinger => 1,
            PenaltyVar::LongJump => 2,
            PenaltyVar::LongJumpHand => 3,
            PenaltyVar::LongJumpConsecutive => 4,
            PenaltyVar::PinkyRing => 5,
            PenaltyVar::PinkyRingTwist => 6,
            PenaltyVar::RollOut => 7,
            PenaltyVar::RollIn => 8,
            PenaltyVar::RingStretch => 9,
            PenaltyVar::RollReversal => 10,
            PenaltyVar::Twist => 11,
            PenaltyVar::SameFingerSandwich => 12,
            PenaltyVar::LongJumpSandwich => 13,
            PenaltyVar::SameHand => 14,
            PenaltyVar::AlternatingHand => 15,
        }
    }
}

} // verus!
