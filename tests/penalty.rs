use keygen::corpus::{Corpus, Quartad};
use keygen::layout::{KeyMap, Layer, Layout};
use keygen::penalty::{
    base_penalty, penalize_kp_quartad, quartad_penalty, same_finger, KeyPressQuartad, PenaltyVar,
    SAME_HAND_PENALTY,
};
use keygen::presets::{colemak_layout, qwerty_layout, rsthd_layout};

fn quartad_presses(layout: &Layout, q: &str) -> KeyPressQuartad {
    let map = layout.get_position_map();
    let c: Vec<char> = q.chars().collect();
    Quartad([c[0], c[1], c[2], c[3]]).get_kp_quartad(&map).unwrap()
}

#[test]
fn base_table_values() {
    assert_eq!(base_penalty(0), 20);
    assert_eq!(base_penalty(12), 0);
    assert_eq!(base_penalty(26), 24);
    assert_eq!(base_penalty(33), 0);
}

#[test]
fn repeated_key_costs_its_base_and_the_same_hand_rule() {
    // Every character of the layout sits on slot 12, whose base cost is 0.
    let layer = Layer(KeyMap(['\0'; 36]));
    let mut chars = layer;
    chars.0 .0[12] = 'a';
    let layout = Layout(chars, Layer(KeyMap(['\0'; 36])));
    let corpus = Corpus::from_text("aaaa", &layout);
    assert_eq!(corpus.quartads.len(), 1);
    assert_eq!(corpus.quartads[0].1, 1);
    let q = quartad_presses(&layout, "aaaa");
    assert_eq!(same_finger(&q).value, None);
    let rules = penalize_kp_quartad(&q);
    for p in &rules {
        match p.kind {
            PenaltyVar::Base => assert_eq!(p.value, Some(0)),
            PenaltyVar::SameHand => assert_eq!(p.value, Some(SAME_HAND_PENALTY)),
            _ => assert_eq!(p.value, None),
        }
    }
    assert_eq!(layout.penalize(&corpus), SAME_HAND_PENALTY as i128);
}

#[test]
fn same_finger_counts_centre_columns() {
    // On qwerty, "xftg" ends with g (slot 15, centre) after t (slot 4,
    // centre), both left index: same finger on two centre keys.
    let q = quartad_presses(&qwerty_layout(), "xftg");
    assert_eq!(same_finger(&q).value, Some(80 * 3));
    // "xvfr": r (slot 3) after f (slot 14), left index, no centre key.
    let q = quartad_presses(&qwerty_layout(), "xvfr");
    assert_eq!(same_finger(&q).value, Some(80));
    // "asdf": f after d, different fingers.
    let q = quartad_presses(&qwerty_layout(), "asdf");
    assert_eq!(same_finger(&q).value, None);
}

#[test]
fn quartad_cost_of_a_worked_example() {
    // qwerty "asdf": f (slot 14, left index, home) after d (left middle),
    // s (left ring), a (left pinky): base 0, an inward roll, all on the left.
    let q = quartad_presses(&qwerty_layout(), "asdf");
    assert_eq!(quartad_penalty(&q), 0 - 1 + 4);
}

#[test]
fn alternating_hands_example() {
    // qwerty "akdj": hands left, right, left, right.
    let q = quartad_presses(&qwerty_layout(), "akdj");
    // base of j (slot 17) is 0; only the alternating rule applies.
    assert_eq!(quartad_penalty(&q), 4);
}

#[test]
fn long_jump_example() {
    // qwerty "xxvr": r (slot 3, top) after v (slot 25, bottom), both left index.
    let q = quartad_presses(&qwerty_layout(), "xxvr");
    // base 8, same finger 80, long jump 40, long jump on the hand 8,
    // and no roll (same finger).
    let rules = penalize_kp_quartad(&q);
    let sum: i64 = rules.iter().filter_map(|p| p.value).sum();
    assert_eq!(quartad_penalty(&q), sum);
    assert!(rules.iter().any(|p| p.kind == PenaltyVar::LongJump && p.value == Some(40)));
    assert!(rules.iter().any(|p| p.kind == PenaltyVar::LongJumpHand && p.value == Some(8)));
}

#[test]
fn scoring_is_deterministic_and_parallel_agrees() {
    let text = "the quick brown fox jumps over the lazy dog, then naps; the end.";
    let corpus = Corpus::from_text(text, &rsthd_layout());
    for layout in [rsthd_layout(), qwerty_layout(), colemak_layout()] {
        let a = layout.penalize(&corpus);
        let b = layout.penalize(&corpus);
        let c = layout.par_penalize(&corpus);
        assert_eq!(a, b);
        assert_eq!(a, c);
        assert!(a != 0);
    }
}

#[test]
fn unresolved_quartads_cost_nothing() {
    // '-' is on rsthd but not on qwerty.
    let corpus = Corpus::from_text("ab-cd", &rsthd_layout());
    assert_eq!(corpus.quartads.len(), 2);
    assert_eq!(qwerty_layout().penalize(&corpus), 0);
}

#[test]
fn breakdown_adds_up_to_the_score() {
    let text = "the quick brown fox jumps over the lazy dog, then naps; the end.";
    let corpus = Corpus::from_text(text, &rsthd_layout());
    for layout in [rsthd_layout(), qwerty_layout()] {
        let details = layout.penalize_with_details(&corpus);
        assert_eq!(details.total, layout.penalize(&corpus));
        assert_eq!(details.len, text.chars().count());
        let sum: i128 = details.high_keys.iter().map(|b| b.value).sum();
        assert_eq!(sum, details.total);
        for (i, a) in details.high_keys.iter().enumerate() {
            for b in &details.high_keys[i + 1..] {
                assert!(!(a.kind == b.kind && a.keys == b.keys));
            }
        }
    }
}

#[test]
fn breakdown_buckets_by_triggering_keys() {
    // qwerty: "asdfasdf" has quartads asdf (twice), sdfa, dfas, fasd.
    let corpus = Corpus::from_text("asdfasdf", &qwerty_layout());
    let details = qwerty_layout().penalize_with_details(&corpus);
    let base_f = details
        .high_keys
        .iter()
        .find(|b| b.kind == PenaltyVar::Base && b.keys == vec!['f'])
        .unwrap();
    // f (slot 14) has base cost 0; a (slot 11) costs 8 and ends one quartad.
    assert_eq!(base_f.value, 0);
    let base_a = details
        .high_keys
        .iter()
        .find(|b| b.kind == PenaltyVar::Base && b.keys == vec!['a'])
        .unwrap();
    assert_eq!(base_a.value, 8);
    let roll_in_df = details
        .high_keys
        .iter()
        .find(|b| b.kind == PenaltyVar::RollIn && b.keys == vec!['d', 'f'])
        .unwrap();
    assert_eq!(roll_in_df.value, -2);
    let same_hand = details
        .high_keys
        .iter()
        .filter(|b| b.kind == PenaltyVar::SameHand)
        .count();
    assert_eq!(same_hand, 4);
}
