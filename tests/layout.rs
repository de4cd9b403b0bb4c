use keygen::layout::{Finger, Hand, Layout, Row, NUM_SWAPPABLE};
use keygen::presets::{qwerty_layout, rsthd_layout};
use rand::{SeedableRng, StdRng};

#[test]
fn swap_twice_restores_the_layout() {
    let start = rsthd_layout();
    for &(i, j) in &[(0usize, 1usize), (3, 27), (12, 33), (5, 5), (0, 35), (40, 2)] {
        let mut l = start;
        l.swap(i, j);
        l.swap(i, j);
        assert_eq!(l, start);
    }
}

#[test]
fn swap_moves_both_layers() {
    let mut l = qwerty_layout();
    l.swap(0, 1);
    assert_eq!(l.0 .0 .0[0], 'w');
    assert_eq!(l.0 .0 .0[1], 'q');
    assert_eq!(l.1 .0 .0[0], 'W');
    assert_eq!(l.1 .0 .0[1], 'Q');
}

#[test]
fn swap_outside_the_mask_does_nothing() {
    let mut l = qwerty_layout();
    l.swap(0, 34);
    assert_eq!(l, qwerty_layout());
}

#[test]
fn position_map_resolves_both_layers() {
    let map = qwerty_layout().get_position_map();
    let a = map.get_key_position('a').unwrap();
    assert_eq!(a.pos, 11);
    assert_eq!(a.finger, Finger::Pinky);
    assert_eq!(a.hand, Hand::Left);
    assert_eq!(a.row, Row::Home);
    assert!(!a.center);
    let big_t = map.get_key_position('T').unwrap();
    assert_eq!(big_t.pos, 4);
    assert!(big_t.center);
    assert_eq!(big_t.finger, Finger::Index);
    assert!(map.get_key_position('-').is_none());
    assert!(map.get_key_position('\0').is_none());
    assert!(map.get_key_position('é').is_none());
    let space = map.get_key_position(' ').unwrap();
    assert_eq!(space.pos, 33);
    assert_eq!(space.finger, Finger::Thumb);
    assert_eq!(space.hand, Hand::Right);
}

#[test]
fn text_form_round_trips() {
    for l in [rsthd_layout(), qwerty_layout()] {
        let text: String = l.to_text().into_iter().collect();
        assert_eq!(text.chars().count(), 108);
        assert_eq!(Layout::from_string(&text), Some(l));
    }
}

#[test]
fn text_form_of_rsthd() {
    let text: String = rsthd_layout().to_text().into_iter().collect();
    assert!(text.starts_with("jcyfk zl,uq\\\nrsthd mnaio'\n/vgpb xw.;-\n    e  \n    * *\n"));
}

#[test]
fn too_short_text_is_rejected() {
    let text: String = qwerty_layout().to_text().into_iter().collect();
    let short: String = text.chars().take(107).collect();
    assert_eq!(Layout::from_string(&short), None);
    let long = format!("{}\n", text);
    assert_eq!(Layout::from_string(&long), None);
    assert_eq!(Layout::from_string(""), None);
}

#[test]
fn misplaced_separator_is_rejected() {
    let text: Vec<char> = qwerty_layout().to_text();
    let mut bad = text.clone();
    bad[5] = 'x';
    assert_eq!(Layout::from_string(&bad.iter().collect::<String>()), None);
    let mut bad = text.clone();
    bad[54 + 12] = ' ';
    assert_eq!(Layout::from_string(&bad.iter().collect::<String>()), None);
    let mut good = text;
    good[0] = 'x';
    assert!(Layout::from_string(&good.iter().collect::<String>()).is_some());
}

#[test]
fn preset_characters() {
    let l = rsthd_layout();
    assert_eq!(l.0 .0 .0[11], 'r');
    assert_eq!(l.1 .0 .0[32], 'E');
    assert_eq!(qwerty_layout().0 .0 .0[33], ' ');
}

#[test]
fn shuffle_only_permutes_swappable_slots() {
    let mut rng = StdRng::from_seed(&[7usize, 11, 13][..]);
    let start = rsthd_layout();
    let mut l = start;
    l.shuffle(25, &mut rng);
    assert_ne!(l, start);
    let mut before: Vec<char> = start.0 .0 .0.to_vec();
    let mut after: Vec<char> = l.0 .0 .0.to_vec();
    for k in NUM_SWAPPABLE..36 {
        assert_eq!(before[k], after[k]);
    }
    before.sort();
    after.sort();
    assert_eq!(before, after);
}
