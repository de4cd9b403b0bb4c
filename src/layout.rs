//! Keyboard layouts: two layers of 36 key slots each, the fixed physical
//! description of every slot, and the lookup from a character to the key
//! that produces it.
//
// Slot numbering:
//    LEFT HAND   |    RIGHT HAND
//  0  1  2  3  4 |  5  6  7  8  9 10
// 11 12 13 14 15 | 16 17 18 19 20 21
// 22 23 24 25 26 | 27 28 29 30 31
//
//             32 | 33 (thumb keys)
//             34 | 35 (inactive thumb placeholders)
use crate::random::gen_index;
use crate::utils::chars_of;
use itertools::Itertools;
use rand::StdRng;
use vstd::prelude::*;

verus! {

/// Number of key slots in one layer.
pub const NUM_KEYS: usize = 36;

/// Slots `0..NUM_SWAPPABLE` may exchange characters; the two trailing
/// thumb slots are inactive placeholders and never move.
pub const NUM_SWAPPABLE: usize = 34;

/// Size of the character table of a position map: characters from 1 up to
/// (not including) this bound can be looked up.
pub const POS_MAP_SIZE: usize = 128;

/// One value for each key slot.
#[derive(Debug, Clone, Copy, PartialEq)]
pub struct KeyMap<T>(pub [T; 36]);

/// The characters of one shift state; `'\0'` marks a slot without character.
#[derive(Debug, Clone, Copy, PartialEq)]
pub struct Layer(pub KeyMap<char>);

/// An unshifted and a shifted layer, always permuted together.
#[derive(Debug, Clone, Copy, PartialEq)]
pub struct Layout(pub Layer, pub Layer);

/// An exchange of the characters of two slots.
#[derive(Debug, Clone, Copy, PartialEq, Eq)]
pub struct Swap(pub usize, pub usize);

#[derive(Clone, Copy, PartialEq, Eq, Structural, Hash, Debug)]
pub enum Finger {
    Thumb,
    Index,
    Middle,
    Ring,
    Pinky,
}

#[derive(Clone, Copy, PartialEq, Eq, Structural, Hash, Debug)]
pub enum Hand {
    Left,
    Right,
}

#[derive(Clone, Copy, PartialEq, Eq, Structural, Hash, Debug)]
pub enum Row {
    Thumb,
    Bottom,
    Home,
    Top,
}

/// What a character resolves to under a layout: its slot and that slot's
/// finger, hand, row and whether it lies in the centre columns.
#[derive(Clone, Copy, PartialEq, Eq, Structural, Debug)]
pub struct KeyPress {
    pub kc: char,
    pub pos: usize,
    pub finger: Finger,
    pub hand: Hand,
    pub row: Row,
    pub center: bool,
}

/// Lookup table from character code to key press, `POS_MAP_SIZE` entries.
pub struct LayoutPosMap(pub Vec<Option<KeyPress>>);

impl Finger {
    /// Order of the fingers from the thumb outwards.
    pub open spec fn spec_rank(self) -> int {
        match self {
            Finger::Thumb => 0,
            Finger::Index => 1,
            Finger::Middle => 2,
            Finger::Ring => 3,
            Finger::Pinky => 4,
        }
    }

    pub fn rank(&self) -> (r: u8)
        ensures
            r == self.spec_rank(),
    {
        match self {
            Finger::Thumb => 0,
            Finger::Index => 1,
            Finger::Middle => 2,
            Finger::Ring => 3,
            Finger::Pinky => 4,
        }
    }
}

impl Row {
    /// Order of the rows from the thumb row upwards.
    pub open spec fn spec_rank(self) -> int {
        match self {
            Row::Thumb => 0,
            Row::Bottom => 1,
            Row::Home => 2,
            Row::Top => 3,
        }
    }

    pub fn rank(&self) -> (r: u8)
        ensures
            r == self.spec_rank(),
    {
        match self {
            Row::Thumb => 0,
            Row::Bottom => 1,
            Row::Home => 2,
            Row::Top => 3,
        }
    }
}

/* ---------------------------------------------------------------------- *
 * Physical description of the slots                                      *
 * ---------------------------------------------------------------------- */

/// Column of a slot within its row (thumb slots count from 0 too).
pub open spec fn key_column(pos: int) -> int {
    if pos < 11 {
        pos
    } else if pos < 22 {
        pos - 11
    } else if pos < 32 {
        pos - 22
    } else {
        pos - 32
    }
}

pub open spec fn key_row_spec(pos: int) -> Row {
    if pos < 11 {
        Row::Top
    } else if pos < 22 {
        Row::Home
    } else if pos < 32 {
        Row::Bottom
    } else {
        Row::Thumb
    }
}

pub open spec fn key_finger_spec(pos: int) -> Finger {
    let c = key_column(pos);
    if pos >= 32 {
        Finger::Thumb
    } else if c == 0 || c >= 9 {
        Finger::Pinky
    } else if c == 1 || c == 8 {
        Finger::Ring
    } else if c == 2 || c == 7 {
        Finger::Middle
    } else {
        Finger::Index
    }
}

pub open spec fn key_hand_spec(pos: int) -> Hand {
    if pos >= 32 {
        if pos == 32 || pos == 34 {
            Hand::Left
        } else {
            Hand::Right
        }
    } else if key_column(pos) < 5 {
        Hand::Left
    } else {
        Hand::Right
    }
}

pub open spec fn key_center_spec(pos: int) -> bool {
    pos < 32 && (key_column(pos) == 4 || key_column(pos) == 5)
}

fn key_column_of(pos: usize) -> (r: usize)
    requires
        pos < NUM_KEYS,
    ensures
        r == key_column(pos as int),
{
    if pos < 11 {
        pos
    } else if pos < 22 {
        pos - 11
    } else if pos < 32 {
        pos - 22
    } else {
        pos - 32
    }
}

pub fn key_row(pos: usize) -> (r: Row)
    requires
        pos < NUM_KEYS,
    ensures
        r == key_row_spec(pos as int),
{
    if pos < 11 {
        Row::Top
    } else if pos < 22 {
        Row::Home
    } else if pos < 32 {
        Row::Bottom
    } else {
        Row::Thumb
    }
}

pub fn key_finger(pos: usize) -> (r: Finger)
    requires
        pos < NUM_KEYS,
    ensures
        r == key_finger_spec(pos as int),
{
    let c = key_column_of(pos);
    if pos >= 32 {
        Finger::Thumb
    } else if c == 0 || c >= 9 {
        Finger::Pinky
    } else if c == 1 || c == 8 {
        Finger::Ring
    } else if c == 2 || c == 7 {
        Finger::Middle
    } else {
        Finger::Index
    }
}

pub fn key_hand(pos: usize) -> (r: Hand)
    requires
        pos < NUM_KEYS,
    ensures
        r == key_hand_spec(pos as int),
{
    if pos >= 32 {
        if pos == 32 || pos == 34 {
            Hand::Left
        } else {
            Hand::Right
        }
    } else if key_column_of(pos) < 5 {
        Hand::Left
    } else {
        Hand::Right
    }
}

pub fn key_center(pos: usize) -> (r: bool)
    requires
        pos < NUM_KEYS,
    ensures
        r == key_center_spec(pos as int),
{
    let c = key_column_of(pos);
    pos < 32 && (c == 4 || c == 5)
}

/// Whether a slot may take part in a swap.
pub open spec fn swappable(pos: int) -> bool {
    0 <= pos < NUM_SWAPPABLE
}

/* ---------------------------------------------------------------------- *
 * Layers, layouts and swaps                                              *
 * ---------------------------------------------------------------------- */

impl View for Layer {
    type V = Seq<char>;

    open spec fn view(&self) -> Seq<char> {
        self.0.0@
    }
}

impl View for Layout {
    type V = (Seq<char>, Seq<char>);

    open spec fn view(&self) -> (Seq<char>, Seq<char>) {
        (self.0@, self.1@)
    }
}

/// `s` with the entries at `i` and `j` exchanged.
pub open spec fn swap_seq(s: Seq<char>, i: int, j: int) -> Seq<char> {
    s.update(i, s[j]).update(j, s[i])
}

/// A layout after a swap of slots `i` and `j`: both layers are permuted
/// alike, and nothing happens unless both slots are swappable.
pub open spec fn swap_layout(l: (Seq<char>, Seq<char>), i: int, j: int) -> (Seq<char>, Seq<char>) {
    if swappable(i) && swappable(j) {
        (swap_seq(l.0, i, j), swap_seq(l.1, i, j))
    } else {
        l
    }
}

/// A layout after the given swaps, applied first to last.
pub open spec fn apply_swaps(l: (Seq<char>, Seq<char>), swaps: Seq<Swap>) -> (Seq<char>, Seq<char>)
    decreases swaps.len(),
{
    if swaps.len() == 0 {
        l
    } else {
        swap_layout(
            apply_swaps(l, swaps.drop_last()),
            swaps.last().0 as int,
            swaps.last().1 as int,
        )
    }
}

/// Applying one swap twice gives back the layout it started from.
pub proof fn lemma_swap_involution(l: (Seq<char>, Seq<char>), i: int, j: int)
    requires
        l.0.len() == NUM_KEYS,
        l.1.len() == NUM_KEYS,
    ensures
        swap_layout(swap_layout(l, i, j), i, j) == l,
{
    if swappable(i) && swappable(j) {
        assert(swap_seq(swap_seq(l.0, i, j), i, j) =~= l.0);
        assert(swap_seq(swap_seq(l.1, i, j), i, j) =~= l.1);
    }
}

impl Layer {
    pub fn swap(&mut self, i: usize, j: usize)
        requires
            i < NUM_KEYS,
            j < NUM_KEYS,
        ensures
            final(self)@ == swap_seq(old(self)@, i as int, j as int),
    {
        let a = self.0.0[i];
        let b = self.0.0[j];
        self.0.0[i] = b;
        self.0.0[j] = a;
    }
}

impl Layout {
    /// Exchanges the characters of slots `i` and `j` in both layers; a swap
    /// that names a slot outside the swappable ones leaves the layout as it is.
    pub fn swap(&mut self, i: usize, j: usize)
        ensures
            final(self)@ == swap_layout(old(self)@, i as int, j as int),
    {
        if i < NUM_SWAPPABLE && j < NUM_SWAPPABLE {
            self.0.swap(i, j);
            self.1.swap(i, j);
        }
    }
}

} // verus!

verus! {

/* ---------------------------------------------------------------------- *
 * Position maps                                                          *
 * ---------------------------------------------------------------------- */

/// Numeric code of a character.
pub open spec fn code(c: char) -> int {
    c as u32 as int
}

/// Characters that a position map can hold: not the null character, and
/// below `POS_MAP_SIZE`.
pub open spec fn mappable(c: char) -> bool {
    0 < code(c) < POS_MAP_SIZE
}

/// The key press of character `c` on slot `pos`.
pub open spec fn key_press_at(c: char, pos: int) -> KeyPress {
    KeyPress {
        kc: c,
        pos: pos as usize,
        finger: key_finger_spec(pos),
        hand: key_hand_spec(pos),
        row: key_row_spec(pos),
        center: key_center_spec(pos),
    }
}

/// The last slot of `s` that holds the character with code `k`.
pub open spec fn last_slot(s: Seq<char>, k: int) -> Option<int>
    decreases s.len(),
{
    if s.len() == 0 {
        None
    } else if code(s.last()) == k {
        Some(s.len() - 1)
    } else {
        last_slot(s.drop_last(), k)
    }
}

/// What a character resolves to under a layout: the last slot holding it in
/// the shifted layer, else the last one in the unshifted layer.
pub open spec fn position_of(l: (Seq<char>, Seq<char>), c: char) -> Option<KeyPress> {
    if !mappable(c) {
        None
    } else {
        match last_slot(l.1, code(c)) {
            Some(p) => Some(key_press_at(c, p)),
            None => match last_slot(l.0, code(c)) {
                Some(p) => Some(key_press_at(c, p)),
                None => None,
            },
        }
    }
}

pub proof fn lemma_code_injective(a: char, b: char)
    requires
        code(a) == code(b),
    ensures
        a == b,
{
}

proof fn lemma_last_slot_bounds(s: Seq<char>, k: int)
    ensures
        last_slot(s, k) matches Some(p) ==> 0 <= p < s.len() && code(s[p]) == k,
    decreases s.len(),
{
    if s.len() > 0 && code(s.last()) != k {
        lemma_last_slot_bounds(s.drop_last(), k);
    }
}

/// The entry that a layer leaves for code `k` in a table that held `prev` there.
pub open spec fn layer_entry(s: Seq<char>, k: int, prev: Option<KeyPress>) -> Option<KeyPress> {
    match last_slot(s, k) {
        Some(p) => if 0 < k {
            Some(key_press_at(s[p], p))
        } else {
            prev
        },
        None => prev,
    }
}

impl LayoutPosMap {
    pub open spec fn wf(&self) -> bool {
        self.0@.len() == POS_MAP_SIZE
    }

    /// The entry of character `c`; characters beyond the table have none.
    pub open spec fn spec_get(&self, c: char) -> Option<KeyPress> {
        if code(c) < POS_MAP_SIZE {
            self.0@[code(c)]
        } else {
            None
        }
    }

    pub fn get_key_position(&self, kc: char) -> (r: Option<KeyPress>)
        requires
            self.wf(),
        ensures
            r == self.spec_get(kc),
    {
        let k = kc as u32;
        if k < 128 {
            self.0[k as usize]
        } else {
            None
        }
    }
}

impl Layer {
    /// Enters each mappable character of the layer into `map`, slot by slot,
    /// so that a later slot overrides an earlier one.
    #[verifier::spinoff_prover]
    pub fn fill_position_map(&self, map: &mut Vec<Option<KeyPress>>)
        requires
            old(map)@.len() == POS_MAP_SIZE,
        ensures
            final(map)@.len() == POS_MAP_SIZE,
            forall|k: int|
                0 <= k < POS_MAP_SIZE ==> #[trigger] final(map)@[k] == layer_entry(
                    self@,
                    k,
                    old(map)@[k],
                ),
    {
        let ghost m0 = map@;
        for i in 0..NUM_KEYS
            invariant
                map@.len() == POS_MAP_SIZE,
                m0.len() == POS_MAP_SIZE,
                forall|k: int|
                    0 <= k < POS_MAP_SIZE ==> #[trigger] map@[k] == layer_entry(
                        self@.take(i as int),
                        k,
                        m0[k],
                    ),
        {
            let c = self.0.0[i];
            let k = c as u32;
            proof {
                assert(self@.take(i + 1).drop_last() =~= self@.take(i as int));
            }
            let ghost old_map = map@;
            if 0 < k && k < 128 {
                let kp = KeyPress {
                    kc: c,
                    pos: i,
                    finger: key_finger(i),
                    hand: key_hand(i),
                    row: key_row(i),
                    center: key_center(i),
                };
                map.set(k as usize, Some(kp));
            }
            assert forall|k2: int| 0 <= k2 < POS_MAP_SIZE implies #[trigger] map@[k2] == layer_entry(
                self@.take(i + 1),
                k2,
                m0[k2],
            ) by {
                let s1 = self@.take(i + 1);
                assert(s1.drop_last() =~= self@.take(i as int));
                assert(s1.last() == c);
                lemma_last_slot_bounds(self@.take(i as int), k2);
                if code(c) != k2 {
                    assert(last_slot(s1, k2) == last_slot(self@.take(i as int), k2));
                    if let Some(p) = last_slot(s1, k2) {
                        assert(s1[p] == self@.take(i as int)[p]);
                    }
                    assert(map@[k2] == old_map[k2]);
                } else {
                    assert(last_slot(s1, k2) == Some(i as int));
                    if 0 < k2 {
                        assert(map@[k2] == Some(key_press_at(c, i as int)));
                    } else {
                        assert(map@[k2] == old_map[k2]);
                    }
                }
            }
        }
        proof {
            assert(self@.take(NUM_KEYS as int) =~= self@);
        }
    }
}

impl Layout {
    pub fn get_position_map(&self) -> (r: LayoutPosMap)
        ensures
            r.wf(),
            forall|c: char| #[trigger] r.spec_get(c) == position_of(self@, c),
    {
        let mut map: Vec<Option<KeyPress>> = Vec::new();
        for i in 0..POS_MAP_SIZE
            invariant
                map@.len() == i,
                forall|k: int| 0 <= k < i ==> map@[k] == None::<KeyPress>,
        {
            map.push(None);
        }
        let ghost m0 = map@;
        self.0.fill_position_map(&mut map);
        let ghost m1 = map@;
        self.1.fill_position_map(&mut map);
        let r = LayoutPosMap(map);
        assert forall|c: char| #[trigger] r.spec_get(c) == position_of(self@, c) by {
            let k = code(c);
            lemma_last_slot_bounds(self.0@, k);
            lemma_last_slot_bounds(self.1@, k);
            if k < POS_MAP_SIZE {
                assert(m0[k] == None::<KeyPress>);
                assert(m1[k] == layer_entry(self.0@, k, m0[k]));
                assert(r.0@[k] == layer_entry(self.1@, k, m1[k]));
                if let Some(p) = last_slot(self.1@, k) {
                    lemma_code_injective(self.1@[p], c);
                }
                if let Some(p) = last_slot(self.0@, k) {
                    lemma_code_injective(self.0@[p], c);
                }
            }
        }
        r
    }
}

} // verus!

verus! {

/* ---------------------------------------------------------------------- *
 * Reading a layout, and random perturbation                              *
 * ---------------------------------------------------------------------- */

/// Length of one layer in the text form of a layout: three rows of keys
/// and two rows of thumb keys, each ended by a newline.
pub const LAYER_TEXT_LEN: usize = 54;

/// Where slot `i` of the unshifted layer stands in the text form of a
/// layout; the shifted layer follows `LAYER_TEXT_LEN` characters later.
pub open spec fn text_index(i: int) -> int {
    if i < 11 {
        if i < 5 { i } else { i + 1 }
    } else if i < 22 {
        if i < 16 { i + 2 } else { i + 3 }
    } else if i < 32 {
        if i < 27 { i + 4 } else { i + 5 }
    } else if i == 32 {
        42
    } else if i == 33 {
        44
    } else if i == 34 {
        50
    } else {
        52
    }
}

/// Index `k` of a layer's text holds a slot.
pub open spec fn is_slot_index(k: int) -> bool {
    exists|i: int| 0 <= i < NUM_KEYS && text_index(i) == k
}

/// What the text form holds at index `k` of a layer where no slot stands:
/// a newline at the end of a row, a space elsewhere.
pub open spec fn separator(k: int) -> char {
    if k == 12 || k == 25 || k == 37 || k == 45 || k == 53 {
        '\n'
    } else {
        ' '
    }
}

/// Both layers of text `s` hold the separator at index `k`, unless a slot
/// stands there.
pub open spec fn separators_in_place(s: Seq<char>, k: int) -> bool {
    is_slot_index(k) || (s[k] == separator(k) && s[k + LAYER_TEXT_LEN] == separator(k))
}

/// `s` has the shape of the text form of a layout: two layers of
/// `LAYER_TEXT_LEN` characters, with the separators in place.
pub open spec fn is_layout_text(s: Seq<char>) -> bool {
    &&& s.len() == 2 * LAYER_TEXT_LEN
    &&& forall|k: int| 0 <= k < LAYER_TEXT_LEN ==> #[trigger] separators_in_place(s, k)
}

fn slot_test(k: usize) -> (r: bool)
    requires
        k < LAYER_TEXT_LEN,
    ensures
        r == is_slot_index(k as int),
{
    let r = k <= 4 || (6 <= k && k <= 11) || (13 <= k && k <= 17) || (19 <= k && k <= 24) || (26
        <= k && k <= 30) || (32 <= k && k <= 36) || k == 42 || k == 44 || k == 50 || k == 52;
    proof {
        if r {
            let i: int = if k <= 4 {
                k as int
            } else if k <= 11 {
                k - 1
            } else if k <= 17 {
                k - 2
            } else if k <= 24 {
                k - 3
            } else if k <= 30 {
                k - 4
            } else if k <= 36 {
                k - 5
            } else if k == 42 {
                32
            } else if k == 44 {
                33
            } else if k == 50 {
                34
            } else {
                35
            };
            assert(0 <= i < NUM_KEYS && text_index(i) == k);
        } else {
            assert forall|i: int| 0 <= i < NUM_KEYS implies text_index(i) != k by {}
        }
    }
    r
}

fn separator_of(k: usize) -> (r: char)
    ensures
        r == separator(k as int),
{
    if k == 12 || k == 25 || k == 37 || k == 45 || k == 53 {
        '\n'
    } else {
        ' '
    }
}

fn text_index_of(i: usize) -> (r: usize)
    requires
        i < NUM_KEYS,
    ensures
        r == text_index(i as int),
        r <= text_index(35),
{
    if i < 11 {
        if i < 5 { i } else { i + 1 }
    } else if i < 22 {
        if i < 16 { i + 2 } else { i + 3 }
    } else if i < 32 {
        if i < 27 { i + 4 } else { i + 5 }
    } else if i == 32 {
        42
    } else if i == 33 {
        44
    } else if i == 34 {
        50
    } else {
        52
    }
}

/// A sequence of swaps each of which exchanges two distinct swappable slots.
pub open spec fn valid_swaps(s: Seq<Swap>) -> bool {
    forall|k: int|
        0 <= k < s.len() ==> swappable(#[trigger] s[k].0 as int) && swappable(s[k].1 as int)
            && s[k].0 != s[k].1
}

/// Draws two distinct swappable slots.
pub fn shuffle_position(rng: &mut StdRng) -> (r: (usize, usize))
    ensures
        swappable(r.0 as int),
        swappable(r.1 as int),
        r.0 != r.1,
{
    let i = gen_index(rng, NUM_SWAPPABLE);
    let mut j = gen_index(rng, NUM_SWAPPABLE - 1);
    if j >= i {
        j = j + 1;
    }
    (i, j)
}

impl Layout {
    /// Reads a layout from its text form, as `Layout::to_text` writes it:
    /// each layer as three rows of keys (five, a space, then six, six and
    /// five keys), then two rows of two thumb keys indented by four spaces
    /// with a space between them, every row ended by a newline. Fails on
    /// text of any other shape.
    #[verifier::spinoff_prover]
    pub fn from_string(s: &str) -> (r: Option<Layout>)
        ensures
            r is Some <==> is_layout_text(s@),
            r matches Some(l) ==> forall|i: int|
                0 <= i < NUM_KEYS ==> #[trigger] l.0@[i] == s@[text_index(i)] && l.1@[i]
                    == s@[text_index(i) + LAYER_TEXT_LEN],
    {
        let chars = chars_of(s);
        if chars.len() != 2 * LAYER_TEXT_LEN {
            return None;
        }
        let mut ok = true;
        let mut k: usize = 0;
        while k < LAYER_TEXT_LEN
            invariant
                chars@ == s@,
                chars@.len() == 2 * LAYER_TEXT_LEN,
                k <= LAYER_TEXT_LEN,
                ok <==> forall|m: int| 0 <= m < k ==> #[trigger] separators_in_place(s@, m),
            decreases LAYER_TEXT_LEN - k,
        {
            let slot = slot_test(k);
            let sep = separator_of(k);
            let here = slot || (chars[k] == sep && chars[k + LAYER_TEXT_LEN] == sep);
            assert(here == separators_in_place(s@, k as int));
            ok = ok && here;
            k = k + 1;
        }
        if !ok {
            proof {
                let m = choose|m: int| 0 <= m < LAYER_TEXT_LEN && !#[trigger] separators_in_place(s@, m);
            }
            return None;
        }
        assert(is_layout_text(s@));
        let mut lower: [char; 36] = ['\0'; 36];
        let mut upper: [char; 36] = ['\0'; 36];
        for i in 0..NUM_KEYS
            invariant
                chars@ == s@,
                chars@.len() == 2 * LAYER_TEXT_LEN,
                forall|k: int|
                    0 <= k < i ==> #[trigger] lower@[k] == s@[text_index(k)] && upper@[k]
                        == s@[text_index(k) + LAYER_TEXT_LEN],
        {
            let t = text_index_of(i);
            let ghost lower0 = lower@;
            let ghost upper0 = upper@;
            lower[i] = chars[t];
            upper[i] = chars[t + LAYER_TEXT_LEN];
            assert(lower@ == lower0.update(i as int, s@[t as int]));
            assert(upper@ == upper0.update(i as int, s@[t + LAYER_TEXT_LEN]));
        }
        let l = Layout(Layer(KeyMap(lower)), Layer(KeyMap(upper)));
        assert(l.0@ == lower@ && l.1@ == upper@);
        Some(l)
    }

    /// Applies `times` random swaps, each of two distinct swappable slots.
    pub fn shuffle(&mut self, times: usize, rng: &mut StdRng)
        ensures
            exists|s: Seq<Swap>|
                s.len() == times && valid_swaps(s) && final(self)@ == apply_swaps(
                    old(self)@,
                    s,
                ),
    {
        let ghost start = self@;
        let ghost mut done: Seq<Swap> = Seq::empty();
        for k in 0..times
            invariant
                done.len() == k,
                valid_swaps(done),
                self@ == apply_swaps(start, done),
        {
            let (i, j) = shuffle_position(rng);
            self.swap(i, j);
            proof {
                let next = done.push(Swap(i, j));
                assert(next.drop_last() =~= done);
                assert(valid_swaps(next)) by {
                    assert forall|m: int| 0 <= m < next.len() implies swappable(
                        #[trigger] next[m].0 as int,
                    ) && swappable(next[m].1 as int) && next[m].0 != next[m].1 by {
                        if m < done.len() {
                            assert(next[m] == done[m]);
                        }
                    }
                }
                done = next;
            }
        }
    }
}

} // verus!

verus! {

impl LayoutPosMap {
    /// The table as a function from characters to key presses.
    pub open spec fn lookup(&self) -> spec_fn(char) -> Option<KeyPress> {
        |c: char| self.spec_get(c)
    }
}

/// A layout as a function from characters to key presses.
pub open spec fn layout_lookup(l: (Seq<char>, Seq<char>)) -> spec_fn(char) -> Option<KeyPress> {
    |c: char| position_of(l, c)
}

/// Every key press of a layout lies on one of its slots.
pub proof fn lemma_position_in_range(l: (Seq<char>, Seq<char>), c: char)
    requires
        l.0.len() == NUM_KEYS,
        l.1.len() == NUM_KEYS,
    ensures
        position_of(l, c) matches Some(kp) ==> kp.pos < NUM_KEYS && kp.kc == c,
{
    lemma_last_slot_bounds(l.0, code(c));
    lemma_last_slot_bounds(l.1, code(c));
}

impl Layout {
    /// The position map of the layout as a lookup function.
    pub proof fn lemma_pos_map_lookup(&self, m: &LayoutPosMap)
        requires
            forall|c: char| #[trigger] m.spec_get(c) == position_of(self@, c),
        ensures
            m.lookup() == layout_lookup(self@),
            forall|c: char|
                #[trigger] m.spec_get(c) matches Some(kp) ==> kp.pos < NUM_KEYS,
    {
        assert(m.lookup() =~= layout_lookup(self@));
        assert forall|c: char| (#[trigger] m.spec_get(c) matches Some(kp) ==> kp.pos < NUM_KEYS) by {
            lemma_position_in_range(self@, c);
        }
    }
}

} // verus!

verus! {

/* ---------------------------------------------------------------------- *
 * Neighbourhoods: every layout a few distinct swaps away                 *
 * ---------------------------------------------------------------------- */

/// The swaps a neighbourhood draws from: the identity swap of slot 0 with
/// itself, and each pair of distinct swappable slots, lower slot first.
pub open spec fn in_domain(s: Swap) -> bool {
    (s.0 == 0 && s.1 == 0) || (s.0 < s.1 && s.1 < NUM_SWAPPABLE)
}

/// `ss` is a sequence of `k` distinct swaps of the domain.
pub open spec fn swap_sequence(ss: Seq<Swap>, k: int) -> bool {
    &&& ss.len() == k
    &&& forall|i: int| 0 <= i < ss.len() ==> in_domain(#[trigger] ss[i])
    &&& forall|i: int, j: int| 0 <= i < ss.len() && 0 <= j < ss.len() && i != j ==> ss[i] != ss[j]
}

/// `sel` picks `k` distinct indices below `n`.
pub open spec fn is_selection(sel: Seq<usize>, n: int, k: int) -> bool {
    &&& sel.len() == k
    &&& forall|i: int| 0 <= i < sel.len() ==> #[trigger] sel[i] < n
    &&& forall|i: int, j: int|
        0 <= i < sel.len() && 0 <= j < sel.len() && i != j ==> sel[i] != sel[j]
}

/// The swaps that a selection of indices picks.
pub open spec fn selected_swaps(swaps: Seq<Swap>, sel: Seq<usize>) -> Seq<Swap> {
    sel.map_values(|x: usize| swaps[x as int])
}

/// Every swap of the domain occurs in `s`.
pub open spec fn covers_domain(s: Seq<Swap>) -> bool {
    forall|w: Swap| in_domain(w) ==> exists|t: int| 0 <= t < s.len() && #[trigger] s[t] == w
}

/// Each entry of `sels` picks `k` distinct indices below `n`.
pub open spec fn only_selections(sels: Seq<Vec<usize>>, n: int, k: int) -> bool {
    forall|t: int| 0 <= t < sels.len() ==> is_selection(#[trigger] sels[t]@, n, k)
}

/// No selection occurs twice in `sels`.
pub open spec fn distinct_selections(sels: Seq<Vec<usize>>) -> bool {
    forall|t: int, u: int|
        0 <= t < sels.len() && 0 <= u < sels.len() && t != u ==> (#[trigger] sels[t])@ != (
        #[trigger] sels[u])@
}

/// Every way to pick `k` distinct indices below `n` is an entry of `sels`.
pub open spec fn all_selections(sels: Seq<Vec<usize>>, n: int, k: int) -> bool {
    forall|sel: Seq<usize>|
        is_selection(sel, n, k) ==> exists|t: int| 0 <= t < sels.len() && #[trigger] sels[t]@ == sel
}

/// `s` holds the swap of slots `a` and `b`.
pub open spec fn has_swap(s: Seq<Swap>, a: usize, b: usize) -> bool {
    exists|t: int| 0 <= t < s.len() && #[trigger] s[t] == Swap(a, b)
}

/// Relies on itertools' `Itertools::permutations`: every ordered selection
/// of `k` distinct elements of `0..n`, each once (one empty selection when
/// `k` is 0, none when `k` exceeds `n`).
#[verifier::external_body]
fn index_permutations(n: usize, k: usize) -> (r: Vec<Vec<usize>>)
    ensures
        only_selections(r@, n as int, k as int),
        all_selections(r@, n as int, k as int),
        distinct_selections(r@),
{
    (0..n).permutations(k).collect()
}

/// The layouts reachable from one layout by a fixed number of distinct
/// swaps of the domain.
pub struct LayoutPermutations {
    pub orig_layout: Layout,
    pub swaps_per_iteration: usize,
    pub swaps: Vec<Swap>,
    pub selections: Vec<Vec<usize>>,
}

impl LayoutPermutations {
    pub open spec fn wf(&self) -> bool {
        &&& self.swaps@.len() <= usize::MAX
        &&& forall|t: int| 0 <= t < self.swaps@.len() ==> in_domain(#[trigger] self.swaps@[t])
        &&& forall|t: int, u: int|
            0 <= t < self.swaps@.len() && 0 <= u < self.swaps@.len() && t != u ==> self.swaps@[t]
                != self.swaps@[u]
        &&& covers_domain(self.swaps@)
        &&& only_selections(self.selections@, self.swaps@.len() as int, self.swaps_per_iteration as int)
        &&& all_selections(self.selections@, self.swaps@.len() as int, self.swaps_per_iteration as int)
        &&& distinct_selections(self.selections@)
    }

    /// Candidate `t`: the layout after the swaps of selection `t`.
    pub open spec fn spec_candidate(&self, t: int) -> (Seq<char>, Seq<char>) {
        apply_swaps(self.orig_layout@, selected_swaps(self.swaps@, self.selections@[t]@))
    }

    /// The neighbourhood of `layout` for `config.swaps` swaps per candidate.
    #[verifier::spinoff_prover]
    pub fn from_config(config: &crate::config::Config) -> (r: LayoutPermutations)
        ensures
            r.wf(),
            r.orig_layout == config.layout,
            r.swaps_per_iteration == config.swaps,
    {
        let mut swaps: Vec<Swap> = Vec::new();
        swaps.push(Swap(0, 0));
        for n in 0..NUM_SWAPPABLE
            invariant
                swaps@.len() >= 1,
                swaps@[0] == Swap(0, 0),
                forall|t: int|
                    1 <= t < swaps@.len() ==> (#[trigger] swaps@[t]).0 < swaps@[t].1 && swaps@[t].1 < n,
                forall|t: int, u: int|
                    0 <= t < swaps@.len() && 0 <= u < swaps@.len() && t != u ==> swaps@[t]
                        != swaps@[u],
                forall|i: usize, j: usize| i < j < n ==> #[trigger] has_swap(swaps@, i, j),
        {
            for i in 0..n
                invariant
                    n < NUM_SWAPPABLE,
                    swaps@.len() >= 1,
                    swaps@[0] == Swap(0, 0),
                    forall|t: int|
                        1 <= t < swaps@.len() ==> (#[trigger] swaps@[t]).0 < swaps@[t].1 && (
                        swaps@[t].1 < n || (swaps@[t].1 == n && swaps@[t].0 < i)),
                    forall|t: int, u: int|
                        0 <= t < swaps@.len() && 0 <= u < swaps@.len() && t != u ==> swaps@[t]
                            != swaps@[u],
                    forall|a: usize, b: usize|
                        (a < b < n || (b == n && a < i)) ==> #[trigger] has_swap(swaps@, a, b),
            {
                let ghost before = swaps@;
                swaps.push(Swap(i, n));
                proof {
                    assert forall|a: usize, b: usize|
                        (a < b < n || (b == n && a < i + 1)) implies #[trigger] has_swap(swaps@, a, b) by {
                        if b == n && a == i {
                            assert(swaps@[before.len() as int] == Swap(a, b));
                        } else {
                            assert(has_swap(before, a, b));
                            let t = choose|t: int| 0 <= t < before.len() && #[trigger] before[t] == Swap(a, b);
                            assert(swaps@[t] == Swap(a, b));
                        }
                    }
                }
            }
        }
        proof {
            let sw = swaps@;
            assert forall|s: Swap| in_domain(s) implies exists|t: int| 0 <= t < sw.len() && #[trigger] sw[t] == s by {
                if s.0 == 0 && s.1 == 0 {
                    assert(sw[0] == s);
                } else {
                    assert(has_swap(sw, s.0, s.1));
                    let t = choose|t: int| 0 <= t < sw.len() && #[trigger] sw[t] == Swap(s.0, s.1);
                    assert(sw[t] == s);
                }
            }
            assert(covers_domain(sw));
        }
        let n_swaps = swaps.len();
        let selections = index_permutations(n_swaps, config.swaps);
        let r = LayoutPermutations {
            orig_layout: config.layout,
            swaps_per_iteration: config.swaps,
            swaps,
            selections,
        };
        r
    }

    /// Makes `layout` the centre of the neighbourhood.
    pub fn set_layout(&mut self, layout: &Layout)
        ensures
            final(self).orig_layout == *layout,
            final(self).swaps == old(self).swaps,
            final(self).selections == old(self).selections,
            final(self).swaps_per_iteration == old(self).swaps_per_iteration,
    {
        self.orig_layout = *layout;
    }

    /// The layout after the swaps that `sel` picks, applied in order.
    pub fn apply_selection(&self, sel: &Vec<usize>) -> (r: Layout)
        requires
            forall|i: int| 0 <= i < sel@.len() ==> #[trigger] sel@[i] < self.swaps@.len(),
        ensures
            r@ == apply_swaps(self.orig_layout@, selected_swaps(self.swaps@, sel@)),
    {
        let mut layout = self.orig_layout;
        for i in 0..sel.len()
            invariant
                forall|i: int| 0 <= i < sel@.len() ==> #[trigger] sel@[i] < self.swaps@.len(),
                layout@ == apply_swaps(
                    self.orig_layout@,
                    selected_swaps(self.swaps@, sel@.take(i as int)),
                ),
        {
            let s = self.swaps[sel[i]];
            layout.swap(s.0, s.1);
            proof {
                let a = selected_swaps(self.swaps@, sel@.take(i + 1));
                assert(a.drop_last() =~= selected_swaps(self.swaps@, sel@.take(i as int)));
            }
        }
        assert(sel@.take(sel@.len() as int) =~= sel@);
        layout
    }

    /// Candidate `t` of the neighbourhood.
    pub fn candidate(&self, t: usize) -> (r: Layout)
        requires
            self.wf(),
            t < self.selections@.len(),
        ensures
            r@ == self.spec_candidate(t as int),
    {
        let sel = &self.selections[t];
        assert(is_selection(sel@, self.swaps@.len() as int, self.swaps_per_iteration as int));
        self.apply_selection(sel)
    }

    /// Every candidate of the neighbourhood, in the order of the selections.
    pub fn iter(&self) -> (r: Vec<Layout>)
        requires
            self.wf(),
        ensures
            r@.len() == self.selections@.len(),
            forall|t: int| 0 <= t < r@.len() ==> #[trigger] r@[t]@ == self.spec_candidate(t),
    {
        let mut r: Vec<Layout> = Vec::new();
        for t in 0..self.selections.len()
            invariant
                self.wf(),
                r@.len() == t,
                forall|u: int| 0 <= u < t ==> #[trigger] r@[u]@ == self.spec_candidate(u),
        {
            r.push(self.candidate(t));
        }
        r
    }
}

} // verus!


verus! {

/// Character at index `k` of the text form of layer `s`: the slot whose
/// text index is `k`, a space inside a row, or a newline at a row's end.
pub open spec fn layer_text_char(s: Seq<char>, k: int) -> char {
    if is_slot_index(k) {
        s[choose|i: int| 0 <= i < NUM_KEYS && text_index(i) == k]
    } else {
        separator(k)
    }
}

/// The text form of a layout: both layers, as `Layout::from_string` reads them.
pub open spec fn layout_text(l: (Seq<char>, Seq<char>)) -> Seq<char> {
    Seq::new(
        2 * LAYER_TEXT_LEN as nat,
        |k: int|
            if k < LAYER_TEXT_LEN {
                layer_text_char(l.0, k)
            } else {
                layer_text_char(l.1, k - LAYER_TEXT_LEN)
            },
    )
}

proof fn lemma_text_index_injective(i: int, j: int)
    requires
        0 <= i < NUM_KEYS,
        0 <= j < NUM_KEYS,
        text_index(i) == text_index(j),
    ensures
        i == j,
{
}

/// The text form holds every slot where `Layout::from_string` looks for it,
/// so reading it back gives the same layout.
pub proof fn lemma_text_round_trip(l: (Seq<char>, Seq<char>))
    requires
        l.0.len() == NUM_KEYS,
        l.1.len() == NUM_KEYS,
    ensures
        is_layout_text(layout_text(l)),
        forall|i: int|
            0 <= i < NUM_KEYS ==> #[trigger] layout_text(l)[text_index(i)] == l.0[i]
                && layout_text(l)[text_index(i) + LAYER_TEXT_LEN] == l.1[i],
{
    assert forall|i: int| 0 <= i < NUM_KEYS implies #[trigger] layout_text(l)[text_index(i)] == l.0[i]
        && layout_text(l)[text_index(i) + LAYER_TEXT_LEN] == l.1[i] by {
        let k = text_index(i);
        assert(exists|j: int| 0 <= j < NUM_KEYS && text_index(j) == k);
        let j = choose|j: int| 0 <= j < NUM_KEYS && text_index(j) == k;
        lemma_text_index_injective(i, j);
    }
}

impl Layer {
    /// Appends the text form of the layer to `out`.
    #[verifier::spinoff_prover]
    fn write_text(&self, out: &mut Vec<char>)
        ensures
            final(out)@.len() == old(out)@.len() + LAYER_TEXT_LEN,
            forall|k: int|
                0 <= k < old(out)@.len() ==> #[trigger] final(out)@[k] == old(out)@[k],
            forall|k: int|
                0 <= k < LAYER_TEXT_LEN ==> #[trigger] final(out)@[old(out)@.len() + k]
                    == layer_text_char(self@, k),
    {
        let ghost base = out@.len();
        let mut k: usize = 0;
        let mut i: usize = 0;
        while k < LAYER_TEXT_LEN
            invariant
                out@.len() == base + k,
                k <= LAYER_TEXT_LEN,
                i <= NUM_KEYS,
                i == NUM_KEYS || text_index(i as int) >= k,
                forall|j: int| 0 <= j < i ==> text_index(j) < k,
                forall|m: int| 0 <= m < base ==> #[trigger] out@[m] == old(out)@[m],
                forall|m: int| 0 <= m < k ==> #[trigger] out@[base + m] == layer_text_char(self@, m),
            decreases LAYER_TEXT_LEN - k,
        {
            let c = if i < NUM_KEYS && text_index_of(i) == k {
                proof {
                    assert(exists|j: int| 0 <= j < NUM_KEYS && text_index(j) == k);
                    let j = choose|j: int| 0 <= j < NUM_KEYS && text_index(j) == k;
                    lemma_text_index_injective(i as int, j);
                }
                let c = self.0.0[i];
                i = i + 1;
                c
            } else {
                proof {
                    assert forall|j: int| 0 <= j < NUM_KEYS implies text_index(j) != k by {
                        if j >= i && i < NUM_KEYS {
                            assert(text_index(j) >= text_index(i as int));
                        }
                    }
                }
                if k == 12 || k == 25 || k == 37 || k == 45 || k == 53 {
                    '\n'
                } else {
                    ' '
                }
            };
            out.push(c);
            k = k + 1;
        }
    }
}

impl Layout {
    /// The text form of the layout, as `Layout::from_string` reads it.
    pub fn to_text(&self) -> (r: Vec<char>)
        ensures
            r@ == layout_text(self@),
    {
        let mut out: Vec<char> = Vec::new();
        self.0.write_text(&mut out);
        let ghost first = out@;
        self.1.write_text(&mut out);
        assert forall|k: int| 0 <= k < out@.len() implies #[trigger] out@[k] == layout_text(self@)[k] by {
            if k < LAYER_TEXT_LEN {
                assert(out@[k] == first[k]);
                assert(first[0 + k] == layer_text_char(self.0@, k));
            } else {
                let m = k - LAYER_TEXT_LEN;
                assert(out@[LAYER_TEXT_LEN + m] == layer_text_char(self.1@, m));
            }
        }
        assert(out@ =~= layout_text(self@));
        out
    }
}

} // verus!

verus! {

impl Layout {
    /// Applies the swaps of `swaps`, first to last.
    pub fn apply_swap_list(&mut self, swaps: &Vec<Swap>)
        ensures
            final(self)@ == apply_swaps(old(self)@, swaps@),
    {
        let ghost start = self@;
        for i in 0..swaps.len()
            invariant
                self@ == apply_swaps(start, swaps@.take(i as int)),
        {
            let s = swaps[i];
            self.swap(s.0, s.1);
            proof {
                assert(swaps@.take(i + 1).drop_last() =~= swaps@.take(i as int));
            }
        }
        assert(swaps@.take(swaps@.len() as int) =~= swaps@);
    }
}

} // verus!
