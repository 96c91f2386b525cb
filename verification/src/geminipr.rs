//! Strokes sent by a steno machine over the Gemini PR serial protocol.
use crate::base::stroke::{raw_stroke_text, stroke_from_raw, RawKeys, RawStroke, Stroke};
use crate::text::push_char;
use vstd::prelude::*;

verus! {

// for reference: the keys in each of the 6 bytes, from the second most significant bit down
//
//     ["Fn", "#1", "#2", "#3", "#4", "#5", "#6"],
//     ["S1-", "S2-", "T-", "K-", "P-", "W-", "H-"],
//     ["R-", "A-", "O-", "*1", "*2", "res1", "res2"],
//     ["pwr", "*3", "*4", "-E", "-U", "-F", "-R"],
//     ["-P", "-B", "-L", "-G", "-T", "-S", "-D"],
//     ["#7", "#8", "#9", "#A", "#B", "#C", "-Z"],
//
// the most significant bit of each byte is always discarded

/// Whether bit `k` (0 being the least significant) of the byte is set
pub open spec fn bit(byte: u8, k: u8) -> bool {
    (byte >> k) & 1u8 == 1u8
}

fn is_set(byte: u8, k: u8) -> (b: bool)
    requires
        k < 8,
    ensures
        b == bit(byte, k),
{
    (byte >> k) & 1u8 == 1u8
}

/// `c` if the key is pressed, nothing otherwise
pub open spec fn key_if(pressed: bool, c: char) -> Seq<char> {
    if pressed {
        seq![c]
    } else {
        Seq::empty()
    }
}

/// The keys pressed in a Gemini PR packet of 6 bytes
pub open spec fn gemini_keys(raw: Seq<u8>) -> RawKeys {
    RawKeys {
        // number keys 1-6 in the first byte and 7-9 in the last
        num_key: bit(raw[0], 5) || bit(raw[0], 4) || bit(raw[0], 3) || bit(raw[0], 2) || bit(
            raw[0],
            1,
        ) || bit(raw[0], 0) || bit(raw[5], 6) || bit(raw[5], 5) || bit(raw[5], 4),
        left_hand: key_if(bit(raw[1], 6) || bit(raw[1], 5), 'S') + key_if(bit(raw[1], 4), 'T')
            + key_if(bit(raw[1], 3), 'K') + key_if(bit(raw[1], 2), 'P') + key_if(bit(raw[1], 1), 'W')
            + key_if(bit(raw[1], 0), 'H') + key_if(bit(raw[2], 6), 'R'),
        center_left: key_if(bit(raw[2], 5), 'A') + key_if(bit(raw[2], 4), 'O'),
        star_key: bit(raw[2], 3) || bit(raw[2], 2) || bit(raw[3], 5) || bit(raw[3], 4),
        center_right: key_if(bit(raw[3], 3), 'E') + key_if(bit(raw[3], 2), 'U'),
        right_hand: key_if(bit(raw[3], 1), 'F') + key_if(bit(raw[3], 0), 'R') + key_if(
            bit(raw[4], 6),
            'P',
        ) + key_if(bit(raw[4], 5), 'B') + key_if(bit(raw[4], 4), 'L') + key_if(bit(raw[4], 3), 'G')
            + key_if(bit(raw[4], 2), 'T') + key_if(bit(raw[4], 1), 'S') + key_if(bit(raw[4], 0), 'D')
            + key_if(bit(raw[5], 0), 'Z'),
    }
}

/// Pushes the key if its bit is set
fn push_key(s: &mut String, byte: u8, k: u8, c: char)
    requires
        k < 8,
    ensures
        final(s)@ == old(s)@ + key_if(bit(byte, k), c),
{
    if is_set(byte, k) {
        push_char(s, c);
    } else {
        assert(old(s)@ + key_if(bit(byte, k), c) =~= old(s)@);
    }
}

/// Parse a raw byte vector into a stroke
///
/// The vector must have a length of 6
pub fn parse_raw(raw: &Vec<u8>) -> (s: Stroke)
    requires
        raw.len() == 6,
    ensures
        s@ == raw_stroke_text(gemini_keys(raw@)),
{
    let mut raw_stroke = RawStroke {
        num_key: false,
        left_hand: String::new(),
        center_left: String::new(),
        star_key: false,
        center_right: String::new(),
        right_hand: String::new(),
    };

    // first row: number keys 1-6 (the "Fn" key is discarded)
    let row = raw[0];
    raw_stroke.num_key = is_set(row, 5) || is_set(row, 4) || is_set(row, 3) || is_set(row, 2)
        || is_set(row, 1) || is_set(row, 0);

    // second row: left hand S- to H-
    let row = raw[1];
    // first and second S- key
    if is_set(row, 6) || is_set(row, 5) {
        push_char(&mut raw_stroke.left_hand, 'S');
    }
    // the next are T, K, P, W, and H
    push_key(&mut raw_stroke.left_hand, row, 4, 'T');
    push_key(&mut raw_stroke.left_hand, row, 3, 'K');
    push_key(&mut raw_stroke.left_hand, row, 2, 'P');
    push_key(&mut raw_stroke.left_hand, row, 1, 'W');
    push_key(&mut raw_stroke.left_hand, row, 0, 'H');

    // third row: R, A, O, 1*, 2*, and 2 useless keys
    let row = raw[2];
    push_key(&mut raw_stroke.left_hand, row, 6, 'R');
    push_key(&mut raw_stroke.center_left, row, 5, 'A');
    push_key(&mut raw_stroke.center_left, row, 4, 'O');
    // first and second star key
    if is_set(row, 3) || is_set(row, 2) {
        raw_stroke.star_key = true;
    }

    // fourth row: useless power key, 3rd and 4th star, and E, U, F, R
    let row = raw[3];
    if is_set(row, 5) || is_set(row, 4) {
        raw_stroke.star_key = true;
    }
    push_key(&mut raw_stroke.center_right, row, 3, 'E');
    push_key(&mut raw_stroke.center_right, row, 2, 'U');
    push_key(&mut raw_stroke.right_hand, row, 1, 'F');
    push_key(&mut raw_stroke.right_hand, row, 0, 'R');

    // fifth row: P, B, L, G, T, S, D
    let row = raw[4];
    push_key(&mut raw_stroke.right_hand, row, 6, 'P');
    push_key(&mut raw_stroke.right_hand, row, 5, 'B');
    push_key(&mut raw_stroke.right_hand, row, 4, 'L');
    push_key(&mut raw_stroke.right_hand, row, 3, 'G');
    push_key(&mut raw_stroke.right_hand, row, 2, 'T');
    push_key(&mut raw_stroke.right_hand, row, 1, 'S');
    push_key(&mut raw_stroke.right_hand, row, 0, 'D');

    // sixth row: number keys 7-9, A-C (ignored), and -Z key
    let row = raw[5];
    if is_set(row, 6) || is_set(row, 5) || is_set(row, 4) {
        raw_stroke.num_key = true;
    }
    push_key(&mut raw_stroke.right_hand, row, 0, 'Z');

    assert(raw_stroke@.left_hand =~= gemini_keys(raw@).left_hand);
    assert(raw_stroke@.right_hand =~= gemini_keys(raw@).right_hand);
    assert(raw_stroke@.center_left =~= gemini_keys(raw@).center_left);
    assert(raw_stroke@.center_right =~= gemini_keys(raw@).center_right);
    // convert raw stroke to stroke
    stroke_from_raw(raw_stroke)
}

/// The bits of each byte that stand for no key: the discarded most significant bit, the "Fn"
/// key, the two reserved keys, the power key and the keys `#A` to `#C`
pub open spec fn unused_bits() -> Seq<u8> {
    seq![0xC0u8, 0x80u8, 0x83u8, 0xC0u8, 0x80u8, 0x8Eu8]
}

proof fn lemma_number_bits_kept(a: u8, b: u8)
    by (bit_vector)
    requires
        a & !0xC0u8 == b & !0xC0u8,
    ensures
        bit(a, 5) == bit(b, 5),
        bit(a, 4) == bit(b, 4),
        bit(a, 3) == bit(b, 3),
        bit(a, 2) == bit(b, 2),
        bit(a, 1) == bit(b, 1),
        bit(a, 0) == bit(b, 0),
{
}

proof fn lemma_all_bits_kept(a: u8, b: u8)
    by (bit_vector)
    requires
        a & !0x80u8 == b & !0x80u8,
    ensures
        bit(a, 6) == bit(b, 6),
        bit(a, 5) == bit(b, 5),
        bit(a, 4) == bit(b, 4),
        bit(a, 3) == bit(b, 3),
        bit(a, 2) == bit(b, 2),
        bit(a, 1) == bit(b, 1),
        bit(a, 0) == bit(b, 0),
{
}

proof fn lemma_third_row_bits_kept(a: u8, b: u8)
    by (bit_vector)
    requires
        a & !0x83u8 == b & !0x83u8,
    ensures
        bit(a, 6) == bit(b, 6),
        bit(a, 5) == bit(b, 5),
        bit(a, 4) == bit(b, 4),
        bit(a, 3) == bit(b, 3),
        bit(a, 2) == bit(b, 2),
{
}

proof fn lemma_last_row_bits_kept(a: u8, b: u8)
    by (bit_vector)
    requires
        a & !0x8Eu8 == b & !0x8Eu8,
    ensures
        bit(a, 6) == bit(b, 6),
        bit(a, 5) == bit(b, 5),
        bit(a, 4) == bit(b, 4),
        bit(a, 0) == bit(b, 0),
{
}

/// Two packets that differ only in bits that stand for no key give the same stroke
pub proof fn lemma_unused_bits_ignored(raw: Seq<u8>, other: Seq<u8>)
    requires
        raw.len() == 6,
        other.len() == 6,
        forall|i: int|
            0 <= i < 6 ==> #[trigger] raw[i] & !unused_bits()[i] == other[i] & !unused_bits()[i],
    ensures
        gemini_keys(raw) == gemini_keys(other),
        raw_stroke_text(gemini_keys(raw)) == raw_stroke_text(gemini_keys(other)),
{
    assert(raw[0] & !unused_bits()[0] == other[0] & !unused_bits()[0]);
    assert(raw[1] & !unused_bits()[1] == other[1] & !unused_bits()[1]);
    assert(raw[2] & !unused_bits()[2] == other[2] & !unused_bits()[2]);
    assert(raw[3] & !unused_bits()[3] == other[3] & !unused_bits()[3]);
    assert(raw[4] & !unused_bits()[4] == other[4] & !unused_bits()[4]);
    assert(raw[5] & !unused_bits()[5] == other[5] & !unused_bits()[5]);
    lemma_number_bits_kept(raw[0], other[0]);
    lemma_all_bits_kept(raw[1], other[1]);
    lemma_third_row_bits_kept(raw[2], other[2]);
    lemma_number_bits_kept(raw[3], other[3]);
    lemma_all_bits_kept(raw[4], other[4]);
    lemma_last_row_bits_kept(raw[5], other[5]);
}

/// A key of a hand: its letter, the byte of the packet, and the bits of that byte that press it
/// (two for the left `S`, which has two keys; the same bit twice for the others)
pub struct KeyBits {
    pub letter: char,
    pub byte: int,
    pub bit_a: u8,
    pub bit_b: u8,
}

/// A key pressed by one bit
pub open spec fn one_bit(letter: char, byte: int, b: u8) -> KeyBits {
    KeyBits { letter, byte, bit_a: b, bit_b: b }
}

/// The keys of the left hand, in steno order, as the Gemini PR protocol sends them: S- on bits 6
/// and 5 of the second byte, then T-, K-, P-, W-, H- on bits 4 to 0, and R- on bit 6 of the third
pub open spec fn left_keys() -> Seq<KeyBits> {
    seq![
        KeyBits { letter: 'S', byte: 1, bit_a: 6, bit_b: 5 },
        one_bit('T', 1, 4),
        one_bit('K', 1, 3),
        one_bit('P', 1, 2),
        one_bit('W', 1, 1),
        one_bit('H', 1, 0),
        one_bit('R', 2, 6),
    ]
}

/// The vowels of the left hand: A and O on bits 5 and 4 of the third byte
pub open spec fn left_vowel_keys() -> Seq<KeyBits> {
    seq![one_bit('A', 2, 5), one_bit('O', 2, 4)]
}

/// The vowels of the right hand: E and U on bits 3 and 2 of the fourth byte
pub open spec fn right_vowel_keys() -> Seq<KeyBits> {
    seq![one_bit('E', 3, 3), one_bit('U', 3, 2)]
}

/// The keys of the right hand, in steno order: -F and -R on bits 1 and 0 of the fourth byte, -P,
/// -B, -L, -G, -T, -S, -D on bits 6 to 0 of the fifth, and -Z on bit 0 of the sixth
pub open spec fn right_keys() -> Seq<KeyBits> {
    seq![
        one_bit('F', 3, 1),
        one_bit('R', 3, 0),
        one_bit('P', 4, 6),
        one_bit('B', 4, 5),
        one_bit('L', 4, 4),
        one_bit('G', 4, 3),
        one_bit('T', 4, 2),
        one_bit('S', 4, 1),
        one_bit('D', 4, 0),
        one_bit('Z', 5, 0),
    ]
}

/// The letters of the first `n` keys whose bits are set, in the order of the keys
pub open spec fn pressed_upto(raw: Seq<u8>, keys: Seq<KeyBits>, n: int) -> Seq<char>
    decreases n,
{
    if n <= 0 {
        Seq::empty()
    } else {
        let k = keys[n - 1];
        pressed_upto(raw, keys, n - 1) + if bit(raw[k.byte], k.bit_a) || bit(raw[k.byte], k.bit_b) {
            seq![k.letter]
        } else {
            Seq::empty()
        }
    }
}

/// The letters of the keys whose bits are set, in the order of the keys
pub open spec fn pressed(raw: Seq<u8>, keys: Seq<KeyBits>) -> Seq<char> {
    pressed_upto(raw, keys, keys.len() as int)
}

proof fn lemma_left_hand_bits(raw: Seq<u8>)
    requires
        raw.len() == 6,
    ensures
        gemini_keys(raw).left_hand == pressed(raw, left_keys()),
        gemini_keys(raw).center_left == pressed(raw, left_vowel_keys()),
        gemini_keys(raw).center_right == pressed(raw, right_vowel_keys()),
{
    reveal_with_fuel(pressed_upto, 8);
    assert(gemini_keys(raw).left_hand =~= pressed(raw, left_keys()));
    assert(gemini_keys(raw).center_left =~= pressed(raw, left_vowel_keys()));
    assert(gemini_keys(raw).center_right =~= pressed(raw, right_vowel_keys()));
}

proof fn lemma_right_hand_bits(raw: Seq<u8>)
    requires
        raw.len() == 6,
    ensures
        gemini_keys(raw).right_hand == pressed(raw, right_keys()),
{
    reveal_with_fuel(pressed_upto, 11);
    assert(gemini_keys(raw).right_hand =~= pressed(raw, right_keys()));
}

/// Each key is read from its own bits of the packet: every hand holds the letters of the keys
/// whose bits are set, in steno order; the star is any of bits 3 and 2 of the third byte and 5 and
/// 4 of the fourth; the number bar is any of bits 5 to 0 of the first byte and 6 to 4 of the last
pub proof fn lemma_keys_from_bits(raw: Seq<u8>)
    requires
        raw.len() == 6,
    ensures
        gemini_keys(raw).left_hand == pressed(raw, left_keys()),
        gemini_keys(raw).center_left == pressed(raw, left_vowel_keys()),
        gemini_keys(raw).center_right == pressed(raw, right_vowel_keys()),
        gemini_keys(raw).right_hand == pressed(raw, right_keys()),
        gemini_keys(raw).star_key == (bit(raw[2], 3) || bit(raw[2], 2) || bit(raw[3], 5) || bit(
            raw[3],
            4,
        )),
        gemini_keys(raw).num_key == (bit(raw[0], 5) || bit(raw[0], 4) || bit(raw[0], 3) || bit(
            raw[0],
            2,
        ) || bit(raw[0], 1) || bit(raw[0], 0) || bit(raw[5], 6) || bit(raw[5], 5) || bit(
            raw[5],
            4,
        )),
{
    lemma_left_hand_bits(raw);
    lemma_right_hand_bits(raw);
}

} // verus!
