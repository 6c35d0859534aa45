//! Lanes as strings of digits in a redundant radix, and the moves between the
//! binary form of a lane and its base-13 and base-9 forms.
//!
//! Digit `i` of a lane stands for bit `i` of the 64-bit word it encodes. A lane
//! keeps one digit more than the word has bits: theta shifts a column sum up by
//! one position before rho folds the overhang back onto digit 0.

use vstd::prelude::*;
use crate::bits::{
    bit, lemma_bit_zero, lemma_word_ext, lemma_word_from_bits, test_bit, word_from_bits,
};

verus! {

/// Radix of the binary form.
pub const B2: u8 = 2;

/// Radix in which theta accumulates.
pub const B13: u8 = 13;

/// Radix in which chi accumulates.
pub const B9: u8 = 9;

/// Weight of the lane itself in the chi accumulation.
pub const A1: u8 = 2;

/// Weight of the next lane of the row in the chi accumulation.
pub const A2: u8 = 1;

/// Weight of the lane after next in the chi accumulation.
pub const A3: u8 = 3;

/// Weight of a round constant or of an absorbed lane in the chi accumulation.
pub const A4: u8 = 2;

/// Number of digits that a lane keeps.
pub const LANE_DIGITS: usize = 65;

/// A lane as little-endian digits of radix `BASE`.
#[derive(Clone, Copy, Debug, PartialEq, Eq)]
pub struct Lane<const BASE: u8> {
    pub digits: [u8; 65],
}

/// A lane in the radix of theta.
pub type Lane13 = Lane<13>;

/// A lane in the radix of chi.
pub type Lane9 = Lane<9>;

impl<const BASE: u8> View for Lane<BASE> {
    type V = Seq<int>;

    open spec fn view(&self) -> Seq<int> {
        Seq::new(65, |i: int| self.digits[i] as int)
    }
}

/// The digits of the 25 lanes of a state.
pub open spec fn view_state<const BASE: u8>(s: [Lane<BASE>; 25]) -> Seq<Seq<int>> {
    Seq::new(25, |k: int| s[k]@)
}

/// The low 64 digits are digits of radix `base` and the overhang digit is 0.
pub open spec fn in_base(l: Seq<int>, base: int) -> bool {
    &&& l.len() == 65
    &&& l[64] == 0
    &&& forall|i: int| 0 <= i < 64 ==> 0 <= #[trigger] l[i] < base
}

/// Every lane of the state is `in_base`.
pub open spec fn state_in_base(s: Seq<Seq<int>>, base: int) -> bool {
    &&& s.len() == 25
    &&& forall|k: int| 0 <= k < 25 ==> in_base(#[trigger] s[k], base)
}

/// The scalar that the digits from position `from` on spell in radix `base`:
/// digit `from` has weight 1.
pub open spec fn digits_value(l: Seq<int>, base: int, from: int) -> int
    decreases l.len() - from,
{
    if from < 0 || from >= l.len() {
        0
    } else {
        l[from] + base * digits_value(l, base, from + 1)
    }
}

/// The scalar of a lane in radix `base`.
pub open spec fn lane_value(l: Seq<int>, base: int) -> int {
    digits_value(l, base, 0)
}

/// The digits that encode the word `w`: digit `i` is bit `i`.
pub open spec fn encode(w: u64) -> Seq<int> {
    Seq::new(
        65,
        |i: int|
            if 0 <= i < 64 && bit(w, i) {
                1int
            } else {
                0int
            },
    )
}

/// The digits that encode each word of a state.
pub open spec fn encode_state(a: Seq<u64>) -> Seq<Seq<int>> {
    Seq::new(25, |k: int| encode(a[k]))
}

/// The bit that a base-13 digit stands for: its parity.
pub open spec fn b13_coef(d: int) -> int {
    d % 2
}

/// The bit that a base-9 digit stands for. The digit is `2a + b + 3c + 2d`
/// for bits `a`, `b`, `c`, `d`, and stands for `a ^ (!b & c) ^ d`.
pub open spec fn b9_coef(d: int) -> int {
    (d / 2) % 2
}

/// The bits that the digits of a base-13 lane stand for.
pub open spec fn b13_bits(l: Seq<int>) -> Seq<bool> {
    Seq::new(64, |i: int| b13_coef(l[i]) == 1)
}

/// The bits that the digits of a base-9 lane stand for.
pub open spec fn b9_bits(l: Seq<int>) -> Seq<bool> {
    Seq::new(64, |i: int| b9_coef(l[i]) == 1)
}

/// The word that a base-13 lane stands for.
pub open spec fn decode_b13(l: Seq<int>) -> u64 {
    word_from_bits(b13_bits(l), 64)
}

/// The word that a base-9 lane stands for.
pub open spec fn decode_b9(l: Seq<int>) -> u64 {
    word_from_bits(b9_bits(l), 64)
}

/// The words that the lanes of a base-13 state stand for.
pub open spec fn decode_state_b13(s: Seq<Seq<int>>) -> Seq<u64> {
    Seq::new(25, |k: int| decode_b13(s[k]))
}

/// The words that the lanes of a base-9 state stand for.
pub open spec fn decode_state_b9(s: Seq<Seq<int>>) -> Seq<u64> {
    Seq::new(25, |k: int| decode_b9(s[k]))
}

/// Bit `i` of the word of a base-13 lane is the parity of digit `i`.
pub proof fn lemma_decode_b13_bit(l: Seq<int>, i: int)
    requires
        0 <= i < 64,
    ensures
        bit(decode_b13(l), i) == (l[i] % 2 == 1),
{
    lemma_word_from_bits(b13_bits(l), 64, i);
}

/// Bit `i` of the word of a base-9 lane is the coefficient of digit `i`.
pub proof fn lemma_decode_b9_bit(l: Seq<int>, i: int)
    requires
        0 <= i < 64,
    ensures
        bit(decode_b9(l), i) == ((l[i] / 2) % 2 == 1),
{
    lemma_word_from_bits(b9_bits(l), 64, i);
}

/// Encoding a word and reading it back in base 13 gives the word.
pub proof fn lemma_decode_encode(w: u64)
    ensures
        decode_b13(encode(w)) == w,
        in_base(encode(w), 2),
{
    let v = decode_b13(encode(w));
    assert forall|i: int| 0 <= i < 64 implies bit(v, i) == bit(w, i) by {
        lemma_decode_b13_bit(encode(w), i);
    }
    lemma_word_ext(v, w);
}

/// A binary lane is the encoding of the word it stands for.
pub proof fn lemma_encode_decode(l: Seq<int>)
    requires
        in_base(l, 2),
    ensures
        encode(decode_b13(l)) == l,
{
    let e = encode(decode_b13(l));
    assert forall|i: int| 0 <= i < 65 implies e[i] == l[i] by {
        if i < 64 {
            lemma_decode_b13_bit(l, i);
            assert(0 <= l[i] < 2);
        }
    }
    assert(e =~= l);
}

/// Two lanes with the same digits are the same lane.
pub proof fn lemma_lane_ext<const BASE: u8>(a: Lane<BASE>, b: Lane<BASE>)
    requires
        a@ == b@,
    ensures
        a == b,
{
    assert forall|i: int| 0 <= i < 65 implies a.digits[i] == b.digits[i] by {
        assert(a@[i] == a.digits[i] as int);
        assert(b@[i] == b.digits[i] as int);
    }
    assert(a.digits =~= b.digits);
}

/// Two states with the same digits are the same state.
pub proof fn lemma_state_ext<const BASE: u8>(a: [Lane<BASE>; 25], b: [Lane<BASE>; 25])
    requires
        view_state(a) == view_state(b),
    ensures
        a == b,
{
    assert forall|k: int| 0 <= k < 25 implies a[k] == b[k] by {
        assert(view_state(a)[k] == view_state(b)[k]);
        lemma_lane_ext(a[k], b[k]);
    }
    assert(a =~= b);
}

impl<const BASE: u8> Lane<BASE> {
    /// The lane whose digits are all 0.
    pub fn zero() -> (lane: Self)
        ensures
            lane@ == encode(0),
            forall|i: int| 0 <= i < 65 ==> lane@[i] == 0,
    {
        let lane = Lane { digits: [0u8;65] };
        proof {
            assert forall|i: int| 0 <= i < 65 implies lane@[i] == encode(0)[i] by {
                if i < 64 {
                    lemma_bit_zero(i);
                }
            }
            assert(lane@ =~= encode(0));
        }
        lane
    }

    /// Whether the low 64 digits are below the radix and the overhang is 0.
    pub fn is_well_formed(&self) -> (ok: bool)
        ensures
            ok == in_base(self@, BASE as int),
    {
        if self.digits[64] != 0 {
            return false;
        }
        let mut i: usize = 0;
        while i < 64
            invariant
                i <= 64,
                forall|j: int| 0 <= j < i ==> 0 <= #[trigger] self@[j] < BASE,
            decreases 64 - i,
        {
            if self.digits[i] >= BASE {
                assert(!(self@[i as int] < BASE));
                return false;
            }
            i += 1;
        }
        true
    }

    /// Whether two lanes have the same digits.
    pub fn same_digits(&self, other: &Self) -> (same: bool)
        ensures
            same == (*self == *other),
            same == (self@ == other@),
    {
        let mut i: usize = 0;
        while i < 65
            invariant
                i <= 65,
                forall|j: int| 0 <= j < i ==> self.digits[j] == other.digits[j],
            decreases 65 - i,
        {
            if self.digits[i] != other.digits[i] {
                assert(self@[i as int] != other@[i as int]);
                return false;
            }
            i += 1;
        }
        proof {
            assert(self@ =~= other@);
            lemma_lane_ext(*self, *other);
        }
        true
    }
}

fn encode_digits(a: u64) -> (digits: [u8; 65])
    ensures
        forall|i: int| 0 <= i < 65 ==> digits[i] as int == #[trigger] encode(a)[i],
{
    let mut digits: [u8; 65] = [0u8;65];
    let mut i: usize = 0;
    while i < 64
        invariant
            i <= 64,
            forall|j: int| 0 <= j < i ==> digits[j] as int == #[trigger] encode(a)[j],
            forall|j: int| i <= j < 65 ==> digits[j] == 0,
        decreases 64 - i,
    {
        if test_bit(a, i) {
            digits[i] = 1;
        }
        i += 1;
    }
    digits
}

/// The base-13 lane of the word `a`.
pub fn convert_b2_to_b13(a: u64) -> (lane: Lane13)
    ensures
        lane@ == encode(a),
{
    let lane = Lane { digits: encode_digits(a) };
    assert(lane@ =~= encode(a));
    lane
}

/// The base-9 lane of the word `a`.
pub fn convert_b2_to_b9(a: u64) -> (lane: Lane9)
    ensures
        lane@ == encode(a),
{
    let lane = Lane { digits: encode_digits(a) };
    assert(lane@ =~= encode(a));
    lane
}

/// The bit that the base-13 digit `x` stands for.
pub fn convert_b13_coef(x: u8) -> (b: u8)
    requires
        x < 13,
    ensures
        b == b13_coef(x as int),
        b <= 1,
{
    x % 2
}

/// The bit that the base-9 digit `x` stands for.
pub fn convert_b9_coef(x: u8) -> (b: u8)
    requires
        x < 9,
    ensures
        b == b9_coef(x as int),
        b <= 1,
{
    (x / 2) % 2
}

/// The word that a base-13 lane stands for: bit `i` is the parity of digit
/// `i`.
pub fn convert_b13_lane_to_b2(lane: &Lane13) -> (w: u64)
    ensures
        w == decode_b13(lane@),
{
    let mut w: u64 = 0;
    let mut i: usize = 0;
    while i < 64
        invariant
            i <= 64,
            w == word_from_bits(b13_bits(lane@), i as int),
        decreases 64 - i,
    {
        assert(lane@[i as int] == lane.digits[i as int]);
        if lane.digits[i] % 2 == 1 {
            w = w | (1u64 << i);
        }
        i += 1;
    }
    w
}

/// The word that a base-9 lane stands for: bit `i` is the second bit of
/// digit `i`.
pub fn convert_b9_lane_to_b2(lane: &Lane9) -> (w: u64)
    ensures
        w == decode_b9(lane@),
{
    let mut w: u64 = 0;
    let mut i: usize = 0;
    while i < 64
        invariant
            i <= 64,
            w == word_from_bits(b9_bits(lane@), i as int),
        decreases 64 - i,
    {
        assert(lane@[i as int] == lane.digits[i as int]);
        if (lane.digits[i] / 2) % 2 == 1 {
            w = w | (1u64 << i);
        }
        i += 1;
    }
    w
}

/// The words that the lanes of a base-13 state stand for.
pub fn convert_b13_state_to_b2(state: &[Lane13; 25]) -> (words: [u64; 25])
    ensures
        words@ == decode_state_b13(view_state(*state)),
{
    let mut words: [u64; 25] = [0u64;25];
    let mut k: usize = 0;
    while k < 25
        invariant
            k <= 25,
            forall|j: int| 0 <= j < k ==> words[j] == decode_b13(view_state(*state)[j]),
        decreases 25 - k,
    {
        assert(view_state(*state)[k as int] == state[k as int]@);
        words[k] = convert_b13_lane_to_b2(&state[k]);
        k += 1;
    }
    assert(words@ =~= decode_state_b13(view_state(*state)));
    words
}

/// The base-13 lanes of the words of a state.
pub fn convert_b2_state_to_b13(words: &[u64; 25]) -> (state: [Lane13; 25])
    ensures
        view_state(state) == encode_state(words@),
{
    let mut state: [Lane13; 25] = [Lane13::zero();25];
    let mut k: usize = 0;
    while k < 25
        invariant
            k <= 25,
            forall|j: int| 0 <= j < k ==> (#[trigger] state[j])@ == encode(words[j]),
        decreases 25 - k,
    {
        state[k] = convert_b2_to_b13(words[k]);
        k += 1;
    }
    assert(view_state(state) =~= encode_state(words@));
    state
}

} // verus!
