//! Lanes as scalars: the number that the digits of a lane spell in their
//! radix, and what the steps of a round are on those numbers.
//!
//! No digit that a round produces reaches its radix, so each step is a
//! linear relation between the scalars of its lanes.

use vstd::prelude::*;
use crate::arith_helpers::{digits_value, encode, in_base, lane_value, state_in_base, Lane};
use crate::common::lane_index;
use crate::keccak_arith::{
    add_word, column_sum, folded_digit, has_shape, theta, theta_digit, theta_fits, xi, xi_digit,
};

verus! {

/// The sum of the scalars of the five lanes of column `x`.
pub open spec fn column_value(s: Seq<Seq<int>>, x: int, base: int) -> int {
    lane_value(s[lane_index(x, 0)], base) + lane_value(s[lane_index(x, 1)], base) + lane_value(
        s[lane_index(x, 2)],
        base,
    ) + lane_value(s[lane_index(x, 3)], base) + lane_value(s[lane_index(x, 4)], base)
}

/// The scalar of a digit-wise weighted sum of two lanes is the weighted sum
/// of their scalars.
proof fn lemma_value_of_sum(
    out: Seq<int>,
    a: Seq<int>,
    b: Seq<int>,
    wa: int,
    wb: int,
    base: int,
    from: int,
)
    requires
        0 <= from <= 65,
        out.len() == 65,
        a.len() == 65,
        b.len() == 65,
        forall|i: int| 0 <= i < 65 ==> out[i] == wa * a[i] + wb * b[i],
    ensures
        digits_value(out, base, from) == wa * digits_value(a, base, from) + wb * digits_value(
            b,
            base,
            from,
        ),
    decreases 65 - from,
{
    if from >= 65 {
        assert(wa * 0 + wb * 0 == 0) by (nonlinear_arith);
    } else {
        lemma_value_of_sum(out, a, b, wa, wb, base, from + 1);
        let va = digits_value(a, base, from + 1);
        let vb = digits_value(b, base, from + 1);
        let vo = digits_value(out, base, from + 1);
        let da = a[from];
        let db = b[from];
        assert(out[from] == wa * da + wb * db);
        assert(base * (wa * va + wb * vb) == wa * (base * va) + wb * (base * vb))
            by (nonlinear_arith);
        assert(wa * (da + base * va) == wa * da + wa * (base * va)) by (nonlinear_arith);
        assert(wb * (db + base * vb) == wb * db + wb * (base * vb)) by (nonlinear_arith);
    }
}

/// The scalar of a lane moved up by one digit is the radix times its scalar.
proof fn lemma_value_of_shift(out: Seq<int>, c: Seq<int>, base: int, from: int)
    requires
        1 <= from <= 65,
        out.len() == 65,
        c.len() == 65,
        c[64] == 0,
        forall|i: int| 1 <= i < 65 ==> out[i] == c[i - 1],
    ensures
        digits_value(out, base, from) == digits_value(c, base, from - 1),
    decreases 65 - from,
{
    if from >= 65 {
        assert(digits_value(c, base, 64) == c[64] + base * digits_value(c, base, 65));
        assert(base * 0 == 0) by (nonlinear_arith);
    } else {
        lemma_value_of_shift(out, c, base, from + 1);
    }
}

/// The lane `c` moved up by one digit.
pub open spec fn shifted_up(c: Seq<int>) -> Seq<int> {
    Seq::new(
        65,
        |i: int|
            if i >= 1 {
                c[i - 1]
            } else {
                0
            },
    )
}

/// The digit-wise sum of the five lanes of column `x`.
pub open spec fn column_lane(s: Seq<Seq<int>>, x: int) -> Seq<int> {
    Seq::new(65, |i: int| column_sum(s, x, i))
}

proof fn lemma_column_lane_value(s: Seq<Seq<int>>, x: int, base: int)
    requires
        has_shape(s),
        0 <= x < 5,
    ensures
        lane_value(column_lane(s, x), base) == column_value(s, x, base),
{
    let k = lane_index(x, 0);
    let two = Seq::new(65, |i: int| s[k][i] + s[k + 1][i]);
    let three = Seq::new(65, |i: int| two[i] + s[k + 2][i]);
    let four = Seq::new(65, |i: int| three[i] + s[k + 3][i]);
    let five = column_lane(s, x);
    lemma_value_of_sum(two, s[k], s[k + 1], 1, 1, base, 0);
    lemma_value_of_sum(three, two, s[k + 2], 1, 1, base, 0);
    lemma_value_of_sum(four, three, s[k + 3], 1, 1, base, 0);
    lemma_value_of_sum(five, four, s[k + 4], 1, 1, base, 0);
}

/// Theta on scalars: each lane becomes itself plus the column to its left
/// plus the radix times the column to its right.
pub proof fn lemma_theta_value(s: Seq<Seq<int>>, k: int, base: int)
    requires
        has_shape(s),
        forall|m: int| 0 <= m < 25 ==> (#[trigger] s[m])[64] == 0,
        0 <= k < 25,
    ensures
        lane_value(theta(s)[k], base) == lane_value(s[k], base) + column_value(
            s,
            (k / 5 + 4) % 5,
            base,
        ) + base * column_value(s, (k / 5 + 1) % 5, base),
{
    let left = column_lane(s, (k / 5 + 4) % 5);
    let right = column_lane(s, (k / 5 + 1) % 5);
    lemma_column_lane_value(s, (k / 5 + 4) % 5, base);
    lemma_column_lane_value(s, (k / 5 + 1) % 5, base);
    let up = shifted_up(right);
    assert(right[64] == 0);
    lemma_value_of_shift(up, right, base, 1);
    assert(digits_value(up, base, 0) == up[0] + base * digits_value(up, base, 1));
    let part = Seq::new(65, |i: int| s[k][i] + left[i]);
    lemma_value_of_sum(part, s[k], left, 1, 1, base, 0);
    let out = theta(s)[k];
    assert forall|i: int| 0 <= i < 65 implies out[i] == 1 * part[i] + 1 * up[i] by {
        assert(out[i] == theta_digit(s, k, i));
    }
    lemma_value_of_sum(out, part, up, 1, 1, base, 0);
}

/// Xi on scalars: each lane becomes twice itself plus the next lane of its
/// row plus three times the lane after next.
pub proof fn lemma_xi_value(s: Seq<Seq<int>>, k: int, base: int)
    requires
        has_shape(s),
        0 <= k < 25,
    ensures
        lane_value(xi(s)[k], base) == 2 * lane_value(s[k], base) + lane_value(
            s[lane_index((k / 5 + 1) % 5, k % 5)],
            base,
        ) + 3 * lane_value(s[lane_index((k / 5 + 2) % 5, k % 5)], base),
{
    let k1 = lane_index((k / 5 + 1) % 5, k % 5);
    let k2 = lane_index((k / 5 + 2) % 5, k % 5);
    let part = Seq::new(65, |i: int| 2 * s[k][i] + s[k1][i]);
    let out = xi(s)[k];
    lemma_value_of_sum(part, s[k], s[k1], 2, 1, base, 0);
    assert forall|i: int| 0 <= i < 65 implies out[i] == 1 * part[i] + 3 * s[k2][i] by {
        assert(out[i] == xi_digit(s, k, i));
    }
    lemma_value_of_sum(out, part, s[k2], 1, 3, base, 0);
}

/// Iota and absorb on scalars: the scalar of the word, in the radix of the
/// lane, is added `weight` times.
pub proof fn lemma_add_word_value(l: Seq<int>, weight: int, w: u64, base: int)
    requires
        l.len() == 65,
    ensures
        lane_value(add_word(l, weight, w), base) == lane_value(l, base) + weight * lane_value(
            encode(w),
            base,
        ),
{
    let out = add_word(l, weight, w);
    assert forall|i: int| 0 <= i < 65 implies out[i] == 1 * l[i] + weight * encode(w)[i] by {}
    lemma_value_of_sum(out, l, encode(w), 1, weight, base, 0);
}

/// Every digit of the lane, the overhang included, is a digit of the radix.
pub open spec fn all_digits_below(l: Seq<int>, base: int) -> bool {
    &&& l.len() == 65
    &&& forall|i: int| 0 <= i < 65 ==> 0 <= #[trigger] l[i] < base
}

/// Where no folded sum of theta has reached the radix, every digit that
/// theta gives is a digit of base 13.
pub proof fn lemma_fitting_theta_has_digits(s: Seq<Seq<int>>, k: int)
    requires
        state_in_base(s, 13),
        theta_fits(s),
        0 <= k < 25,
    ensures
        all_digits_below(theta(s)[k], 13),
{
    let t = theta(s)[k];
    assert forall|m: int, j: int| 0 <= m < 25 && 0 <= j < 65 implies 0 <= #[trigger] s[m][j] by {
        assert(in_base(s[m], 13));
        if j < 64 {
            assert(0 <= s[m][j] < 13);
        }
    }
    assert forall|i: int| 0 <= i < 65 implies 0 <= #[trigger] t[i] < 13 by {
        assert(t[i] == theta_digit(s, k, i));
        assert(t[0] == theta_digit(s, k, 0));
        assert(t[64] == theta_digit(s, k, 64));
        assert(0 <= column_sum(s, (k / 5 + 4) % 5, i));
        assert(0 <= column_sum(s, (k / 5 + 4) % 5, 0));
        assert(0 <= column_sum(s, (k / 5 + 1) % 5, 63));
        if 1 <= i {
            assert(0 <= column_sum(s, (k / 5 + 1) % 5, i - 1));
        }
        assert(0 <= folded_digit(t, 0) < 13);
        if 1 <= i < 64 {
            assert(0 <= folded_digit(t, i) < 13);
        }
    }
}

/// On binary digits every digit that xi gives is a digit of base 9.
pub proof fn lemma_xi_of_binary_has_digits(s: Seq<Seq<int>>, k: int)
    requires
        state_in_base(s, 2),
        0 <= k < 25,
    ensures
        all_digits_below(xi(s)[k], 9),
{
    crate::correctness::lemma_xi(s);
    let x = xi(s)[k];
    assert(in_base(x, 7));
    assert forall|i: int| 0 <= i < 65 implies 0 <= #[trigger] x[i] < 9 by {
        if i < 64 {
            assert(0 <= x[i] < 7);
        }
    }
}

/// No carry in theta: where no sum has reached the radix, the lane that
/// theta gives is the only lane of base-13 digits whose scalar is the lane
/// plus the column to its left plus 13 times the column to its right.
pub proof fn lemma_theta_value_pins_digits(s: Seq<Seq<int>>, k: int, out: Seq<int>)
    requires
        has_shape(s),
        forall|m: int| 0 <= m < 25 ==> (#[trigger] s[m])[64] == 0,
        0 <= k < 25,
        all_digits_below(theta(s)[k], 13),
        all_digits_below(out, 13),
        lane_value(out, 13) == lane_value(s[k], 13) + column_value(s, (k / 5 + 4) % 5, 13) + 13
            * column_value(s, (k / 5 + 1) % 5, 13),
    ensures
        out == theta(s)[k],
{
    lemma_theta_value(s, k, 13);
    lemma_digits_unique(out, theta(s)[k], 13, 0);
    assert(out =~= theta(s)[k]);
}

/// No carry in xi: where no sum has reached the radix, the lane that xi
/// gives is the only lane of base-9 digits whose scalar is twice the lane
/// plus the next lane of its row plus three times the lane after next.
pub proof fn lemma_xi_value_pins_digits(s: Seq<Seq<int>>, k: int, out: Seq<int>)
    requires
        has_shape(s),
        0 <= k < 25,
        all_digits_below(xi(s)[k], 9),
        all_digits_below(out, 9),
        lane_value(out, 9) == 2 * lane_value(s[k], 9) + lane_value(
            s[lane_index((k / 5 + 1) % 5, k % 5)],
            9,
        ) + 3 * lane_value(s[lane_index((k / 5 + 2) % 5, k % 5)], 9),
    ensures
        out == xi(s)[k],
{
    lemma_xi_value(s, k, 9);
    lemma_digits_unique(out, xi(s)[k], 9, 0);
    assert(out =~= xi(s)[k]);
}

/// No carry in iota and absorb: where no sum has reached the radix, the
/// lane with the word added is the only lane of digits of the radix whose
/// scalar is that of the lane plus `weight` times that of the word.
pub proof fn lemma_add_word_value_pins_digits(
    l: Seq<int>,
    weight: int,
    w: u64,
    base: int,
    out: Seq<int>,
)
    requires
        l.len() == 65,
        1 <= base,
        all_digits_below(add_word(l, weight, w), base),
        all_digits_below(out, base),
        lane_value(out, base) == lane_value(l, base) + weight * lane_value(encode(w), base),
    ensures
        out == add_word(l, weight, w),
{
    lemma_add_word_value(l, weight, w, base);
    lemma_digits_unique(out, add_word(l, weight, w), base, 0);
    assert(out =~= add_word(l, weight, w));
}

/// `base` to the power `n`.
pub open spec fn power(base: int, n: nat) -> int
    decreases n,
{
    if n == 0 {
        1
    } else {
        base * power(base, (n - 1) as nat)
    }
}

/// The digits that the bytes of an array are, read as integers.
pub open spec fn as_digits(bytes: Seq<u8>) -> Seq<int> {
    Seq::new(bytes.len(), |i: int| bytes[i] as int)
}

/// The number that little-endian bytes spell.
pub open spec fn bytes_value(bytes: Seq<u8>) -> int {
    digits_value(as_digits(bytes), 256, 0)
}

/// The scalar from a position on depends on the digits from that position on
/// only.
pub proof fn lemma_value_of_suffix(a: Seq<int>, b: Seq<int>, base: int, from: int)
    requires
        a.len() == b.len(),
        0 <= from,
        forall|i: int| from <= i < a.len() ==> a[i] == b[i],
    ensures
        digits_value(a, base, from) == digits_value(b, base, from),
    decreases a.len() - from,
{
    if from < a.len() {
        lemma_value_of_suffix(a, b, base, from + 1);
    }
}

/// Digits that are all 0 spell 0; digits that are not, in a radix that is
/// not negative, spell more.
pub proof fn lemma_value_is_zero(a: Seq<int>, base: int, from: int)
    requires
        0 <= from,
        0 <= base,
        forall|i: int| from <= i < a.len() ==> 0 <= #[trigger] a[i],
    ensures
        0 <= digits_value(a, base, from),
        (forall|i: int| from <= i < a.len() ==> a[i] == 0) ==> digits_value(a, base, from) == 0,
        (exists|i: int| from <= i < a.len() && a[i] != 0) ==> digits_value(a, base, from) > 0
            || base == 0,
    decreases a.len() - from,
{
    if from < a.len() {
        lemma_value_is_zero(a, base, from + 1);
        let rest = digits_value(a, base, from + 1);
        assert(0 <= base * rest) by (nonlinear_arith)
            requires
                0 <= base,
                0 <= rest,
        ;
        if forall|i: int| from <= i < a.len() ==> a[i] == 0 {
            assert(base * 0 == 0) by (nonlinear_arith);
        }
        if exists|i: int| from <= i < a.len() && a[i] != 0 {
            let i = choose|i: int| from <= i < a.len() && a[i] != 0;
            if i != from && base != 0 {
                assert(rest > 0);
                assert(base * rest > 0) by (nonlinear_arith)
                    requires
                        0 < base,
                        0 < rest,
                ;
            }
        }
    }
}

/// Digits below their radix spell a number below the power of the radix
/// that has as many digits.
pub proof fn lemma_value_below_power(a: Seq<int>, base: int, from: int)
    requires
        0 <= from <= a.len(),
        1 <= base,
        forall|i: int| from <= i < a.len() ==> 0 <= #[trigger] a[i] < base,
    ensures
        0 <= digits_value(a, base, from) < power(base, (a.len() - from) as nat),
    decreases a.len() - from,
{
    if from < a.len() {
        lemma_value_below_power(a, base, from + 1);
        let rest = digits_value(a, base, from + 1);
        let top = power(base, (a.len() - from - 1) as nat);
        assert(power(base, (a.len() - from) as nat) == base * top);
        assert(a[from] + base * rest < base * top && 0 <= base * rest) by (nonlinear_arith)
            requires
                0 <= a[from] < base,
                0 <= rest < top,
                1 <= base,
        ;
    }
}

/// Digits that fit a byte, in a radix of at most 13, spell a number below
/// `22 * 13^n` for `n` digits.
proof fn lemma_value_of_bytes_below(a: Seq<int>, base: int, from: int)
    requires
        0 <= from <= a.len(),
        0 <= base <= 13,
        forall|i: int| from <= i < a.len() ==> 0 <= #[trigger] a[i] < 256,
    ensures
        0 <= digits_value(a, base, from) <= 22 * power(13, (a.len() - from) as nat) - 22,
    decreases a.len() - from,
{
    if from < a.len() {
        lemma_value_of_bytes_below(a, base, from + 1);
        let rest = digits_value(a, base, from + 1);
        let top = power(13, (a.len() - from - 1) as nat);
        assert(power(13, (a.len() - from) as nat) == 13 * top);
        assert(0 <= base * rest <= 13 * rest) by (nonlinear_arith)
            requires
                0 <= base <= 13,
                0 <= rest,
        ;
    }
}

/// A lane of 65 digits in a radix of at most 13 spells a number below
/// `2^256`, whatever its digits: it fits in 32 bytes.
pub proof fn lemma_lane_fits_in_bytes(l: Seq<int>, base: int)
    requires
        l.len() == 65,
        0 <= base <= 13,
        forall|i: int| 0 <= i < 65 ==> 0 <= #[trigger] l[i] < 256,
    ensures
        0 <= lane_value(l, base) < power(256, 32),
{
    lemma_value_of_bytes_below(l, base, 0);
    lemma_power_bound();
    assert(22 * power(13, 65) <= 256 * power(13, 65)) by (nonlinear_arith)
        requires
            power(13, 65) >= 0,
    ;
}

/// `256^31` and `256^32` are `2^248` and `2^256`.
pub proof fn lemma_powers_of_256()
    ensures
        power(256, 31) == 0x1_0000_0000_0000_0000_0000_0000_0000_0000_0000_0000_0000_0000_0000_0000_0000_00,
        power(256, 32)
            == 0x1_0000_0000_0000_0000_0000_0000_0000_0000_0000_0000_0000_0000_0000_0000_0000_0000,
{
    reveal_with_fuel(power, 9);
    assert(power(256, 8) == 0x1_0000_0000_0000_0000);
    assert(power(256, 7) == 0x1_0000_0000_0000_00);
    lemma_power_adds(256, 8, 8);
    assert(power(256, 16) == 0x1_0000_0000_0000_0000_0000_0000_0000_0000);
    lemma_power_adds(256, 16, 8);
    assert(power(256, 24) == 0x1_0000_0000_0000_0000_0000_0000_0000_0000_0000_0000_0000_0000);
    lemma_power_adds(256, 24, 7);
    lemma_power_adds(256, 24, 8);
}

proof fn lemma_value_below_power_of_13(a: Seq<int>, base: int, from: int)
    requires
        0 <= from <= a.len(),
        1 <= base <= 13,
        forall|i: int| from <= i < a.len() ==> 0 <= #[trigger] a[i] < base,
    ensures
        0 <= digits_value(a, base, from) < power(13, (a.len() - from) as nat),
    decreases a.len() - from,
{
    if from < a.len() {
        lemma_value_below_power_of_13(a, base, from + 1);
        let rest = digits_value(a, base, from + 1);
        let top = power(13, (a.len() - from - 1) as nat);
        assert(power(13, (a.len() - from) as nat) == 13 * top);
        assert(0 <= base * rest <= 13 * rest) by (nonlinear_arith)
            requires
                0 <= base <= 13,
                0 <= rest,
        ;
    }
}

/// A lane whose 65 digits are digits of a radix of at most 13 has a scalar
/// below `2^241`: it is an element of every prime field of more than 241
/// bits, and sums of such lanes with small weights do not wrap around.
pub proof fn lemma_lane_below_2_to_241(l: Seq<int>, base: int)
    requires
        l.len() == 65,
        1 <= base <= 13,
        forall|i: int| 0 <= i < 65 ==> 0 <= #[trigger] l[i] < base,
    ensures
        0 <= lane_value(l, base)
            < 0x2_0000_0000_0000_0000_0000_0000_0000_0000_0000_0000_0000_0000_0000_0000_0000,
{
    lemma_value_below_power_of_13(l, base, 0);
    lemma_power_bound();
}

proof fn lemma_power_bound()
    ensures
        256 * power(13, 65) < power(256, 32),
        power(13, 65)
            < 0x2_0000_0000_0000_0000_0000_0000_0000_0000_0000_0000_0000_0000_0000_0000_0000,
{
    reveal_with_fuel(power, 11);
    assert(power(13, 10) == 137858491849);
    assert(power(13, 5) == 371293);
    lemma_power_adds(13, 10, 10);
    assert(power(13, 20) == 19004963774880799438801);
    lemma_power_adds(13, 20, 20);
    assert(power(13, 40) == 361188648084531445929920877641340156544317601);
    lemma_power_adds(13, 40, 20);
    assert(power(13, 60) == 6864377172744689378196133203444067624537070830997366604446306636401);
    lemma_power_adds(13, 60, 5);
    assert(power(13, 65) == 2548695193599893953298576885506358200517242640053505238664682529949236493);
    lemma_powers_of_256();
}

/// The power of a sum of exponents is the product of the powers.
pub proof fn lemma_power_adds(base: int, m: nat, n: nat)
    ensures
        power(base, m + n) == power(base, m) * power(base, n),
    decreases m,
{
    if m == 0 {
        assert(1 * power(base, n) == power(base, n)) by (nonlinear_arith);
    } else {
        lemma_power_adds(base, (m - 1) as nat, n);
        assert(power(base, m + n) == base * power(base, (m + n - 1) as nat));
        assert(base * (power(base, (m - 1) as nat) * power(base, n)) == (base * power(
            base,
            (m - 1) as nat,
        )) * power(base, n)) by (nonlinear_arith);
    }
}

/// Digits below their radix are determined by the number they spell.
pub proof fn lemma_digits_unique(a: Seq<int>, b: Seq<int>, base: int, from: int)
    requires
        a.len() == b.len(),
        0 <= from <= a.len(),
        1 <= base,
        forall|i: int| from <= i < a.len() ==> 0 <= #[trigger] a[i] < base,
        forall|i: int| from <= i < b.len() ==> 0 <= #[trigger] b[i] < base,
        digits_value(a, base, from) == digits_value(b, base, from),
    ensures
        forall|i: int| from <= i < a.len() ==> a[i] == b[i],
    decreases a.len() - from,
{
    if from < a.len() {
        let ra = digits_value(a, base, from + 1);
        let rb = digits_value(b, base, from + 1);
        assert(0 <= a[from] < base && 0 <= b[from] < base);
        assert(ra == rb && a[from] == b[from]) by (nonlinear_arith)
            requires
                a[from] + base * ra == b[from] + base * rb,
                0 <= a[from] < base,
                0 <= b[from] < base,
                1 <= base,
        ;
        lemma_digits_unique(a, b, base, from + 1);
    }
}

/// Two arrays of 32 bytes that spell the same number are the same array.
pub proof fn lemma_bytes_unique(a: [u8; 32], b: [u8; 32])
    requires
        bytes_value(a@) == bytes_value(b@),
    ensures
        a == b,
{
    lemma_digits_unique(as_digits(a@), as_digits(b@), 256, 0);
    assert forall|i: int| 0 <= i < 32 implies a[i] == b[i] by {
        assert(as_digits(a@)[i] == as_digits(b@)[i]);
    }
    assert(a =~= b);
}

/// A lane whose digits are all below the radix is the only such lane with
/// its scalar.
pub proof fn lemma_lane_unique<const BASE: u8>(a: Lane<BASE>, b: Lane<BASE>)
    requires
        forall|i: int| 0 <= i < 65 ==> 0 <= #[trigger] a@[i] < BASE,
        forall|i: int| 0 <= i < 65 ==> 0 <= #[trigger] b@[i] < BASE,
        lane_value(a@, BASE as int) == lane_value(b@, BASE as int),
    ensures
        a == b,
{
    assert(0 <= a@[0] < BASE);
    lemma_digits_unique(a@, b@, BASE as int, 0);
    assert(a@ =~= b@);
    crate::arith_helpers::lemma_lane_ext(a, b);
}

/// A chain of divisions: `chain[i]` is `chain[i + 1]` times `divisor` plus
/// the digit `rems[i]`, so `chain[0]` is the scalar of the digits plus the
/// last quotient times the power of the divisor.
pub proof fn lemma_division_chain(chain: Seq<int>, rems: Seq<int>, divisor: int, from: int)
    requires
        0 <= from <= rems.len(),
        chain.len() == rems.len() + 1,
        forall|i: int| 0 <= i < rems.len() ==> chain[i] == rems[i] + divisor * chain[i + 1],
    ensures
        chain[from] == digits_value(rems, divisor, from) + power(
            divisor,
            (rems.len() - from) as nat,
        ) * chain[rems.len() as int],
    decreases rems.len() - from,
{
    let last = chain[rems.len() as int];
    if from < rems.len() {
        lemma_division_chain(chain, rems, divisor, from + 1);
        let rest = digits_value(rems, divisor, from + 1);
        let top = power(divisor, (rems.len() - from - 1) as nat);
        assert(power(divisor, (rems.len() - from) as nat) == divisor * top);
        assert(divisor * (rest + top * last) == divisor * rest + (divisor * top) * last)
            by (nonlinear_arith);
    } else {
        assert(1 * last == last) by (nonlinear_arith);
    }
}

/// One long division of a number given by its digits: the digits of the
/// quotient, in the same radix, and the remainder.
fn divide_digits<const N: usize>(digits: &[u8; N], base: u32, divisor: u32) -> (res: (
    [u8; N],
    u8,
))
    requires
        base <= 256,
        1 <= divisor <= 256,
        255 + (divisor - 1) * base < 256 * divisor,
    ensures
        digits_value(as_digits(digits@), base as int, 0) == digits_value(
            as_digits(res.0@),
            base as int,
            0,
        ) * divisor + res.1,
        res.1 < divisor,
{
    let mut quotient: [u8; N] = *digits;
    let mut rem: u32 = 0;
    let mut j: usize = N;
    let ghost old_digits = as_digits(digits@);
    while j > 0
        invariant
            j <= N,
            base <= 256,
            1 <= divisor <= 256,
            255 + (divisor - 1) * base < 256 * divisor,
            rem < divisor,
            old_digits == as_digits(digits@),
            digits_value(old_digits, base as int, j as int) == digits_value(
                as_digits(quotient@),
                base as int,
                j as int,
            ) * divisor + rem,
        decreases j,
    {
        j -= 1;
        let ghost before = as_digits(quotient@);
        let ghost tail = digits_value(before, base as int, j + 1);
        let ghost old_tail = digits_value(old_digits, base as int, j + 1);
        assert(rem * base <= (divisor - 1) * base) by (nonlinear_arith)
            requires
                rem <= divisor - 1,
                0 <= base,
        ;
        let cur: u32 = rem * base + digits[j] as u32;
        let q: u32 = cur / divisor;
        assert(q < 256) by (nonlinear_arith)
            requires
                q == cur / divisor,
                cur < 256 * divisor,
                divisor >= 1,
        ;
        let new_rem: u32 = cur % divisor;
        assert(cur == q * divisor + new_rem) by (nonlinear_arith)
            requires
                q == cur / divisor,
                new_rem == cur % divisor,
                divisor >= 1,
        ;
        quotient[j] = q as u8;
        proof {
            let after = as_digits(quotient@);
            lemma_value_of_suffix(after, before, base as int, j + 1);
            assert(digits_value(after, base as int, j as int) == q + base * tail);
            assert(old_digits[j as int] == digits[j as int] as int);
            assert(digits_value(old_digits, base as int, j as int) == digits[j as int] + base
                * old_tail);
            assert(old_tail == tail * divisor + rem);
            assert(digits[j as int] + base * (tail * divisor + rem) == (q + base * tail)
                * divisor + new_rem) by (nonlinear_arith)
                requires
                    rem * base + digits[j as int] == q * divisor + new_rem,
            ;
        }
        rem = new_rem;
    }
    (quotient, rem as u8)
}

fn all_zero<const N: usize>(digits: &[u8; N]) -> (zero: bool)
    ensures
        zero == (forall|i: int| 0 <= i < N ==> as_digits(digits@)[i] == 0),
{
    let mut i: usize = 0;
    while i < N
        invariant
            i <= N,
            forall|j: int| 0 <= j < i ==> as_digits(digits@)[j] == 0,
        decreases N - i,
    {
        if digits[i] != 0 {
            assert(as_digits(digits@)[i as int] != 0);
            return false;
        }
        i += 1;
    }
    true
}

impl<const BASE: u8> Lane<BASE> {
    /// The scalar of the lane as 32 little-endian bytes, if it is below
    /// `2^256`.
    pub fn to_le_bytes(&self) -> (res: Option<[u8; 32]>)
        ensures
            res is Some <==> lane_value(self@, BASE as int) < power(256, 32),
            res is Some ==> bytes_value(res->0@) == lane_value(self@, BASE as int),
            BASE <= 13 ==> res is Some,
    {
        proof {
            if BASE <= 13 {
                assert forall|i: int| 0 <= i < 65 implies 0 <= #[trigger] self@[i] < 256 by {
                    assert(self@[i] == self.digits[i]);
                }
                lemma_lane_fits_in_bytes(self@, BASE as int);
            }
        }
        let mut bytes: [u8; 32] = [0u8;32];
        assert(as_digits(self.digits@) =~= self@);
        if BASE == 0 {
            // In radix 0 only digit 0 counts.
            bytes[0] = self.digits[0];
            proof {
                let b = as_digits(bytes@);
                lemma_value_is_zero(b, 256, 1);
                assert(digits_value(b, 256, 0) == b[0] + 256 * digits_value(b, 256, 1));
                assert(lane_value(self@, 0) == self@[0] + 0 * digits_value(self@, 0, 1));
                lemma_value_below_power(b, 256, 0);
            }
            return Some(bytes);
        }
        let mut rest: [u8; 65] = self.digits;
        let ghost mut chain: Seq<int> = seq![lane_value(self@, BASE as int)];
        let mut i: usize = 0;
        while i < 32
            invariant
                i <= 32,
                BASE != 0,
                chain.len() == i + 1,
                chain[0] == lane_value(self@, BASE as int),
                chain[i as int] == digits_value(as_digits(rest@), BASE as int, 0),
                forall|j: int|
                    0 <= j < i ==> #[trigger] chain[j] == bytes[j] + 256 * chain[j + 1],
            decreases 32 - i,
        {
            assert(255 + 255 * (BASE as int) < 256 * 256) by (nonlinear_arith)
                requires
                    0 <= BASE as int <= 255,
            ;
            let (quotient, rem) = divide_digits(&rest, BASE as u32, 256);
            proof {
                chain = chain.push(digits_value(as_digits(quotient@), BASE as int, 0));
            }
            bytes[i] = rem;
            rest = quotient;
            i += 1;
        }
        proof {
            let rems = as_digits(bytes@);
            assert forall|j: int| 0 <= j < 32 implies chain[j] == rems[j] + 256 * chain[j
                + 1] by {
                assert(chain[j] == bytes[j] + 256 * chain[j + 1]);
            }
            lemma_division_chain(chain, rems, 256, 0);
            lemma_value_below_power(rems, 256, 0);
            lemma_value_is_zero(as_digits(rest@), BASE as int, 0);
        }
        if all_zero(&rest) {
            assert(power(256, 32) * 0 == 0) by (nonlinear_arith);
            Some(bytes)
        } else {
            proof {
                let last = chain[32];
                assert(last >= 1);
                assert(power(256, 32) * last >= power(256, 32)) by (nonlinear_arith)
                    requires
                        last >= 1,
                        power(256, 32) >= 0,
                ;
            }
            None
        }
    }

    /// The lane whose scalar 32 little-endian bytes spell, if the scalar has
    /// no more than 65 digits in the radix of the lane. Every digit of the
    /// lane is a digit of the radix; the overhang digit may be set.
    pub fn from_le_bytes(bytes: &[u8; 32]) -> (res: Option<Self>)
        ensures
            res is Some <==> bytes_value(bytes@) < power(BASE as int, 65),
            res is Some ==> lane_value(res->0@, BASE as int) == bytes_value(bytes@),
            res is Some ==> forall|i: int| 0 <= i < 65 ==> 0 <= #[trigger] res->0@[i] < BASE,
    {
        if BASE == 0 {
            proof {
                lemma_value_is_zero(as_digits(bytes@), 256, 0);
                assert(power(0, 65) == 0 * power(0, 64));
            }
            return None;
        }
        let mut digits: [u8; 65] = [0u8;65];
        let mut rest: [u8; 32] = *bytes;
        let ghost mut chain: Seq<int> = seq![bytes_value(bytes@)];
        let mut i: usize = 0;
        while i < 65
            invariant
                i <= 65,
                BASE != 0,
                chain.len() == i + 1,
                chain[0] == bytes_value(bytes@),
                chain[i as int] == digits_value(as_digits(rest@), 256, 0),
                forall|j: int|
                    0 <= j < i ==> #[trigger] chain[j] == chain[j + 1] * BASE + digits[j],
                forall|j: int| 0 <= j < i ==> digits[j] < BASE,
            decreases 65 - i,
        {
            assert(255 + (BASE as int - 1) * 256 < 256 * (BASE as int)) by (nonlinear_arith)
                requires
                    1 <= BASE as int,
            ;
            let (quotient, rem) = divide_digits(&rest, 256, BASE as u32);
            proof {
                chain = chain.push(digits_value(as_digits(quotient@), 256, 0));
            }
            digits[i] = rem;
            rest = quotient;
            i += 1;
        }
        let lane = Lane { digits };
        proof {
            assert(as_digits(digits@) =~= lane@);
            assert forall|j: int| 0 <= j < 65 implies chain[j] == lane@[j] + BASE * chain[j
                + 1] by {
                assert(chain[j] == chain[j + 1] * BASE + digits[j]);
                assert(chain[j + 1] * BASE == BASE * chain[j + 1]) by (nonlinear_arith);
            }
            lemma_division_chain(chain, lane@, BASE as int, 0);
            assert forall|j: int| 0 <= j < 65 implies 0 <= #[trigger] lane@[j] < BASE by {
                assert(digits[j] < BASE);
            }
            lemma_value_below_power(lane@, BASE as int, 0);
            lemma_value_is_zero(as_digits(rest@), 256, 0);
        }
        if all_zero(&rest) {
            assert(power(BASE as int, 65) * 0 == 0) by (nonlinear_arith);
            Some(lane)
        } else {
            proof {
                let last = chain[65];
                assert(last >= 1);
                assert(power(BASE as int, 65) * last >= power(BASE as int, 65))
                    by (nonlinear_arith)
                    requires
                        last >= 1,
                        power(BASE as int, 65) >= 0,
                ;
            }
            None
        }
    }
}

/// The 64-bit word that 32 little-endian bytes spell, if they spell one:
/// a number below `2^64`.
#[verifier::loop_isolation(false)]
pub fn word_from_le_bytes(bytes: &[u8; 32]) -> (res: Option<u64>)
    ensures
        res is Some <==> bytes_value(bytes@) < 0x1_0000_0000_0000_0000,
        res is Some ==> res->0 == bytes_value(bytes@),
{
    let ghost d = as_digits(bytes@);
    let ghost low = d.take(8);
    proof {
        let chain = Seq::new(9, |i: int| digits_value(d, 256, i));
        assert forall|i: int| 0 <= i < 8 implies chain[i] == low[i] + 256 * chain[i + 1] by {
            assert(digits_value(d, 256, i) == d[i] + 256 * digits_value(d, 256, i + 1));
        }
        lemma_division_chain(chain, low, 256, 0);
        lemma_value_below_power(low, 256, 0);
        lemma_value_is_zero(d, 256, 8);
        reveal_with_fuel(power, 9);
        assert(power(256, 8) == 0x1_0000_0000_0000_0000);
    }
    let mut i: usize = 8;
    while i < 32
        invariant
            8 <= i <= 32,
            d == as_digits(bytes@),
            forall|j: int| 8 <= j < i ==> d[j] == 0,
        decreases 32 - i,
    {
        if bytes[i] != 0 {
            proof {
                assert(d[i as int] != 0);
                lemma_value_is_zero(d, 256, 8);
                let high = digits_value(d, 256, 8);
                assert(power(256, 8) * high >= power(256, 8)) by (nonlinear_arith)
                    requires
                        high >= 1,
                        power(256, 8) >= 0,
                ;
            }
            return None;
        }
        i += 1;
    }
    let mut word: u64 = 0;
    let mut k: usize = 8;
    while k > 0
        invariant
            k <= 8,
            d == as_digits(bytes@),
            low == d.take(8),
            word == digits_value(low, 256, k as int),
            digits_value(low, 256, 0) < 0x1_0000_0000_0000_0000,
            forall|j: int| 0 <= j < 8 ==> 0 <= #[trigger] low[j] < 256,
        decreases k,
    {
        k -= 1;
        proof {
            lemma_suffix_below_total(low, k as int);
            assert(low[k as int] == bytes[k as int]);
        }
        word = word * 256 + bytes[k] as u64;
    }
    proof {
        assert(power(256, 8) * 0 == 0) by (nonlinear_arith);
    }
    Some(word)
}

/// In radix 256 the digits from a position on spell no more than all the
/// digits do, and 256 times what the digits after the position spell is no
/// more either.
proof fn lemma_suffix_below_total(a: Seq<int>, from: int)
    requires
        0 <= from < a.len(),
        forall|i: int| 0 <= i < a.len() ==> 0 <= #[trigger] a[i] < 256,
    ensures
        0 <= digits_value(a, 256, from + 1),
        a[from] + 256 * digits_value(a, 256, from + 1) == digits_value(a, 256, from),
        digits_value(a, 256, from) <= digits_value(a, 256, 0),
    decreases from,
{
    lemma_value_is_zero(a, 256, from + 1);
    lemma_value_is_zero(a, 256, from);
    if from > 0 {
        lemma_suffix_below_total(a, from - 1);
        lemma_value_is_zero(a, 256, from);
    }
}

} // verus!
