//! The arithmetic model of the permutation: what each transformer does to the
//! digits of the lanes.
//!
//! Every step is a sum of digits with small weights or a digit-by-digit
//! conversion, so no step ever carries from one digit into the next.

use vstd::prelude::*;
use crate::arith_helpers::{b13_coef, b9_coef, encode};
use crate::bits::word_from_bits;
use crate::common::{lane_index, rotation, round_constant};
use crate::plain::pi_source;

verus! {

/// The digits of a state have the shape of 25 lanes of 65 digits.
pub open spec fn has_shape(s: Seq<Seq<int>>) -> bool {
    &&& s.len() == 25
    &&& forall|k: int| 0 <= k < 25 ==> (#[trigger] s[k]).len() == 65
}

/// Sum of digit `i` over the five lanes of column `x`.
pub open spec fn column_sum(s: Seq<Seq<int>>, x: int, i: int) -> int {
    s[lane_index(x, 0)][i] + s[lane_index(x, 1)][i] + s[lane_index(x, 2)][i] + s[lane_index(
        x,
        3,
    )][i] + s[lane_index(x, 4)][i]
}

/// Digit `i` of lane `k` after theta: the lane itself, plus the column to its
/// left, plus the column to its right moved up by one digit.
pub open spec fn theta_digit(s: Seq<Seq<int>>, k: int, i: int) -> int {
    s[k][i] + column_sum(s, (k / 5 + 4) % 5, i) + if i >= 1 {
        column_sum(s, (k / 5 + 1) % 5, i - 1)
    } else {
        0
    }
}

/// Theta in base 13. As scalars, each lane becomes
/// `lane + left column + 13 * right column`.
pub open spec fn theta(s: Seq<Seq<int>>) -> Seq<Seq<int>> {
    Seq::new(25, |k: int| Seq::new(65, |i: int| theta_digit(s, k, i)))
}

/// Digit `i` of a lane after the overhang digit is folded back onto digit 0.
pub open spec fn folded_digit(l: Seq<int>, i: int) -> int {
    if i == 0 {
        l[0] + l[64]
    } else {
        l[i]
    }
}

/// A lane rotated left by `r` digits and converted from base 13 to base 9:
/// digit `j` is the bit of the folded digit `j - r` (modulo 64).
pub open spec fn rho_lane(l: Seq<int>, r: int) -> Seq<int> {
    Seq::new(
        65,
        |j: int|
            if 0 <= j < 64 {
                b13_coef(folded_digit(l, (j + 64 - r) % 64))
            } else {
                0
            },
    )
}

/// Rho: every lane is rotated by its offset and leaves base 13 for base 9.
pub open spec fn rho(s: Seq<Seq<int>>) -> Seq<Seq<int>> {
    Seq::new(25, |k: int| rho_lane(s[k], rotation(k / 5, k % 5)))
}

/// Pi: the lane at `(x, y)` moves to `(y, 2x + 3y mod 5)`.
pub open spec fn pi(s: Seq<Seq<int>>) -> Seq<Seq<int>> {
    Seq::new(25, |k: int| s[pi_source(k)])
}

/// Digit `i` of lane `k` after xi: `2a + b + 3c` for the lane and the next
/// two lanes of its row.
pub open spec fn xi_digit(s: Seq<Seq<int>>, k: int, i: int) -> int {
    2 * s[k][i] + s[lane_index((k / 5 + 1) % 5, k % 5)][i] + 3 * s[lane_index(
        (k / 5 + 2) % 5,
        k % 5,
    )][i]
}

/// Xi in base 9.
pub open spec fn xi(s: Seq<Seq<int>>) -> Seq<Seq<int>> {
    Seq::new(25, |k: int| Seq::new(65, |i: int| xi_digit(s, k, i)))
}

/// A lane plus `weight` times the digits of the word `w`.
pub open spec fn add_word(l: Seq<int>, weight: int, w: u64) -> Seq<int> {
    Seq::new(65, |i: int| l[i] + weight * encode(w)[i])
}

/// Iota in base 9: twice the digits of `rc` are added to lane `(0, 0)`.
pub open spec fn iota_b9(s: Seq<Seq<int>>, rc: u64) -> Seq<Seq<int>> {
    s.update(0, add_word(s[0], 2, rc))
}

/// Iota in base 13: the digits of `rc` are added to lane `(0, 0)`.
pub open spec fn iota_b13(s: Seq<Seq<int>>, rc: u64) -> Seq<Seq<int>> {
    s.update(0, add_word(s[0], 1, rc))
}

/// A lane converted digit by digit from base 9 to base 13.
pub open spec fn lane_b9_to_b13(l: Seq<int>) -> Seq<int> {
    Seq::new(65, |i: int| b9_coef(l[i]))
}

/// A state converted digit by digit from base 9 to base 13.
pub open spec fn state_b9_to_b13(s: Seq<Seq<int>>) -> Seq<Seq<int>> {
    Seq::new(25, |k: int| lane_b9_to_b13(s[k]))
}

/// Absorb in base 9: twice the digits of each lane of the next block that is
/// present are added to the lane at the same position.
pub open spec fn absorb(s: Seq<Seq<int>>, next: Seq<Option<u64>>) -> Seq<Seq<int>> {
    Seq::new(
        25,
        |k: int|
            if k < next.len() && next[k] is Some {
                add_word(s[k], 2, next[k]->0)
            } else {
                s[k]
            },
    )
}

/// The mixing gate on the output of the last round's xi. Without the flag the
/// deferred iota is applied and the state converted to base 13. With it the
/// next block is absorbed first, and iota is applied after the conversion.
pub open spec fn mixing(s: Seq<Seq<int>>, flag: bool, next: Seq<Option<u64>>, rc: u64) -> Seq<
    Seq<int>,
> {
    if flag {
        iota_b13(state_b9_to_b13(absorb(s, next)), rc)
    } else {
        state_b9_to_b13(iota_b9(s, rc))
    }
}

/// Theta, rho, pi and xi in sequence: base 13 in, base 9 out.
pub open spec fn round_before_iota(s: Seq<Seq<int>>) -> Seq<Seq<int>> {
    xi(pi(rho(theta(s))))
}

/// Round `i` for `i < 23`: the four steps, iota in base 9, and the
/// conversion back to base 13.
pub open spec fn round(s: Seq<Seq<int>>, i: int) -> Seq<Seq<int>> {
    state_b9_to_b13(iota_b9(round_before_iota(s), round_constant(i)))
}

/// The first `n` rounds.
pub open spec fn rounds(s: Seq<Seq<int>>, n: int) -> Seq<Seq<int>>
    decreases n,
{
    if n <= 0 {
        s
    } else {
        round(rounds(s, n - 1), n - 1)
    }
}

/// The whole permutation: 23 rounds, the four steps of the last round, and
/// the mixing gate with the last round constant.
pub open spec fn permutation(s: Seq<Seq<int>>, flag: bool, next: Seq<Option<u64>>) -> Seq<
    Seq<int>,
> {
    mixing(round_before_iota(rounds(s, 23)), flag, next, round_constant(23))
}

/// After theta, every folded digit of every lane is still a base-13 digit:
/// no sum has reached the radix.
pub open spec fn theta_fits(s: Seq<Seq<int>>) -> bool {
    forall|k: int, i: int|
        0 <= k < 25 && 0 <= i < 64 ==> 0 <= #[trigger] folded_digit(theta(s)[k], i) < 13
}

/// The word that a lane stands for between theta and rho.
pub open spec fn decode_theta(l: Seq<int>) -> u64 {
    word_from_bits(Seq::new(64, |i: int| b13_coef(folded_digit(l, i)) == 1), 64)
}

/// The words that the lanes of a state stand for between theta and rho.
pub open spec fn decode_state_theta(s: Seq<Seq<int>>) -> Seq<u64> {
    Seq::new(25, |k: int| decode_theta(s[k]))
}

} // verus!
