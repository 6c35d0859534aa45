//! The arithmetic model computes Keccak-f[1600]: each transformer, read back
//! as bits, is the bitwise step of the same name.

use vstd::prelude::*;
use crate::arith_helpers::{
    b13_coef, b9_coef, decode_b13, decode_b9, decode_state_b13, decode_state_b9, encode,
    encode_state, in_base, lemma_decode_b13_bit, lemma_decode_b9_bit, lemma_decode_encode,
    state_in_base,
};
use crate::bits::{
    bit, lemma_bit_and, lemma_bit_not, lemma_bit_rotl, lemma_bit_xor, lemma_word_ext,
    lemma_word_from_bits, rotl,
};
use crate::common::{lane_index, lemma_rotation_bound, rotation, round_constant};
use crate::keccak_arith::{
    absorb, add_word, column_sum, decode_state_theta, decode_theta, folded_digit, has_shape,
    iota_b13, iota_b9, lane_b9_to_b13, mixing, permutation, pi, rho, rho_lane, round,
    round_before_iota, rounds, state_b9_to_b13, theta, theta_digit, theta_fits, xi, xi_digit,
};
use crate::plain;

verus! {

/// A lane of a radix is a lane of every larger radix.
pub proof fn lemma_in_base_widens(l: Seq<int>, base: int, wider: int)
    requires
        in_base(l, base),
        base <= wider,
    ensures
        in_base(l, wider),
{
    assert forall|i: int| 0 <= i < 64 implies 0 <= #[trigger] l[i] < wider by {
        assert(0 <= l[i] < base);
    }
}

/// A state of a radix is a state of every larger radix.
pub proof fn lemma_state_in_base_widens(s: Seq<Seq<int>>, base: int, wider: int)
    requires
        state_in_base(s, base),
        base <= wider,
    ensures
        state_in_base(s, wider),
{
    assert forall|k: int| 0 <= k < 25 implies in_base(#[trigger] s[k], wider) by {
        lemma_in_base_widens(s[k], base, wider);
    }
}

/// On a state whose digits are at most 1, but for lane `(0, 0)` whose digits
/// may be 2, no sum of theta reaches the radix: the largest is 12.
pub proof fn lemma_theta_fits(s: Seq<Seq<int>>)
    requires
        state_in_base(s, 3),
        forall|k: int| 1 <= k < 25 ==> in_base(#[trigger] s[k], 2),
    ensures
        theta_fits(s),
{
    assert forall|k: int, i: int| 0 <= k < 25 && 0 <= i < 64 implies 0 <= #[trigger] folded_digit(
        theta(s)[k],
        i,
    ) < 13 by {
        let t = theta(s)[k];
        let x = k / 5;
        assert(t[i] == theta_digit(s, k, i));
        assert(t[64] == theta_digit(s, k, 64));
        assert forall|m: int, j: int| 0 <= m < 25 && 0 <= j < 65 implies 0 <= #[trigger] s[m][j]
            <= (if m == 0 {
            2int
        } else {
            1int
        }) by {
            assert(in_base(s[m], 3));
            if m >= 1 {
                assert(in_base(s[m], 2));
            }
            if j < 64 {
                assert(0 <= s[m][j] < 3);
                if m >= 1 {
                    assert(0 <= s[m][j] < 2);
                }
            }
        }
        let left = (x + 4) % 5;
        let right = (x + 1) % 5;
        assert(0 <= column_sum(s, left, i) <= (if left == 0 {
            6int
        } else {
            5int
        }));
        assert(column_sum(s, left, 64) == 0);
        if i == 0 {
            assert(0 <= column_sum(s, right, 63) <= (if right == 0 {
                6int
            } else {
                5int
            }));
        } else {
            assert(0 <= column_sum(s, right, i - 1) <= (if right == 0 {
                6int
            } else {
                5int
            }));
        }
    }
}

/// The state has the shape of 25 lanes and no lane has an overhang.
pub open spec fn is_flat(s: Seq<Seq<int>>) -> bool {
    &&& has_shape(s)
    &&& forall|k: int| 0 <= k < 25 ==> (#[trigger] s[k])[64] == 0
}

/// The low 64 digits of a lane are between 0 and `max`, and the overhang is 0.
pub open spec fn lane_within(l: Seq<int>, max: int) -> bool {
    in_base(l, max + 1)
}

proof fn lemma_bit_decode_theta(l: Seq<int>, i: int)
    requires
        0 <= i < 64,
    ensures
        bit(decode_theta(l), i) == (folded_digit(l, i) % 2 == 1),
{
    lemma_word_from_bits(Seq::new(64, |j: int| b13_coef(folded_digit(l, j)) == 1), 64, i);
}

proof fn lemma_column_parity_bit(s: Seq<Seq<int>>, x: int, i: int)
    requires
        has_shape(s),
        0 <= x < 5,
        0 <= i < 64,
    ensures
        bit(plain::column_parity(decode_state_b13(s), x), i) == (column_sum(s, x, i) % 2 == 1),
{
    let a = decode_state_b13(s);
    let k0 = lane_index(x, 0);
    lemma_decode_b13_bit(s[k0], i);
    lemma_decode_b13_bit(s[k0 + 1], i);
    lemma_decode_b13_bit(s[k0 + 2], i);
    lemma_decode_b13_bit(s[k0 + 3], i);
    lemma_decode_b13_bit(s[k0 + 4], i);
    let two = a[k0] ^ a[k0 + 1];
    let three = two ^ a[k0 + 2];
    let four = three ^ a[k0 + 3];
    lemma_bit_xor(a[k0], a[k0 + 1], i);
    lemma_bit_xor(two, a[k0 + 2], i);
    lemma_bit_xor(three, a[k0 + 3], i);
    lemma_bit_xor(four, a[k0 + 4], i);
}

proof fn lemma_theta_bit(s: Seq<Seq<int>>, k: int, i: int)
    requires
        is_flat(s),
        0 <= k < 25,
        0 <= i < 64,
    ensures
        bit(decode_theta(theta(s)[k]), i) == bit(plain::theta(decode_state_b13(s))[k], i),
{
    let a = decode_state_b13(s);
    let x = k / 5;
    let left = plain::column_parity(a, (x + 4) % 5);
    let right = plain::column_parity(a, (x + 1) % 5);
    let t = theta(s)[k];
    lemma_bit_decode_theta(t, i);
    lemma_decode_b13_bit(s[k], i);
    lemma_column_parity_bit(s, (x + 4) % 5, i);
    lemma_column_parity_bit(s, (x + 1) % 5, (i + 63) % 64);
    lemma_bit_rotl(right, 1, i);
    lemma_bit_xor(a[k], left, i);
    lemma_bit_xor(a[k] ^ left, rotl(right, 1), i);
    assert(t[i] == theta_digit(s, k, i));
    assert(t[64] == theta_digit(s, k, 64));
    assert(t[0] == theta_digit(s, k, 0));
    assert(column_sum(s, (x + 4) % 5, 64) == 0);
    assert(s[k][64] == 0);
    if i == 0 {
        assert(folded_digit(t, 0) == s[k][0] + column_sum(s, (x + 4) % 5, 0) + column_sum(
            s,
            (x + 1) % 5,
            63,
        ));
    } else {
        assert(folded_digit(t, i) == s[k][i] + column_sum(s, (x + 4) % 5, i) + column_sum(
            s,
            (x + 1) % 5,
            i - 1,
        ));
    }
}

/// Theta of the model is theta on the words of the state.
pub proof fn lemma_theta(s: Seq<Seq<int>>)
    requires
        is_flat(s),
    ensures
        has_shape(theta(s)),
        decode_state_theta(theta(s)) == plain::theta(decode_state_b13(s)),
{
    assert forall|k: int| 0 <= k < 25 implies decode_theta(#[trigger] theta(s)[k]) == plain::theta(
        decode_state_b13(s),
    )[k] by {
        let u = decode_theta(theta(s)[k]);
        let v = plain::theta(decode_state_b13(s))[k];
        assert forall|i: int| 0 <= i < 64 implies bit(u, i) == bit(v, i) by {
            lemma_theta_bit(s, k, i);
        }
        lemma_word_ext(u, v);
    }
    assert(decode_state_theta(theta(s)) =~= plain::theta(decode_state_b13(s)));
}

proof fn lemma_rho_lane(l: Seq<int>, r: int)
    requires
        l.len() == 65,
        0 <= r < 64,
    ensures
        in_base(rho_lane(l, r), 2),
        decode_b13(rho_lane(l, r)) == rotl(decode_theta(l), r),
{
    let out = rho_lane(l, r);
    let u = decode_b13(out);
    let v = rotl(decode_theta(l), r);
    assert forall|j: int| 0 <= j < 64 implies bit(u, j) == bit(v, j) by {
        lemma_decode_b13_bit(out, j);
        lemma_bit_rotl(decode_theta(l), r, j);
        lemma_bit_decode_theta(l, (j + 64 - r) % 64);
    }
    lemma_word_ext(u, v);
}

/// Rho of the model is rho on the words of the state, and leaves binary digits.
pub proof fn lemma_rho(s: Seq<Seq<int>>)
    requires
        has_shape(s),
    ensures
        state_in_base(rho(s), 2),
        decode_state_b13(rho(s)) == plain::rho(decode_state_theta(s)),
{
    assert forall|k: int| 0 <= k < 25 implies in_base(#[trigger] rho(s)[k], 2) && decode_b13(
        rho(s)[k],
    ) == plain::rho(decode_state_theta(s))[k] by {
        lemma_rotation_bound(k / 5, k % 5);
        lemma_rho_lane(s[k], rotation(k / 5, k % 5));
    }
    assert(decode_state_b13(rho(s)) =~= plain::rho(decode_state_theta(s)));
}

/// Pi of the model is pi on the words of the state.
pub proof fn lemma_pi(s: Seq<Seq<int>>, base: int)
    requires
        state_in_base(s, base),
    ensures
        state_in_base(pi(s), base),
        decode_state_b13(pi(s)) == plain::pi(decode_state_b13(s)),
{
    assert forall|k: int| 0 <= k < 25 implies in_base(#[trigger] pi(s)[k], base) by {
        assert(pi(s)[k] == s[plain::pi_source(k)]);
    }
    assert(decode_state_b13(pi(s)) =~= plain::pi(decode_state_b13(s)));
}

proof fn lemma_xi_bit(s: Seq<Seq<int>>, k: int, i: int)
    requires
        state_in_base(s, 2),
        0 <= k < 25,
        0 <= i < 64,
    ensures
        0 <= xi(s)[k][i] <= 6,
        bit(decode_b9(xi(s)[k]), i) == bit(plain::chi(decode_state_b13(s))[k], i),
{
    let a = decode_state_b13(s);
    let k1 = lane_index((k / 5 + 1) % 5, k % 5);
    let k2 = lane_index((k / 5 + 2) % 5, k % 5);
    lemma_decode_b9_bit(xi(s)[k], i);
    lemma_decode_b13_bit(s[k], i);
    lemma_decode_b13_bit(s[k1], i);
    lemma_decode_b13_bit(s[k2], i);
    lemma_bit_not(a[k1], i);
    lemma_bit_and(!a[k1], a[k2], i);
    lemma_bit_xor(a[k], !a[k1] & a[k2], i);
    assert(in_base(s[k], 2) && in_base(s[k1], 2) && in_base(s[k2], 2));
    assert(0 <= s[k][i] < 2 && 0 <= s[k1][i] < 2 && 0 <= s[k2][i] < 2);
    assert(xi(s)[k][i] == xi_digit(s, k, i));
}

/// Xi of the model is chi on the words of the state; its digits stay below 7.
pub proof fn lemma_xi(s: Seq<Seq<int>>)
    requires
        state_in_base(s, 2),
    ensures
        state_in_base(xi(s), 7),
        decode_state_b9(xi(s)) == plain::chi(decode_state_b13(s)),
{
    assert forall|k: int| 0 <= k < 25 implies in_base(#[trigger] xi(s)[k], 7) && decode_b9(
        xi(s)[k],
    ) == plain::chi(decode_state_b13(s))[k] by {
        let u = decode_b9(xi(s)[k]);
        let v = plain::chi(decode_state_b13(s))[k];
        assert forall|i: int| 0 <= i < 64 implies bit(u, i) == bit(v, i) by {
            lemma_xi_bit(s, k, i);
        }
        assert forall|i: int| 0 <= i < 64 implies 0 <= (#[trigger] xi(s)[k][i]) < 7 by {
            lemma_xi_bit(s, k, i);
        }
        lemma_word_ext(u, v);
        let k1 = lane_index((k / 5 + 1) % 5, k % 5);
        let k2 = lane_index((k / 5 + 2) % 5, k % 5);
        assert(in_base(s[k], 2) && in_base(s[k1], 2) && in_base(s[k2], 2));
        assert(xi(s)[k][64] == xi_digit(s, k, 64));
    }
    assert(decode_state_b9(xi(s)) =~= plain::chi(decode_state_b13(s)));
}

/// Adding twice the digits of a word to a base-9 lane mixes the word into
/// the word of the lane.
pub proof fn lemma_add_word_b9(l: Seq<int>, w: u64, max: int)
    requires
        0 <= max,
        lane_within(l, max),
    ensures
        lane_within(add_word(l, 2, w), max + 2),
        decode_b9(add_word(l, 2, w)) == decode_b9(l) ^ w,
{
    let out = add_word(l, 2, w);
    let u = decode_b9(out);
    let v = decode_b9(l) ^ w;
    assert forall|i: int| 0 <= i < 64 implies bit(u, i) == bit(v, i) by {
        lemma_decode_b9_bit(out, i);
        lemma_decode_b9_bit(l, i);
        lemma_bit_xor(decode_b9(l), w, i);
        assert(0 <= l[i] < max + 1);
        assert(out[i] == l[i] + 2 * encode(w)[i]);
    }
    assert forall|i: int| 0 <= i < 64 implies 0 <= (#[trigger] out[i]) < max + 3 by {
        assert(0 <= l[i] < max + 1);
        assert(out[i] == l[i] + 2 * encode(w)[i]);
    }
    lemma_word_ext(u, v);
    assert(out[64] == l[64] + 2 * encode(w)[64]);
}

/// Adding the digits of a word to a base-13 lane mixes the word into the
/// word of the lane.
pub proof fn lemma_add_word_b13(l: Seq<int>, w: u64, max: int)
    requires
        0 <= max,
        lane_within(l, max),
    ensures
        lane_within(add_word(l, 1, w), max + 1),
        decode_b13(add_word(l, 1, w)) == decode_b13(l) ^ w,
{
    let out = add_word(l, 1, w);
    let u = decode_b13(out);
    let v = decode_b13(l) ^ w;
    assert forall|i: int| 0 <= i < 64 implies bit(u, i) == bit(v, i) by {
        lemma_decode_b13_bit(out, i);
        lemma_decode_b13_bit(l, i);
        lemma_bit_xor(decode_b13(l), w, i);
        assert(0 <= l[i] < max + 1);
        assert(out[i] == l[i] + 1 * encode(w)[i]);
    }
    assert forall|i: int| 0 <= i < 64 implies 0 <= (#[trigger] out[i]) < max + 2 by {
        assert(0 <= l[i] < max + 1);
        assert(out[i] == l[i] + 1 * encode(w)[i]);
    }
    lemma_word_ext(u, v);
    assert(out[64] == l[64] + 1 * encode(w)[64]);
}

/// Converting a lane from base 9 to base 13 keeps its word and leaves
/// binary digits.
pub proof fn lemma_lane_b9_to_b13(l: Seq<int>)
    requires
        l.len() == 65,
        l[64] == 0,
    ensures
        in_base(lane_b9_to_b13(l), 2),
        decode_b13(lane_b9_to_b13(l)) == decode_b9(l),
{
    let out = lane_b9_to_b13(l);
    let u = decode_b13(out);
    let v = decode_b9(l);
    assert forall|i: int| 0 <= i < 64 implies bit(u, i) == bit(v, i) by {
        lemma_decode_b13_bit(out, i);
        lemma_decode_b9_bit(l, i);
    }
    lemma_word_ext(u, v);
}

/// Converting a state from base 9 to base 13 keeps its words and leaves
/// binary digits.
pub proof fn lemma_state_b9_to_b13(s: Seq<Seq<int>>)
    requires
        is_flat(s),
    ensures
        state_in_base(state_b9_to_b13(s), 2),
        decode_state_b13(state_b9_to_b13(s)) == decode_state_b9(s),
{
    assert forall|k: int| 0 <= k < 25 implies in_base(#[trigger] state_b9_to_b13(s)[k], 2)
        && decode_b13(state_b9_to_b13(s)[k]) == decode_b9(s[k]) by {
        lemma_lane_b9_to_b13(s[k]);
    }
    assert(decode_state_b13(state_b9_to_b13(s)) =~= decode_state_b9(s));
}

/// Theta, rho, pi and xi of the model are the four bitwise steps; the digits
/// that come out stay below 7.
pub proof fn lemma_round_before_iota(s: Seq<Seq<int>>)
    requires
        is_flat(s),
    ensures
        state_in_base(round_before_iota(s), 7),
        decode_state_b9(round_before_iota(s)) == plain::round_before_iota(decode_state_b13(s)),
{
    lemma_theta(s);
    lemma_rho(theta(s));
    lemma_pi(rho(theta(s)), 2);
    lemma_xi(pi(rho(theta(s))));
}

/// Iota of the model in base 9 is iota on the words of the state.
pub proof fn lemma_iota_b9(s: Seq<Seq<int>>, rc: u64)
    requires
        state_in_base(s, 7),
    ensures
        state_in_base(iota_b9(s, rc), 9),
        decode_state_b9(iota_b9(s, rc)) == plain::iota(decode_state_b9(s), rc),
{
    lemma_add_word_b9(s[0], rc, 6);
    let out = iota_b9(s, rc);
    assert forall|k: int| 0 <= k < 25 implies in_base(#[trigger] out[k], 9) by {
        if k != 0 {
            assert(out[k] == s[k]);
            assert(in_base(s[k], 7));
        }
    }
    assert(decode_state_b9(out) =~= plain::iota(decode_state_b9(s), rc));
}

/// A round of the model is the bitwise round, and leaves binary digits.
pub proof fn lemma_round(s: Seq<Seq<int>>, i: int)
    requires
        is_flat(s),
    ensures
        state_in_base(round(s, i), 2),
        decode_state_b13(round(s, i)) == plain::round(decode_state_b13(s), i),
{
    lemma_round_before_iota(s);
    lemma_iota_b9(round_before_iota(s), round_constant(i));
    let t = iota_b9(round_before_iota(s), round_constant(i));
    assert(is_flat(t)) by {
        assert forall|k: int| 0 <= k < 25 implies (#[trigger] t[k]).len() == 65 && t[k][64]
            == 0 by {
            assert(in_base(t[k], 9));
        }
    }
    lemma_state_b9_to_b13(t);
}

/// A state of binary digits is flat.
pub proof fn lemma_binary_is_flat(s: Seq<Seq<int>>, base: int)
    requires
        state_in_base(s, base),
    ensures
        is_flat(s),
{
    assert forall|k: int| 0 <= k < 25 implies (#[trigger] s[k]).len() == 65 && s[k][64] == 0 by {
        assert(in_base(s[k], base));
    }
}

/// The first `n` rounds of the model are the first `n` bitwise rounds, for
/// every `n`.
pub proof fn lemma_rounds(s: Seq<Seq<int>>, n: int)
    requires
        is_flat(s),
        0 <= n,
    ensures
        is_flat(rounds(s, n)),
        n > 0 ==> state_in_base(rounds(s, n), 2),
        decode_state_b13(rounds(s, n)) == plain::rounds(decode_state_b13(s), n),
    decreases n,
{
    if n > 0 {
        lemma_rounds(s, n - 1);
        lemma_round(rounds(s, n - 1), n - 1);
        lemma_binary_is_flat(rounds(s, n), 2);
    }
}

/// A state of binary digits is the encoding of its words.
pub proof fn lemma_binary_state_is_encoding(s: Seq<Seq<int>>)
    requires
        state_in_base(s, 2),
    ensures
        s == encode_state(decode_state_b13(s)),
{
    assert forall|k: int| 0 <= k < 25 implies s[k] == encode_state(decode_state_b13(s))[k] by {
        assert(in_base(s[k], 2));
        crate::arith_helpers::lemma_encode_decode(s[k]);
    }
    assert(s =~= encode_state(decode_state_b13(s)));
}

/// The words of an encoded state are the words that were encoded.
pub proof fn lemma_decode_encode_state(a: Seq<u64>)
    requires
        a.len() == 25,
    ensures
        state_in_base(encode_state(a), 2),
        decode_state_b13(encode_state(a)) == a,
{
    assert forall|k: int| 0 <= k < 25 implies in_base(#[trigger] encode_state(a)[k], 2)
        && decode_b13(encode_state(a)[k]) == a[k] by {
        lemma_decode_encode(a[k]);
    }
    assert(decode_state_b13(encode_state(a)) =~= a);
}

/// Keccak-f, round by round: on the encoding of any 25 words, the first `n`
/// rounds of the model give the encoding of the first `n` bitwise rounds.
pub proof fn lemma_rounds_on_words(a: Seq<u64>, n: int)
    requires
        a.len() == 25,
        0 <= n,
    ensures
        rounds(encode_state(a), n) == encode_state(plain::rounds(a, n)),
{
    lemma_decode_encode_state(a);
    lemma_binary_is_flat(encode_state(a), 2);
    lemma_rounds(encode_state(a), n);
    if n > 0 {
        lemma_binary_state_is_encoding(rounds(encode_state(a), n));
    }
}

/// Finalize: without the flag the permutation is the 24th round completed
/// with its deferred iota, whatever the next block holds, and its output is
/// the encoding of Keccak-f of the words of the input.
pub proof fn lemma_finalize(s: Seq<Seq<int>>, next: Seq<Option<u64>>)
    requires
        is_flat(s),
    ensures
        permutation(s, false, next) == rounds(s, 24),
        permutation(s, false, next) == encode_state(plain::keccak_f(decode_state_b13(s))),
{
    assert(rounds(s, 24) == round(rounds(s, 23), 23));
    lemma_rounds(s, 24);
    lemma_binary_state_is_encoding(rounds(s, 24));
}

/// Absorbing a next block in base 9 mixes its words into the words of the
/// state.
pub proof fn lemma_absorb_b9(s: Seq<Seq<int>>, next: Seq<Option<u64>>)
    requires
        state_in_base(s, 7),
    ensures
        state_in_base(absorb(s, next), 9),
        decode_state_b9(absorb(s, next)) == plain::absorb(decode_state_b9(s), next),
{
    let out = absorb(s, next);
    assert forall|k: int| 0 <= k < 25 implies in_base(#[trigger] out[k], 9) && decode_b9(out[k])
        == plain::absorb(decode_state_b9(s), next)[k] by {
        assert(in_base(s[k], 7));
        if k < next.len() && next[k] is Some {
            lemma_add_word_b9(s[k], next[k]->0, 6);
        }
    }
    assert(decode_state_b9(out) =~= plain::absorb(decode_state_b9(s), next));
}

/// Iota of the model in base 13 is iota on the words of the state; only
/// lane `(0, 0)` changes, and its digits stay below 3.
pub proof fn lemma_iota_b13(s: Seq<Seq<int>>, rc: u64)
    requires
        state_in_base(s, 2),
    ensures
        state_in_base(iota_b13(s, rc), 3),
        decode_state_b13(iota_b13(s, rc)) == plain::iota(decode_state_b13(s), rc),
        forall|k: int| 1 <= k < 25 ==> #[trigger] iota_b13(s, rc)[k] == s[k],
{
    lemma_add_word_b13(s[0], rc, 1);
    let out = iota_b13(s, rc);
    assert forall|k: int| 0 <= k < 25 implies in_base(#[trigger] out[k], 3) by {
        if k != 0 {
            assert(out[k] == s[k]);
            assert(in_base(s[k], 2));
        }
    }
    assert(decode_state_b13(out) =~= plain::iota(decode_state_b13(s), rc));
}

/// Mixing a block in and then a constant gives the same words as the
/// constant first and the block second.
pub proof fn lemma_iota_absorb_commute(a: Seq<u64>, next: Seq<Option<u64>>, rc: u64)
    requires
        a.len() == 25,
    ensures
        plain::iota(plain::absorb(a, next), rc) == plain::absorb(plain::iota(a, rc), next),
{
    if 0 < next.len() && next[0] is Some {
        crate::bits::lemma_xor_swap(a[0], next[0]->0, rc);
    }
    assert(plain::iota(plain::absorb(a, next), rc) =~= plain::absorb(plain::iota(a, rc), next));
}

/// The mixing gate, read back as words: the deferred iota, after the next
/// block was absorbed if the flag is set.
pub proof fn lemma_mixing(s: Seq<Seq<int>>, flag: bool, next: Seq<Option<u64>>, rc: u64)
    requires
        state_in_base(s, 7),
    ensures
        state_in_base(mixing(s, flag, next, rc), 3),
        !flag ==> state_in_base(mixing(s, flag, next, rc), 2),
        decode_state_b13(mixing(s, flag, next, rc)) == plain::iota(
            if flag {
                plain::absorb(decode_state_b9(s), next)
            } else {
                decode_state_b9(s)
            },
            rc,
        ),
{
    if flag {
        lemma_absorb_b9(s, next);
        lemma_binary_is_flat(absorb(s, next), 9);
        lemma_state_b9_to_b13(absorb(s, next));
        lemma_iota_b13(state_b9_to_b13(absorb(s, next)), rc);
    } else {
        lemma_iota_b9(s, rc);
        lemma_binary_is_flat(iota_b9(s, rc), 9);
        lemma_state_b9_to_b13(iota_b9(s, rc));
        let out = mixing(s, flag, next, rc);
        assert forall|k: int| 0 <= k < 25 implies in_base(#[trigger] out[k], 3) by {
            assert(in_base(out[k], 2));
        }
    }
}

/// With the flag, a lane other than `(0, 0)` that receives no lane of the
/// next block has the digits it would have without the flag.
pub proof fn lemma_absorb_leaves_other_lanes(
    s: Seq<Seq<int>>,
    next: Seq<Option<u64>>,
    rc: u64,
    k: int,
)
    requires
        state_in_base(s, 7),
        1 <= k < 25,
        !(k < next.len() && next[k] is Some),
    ensures
        mixing(s, true, next, rc)[k] == mixing(s, false, next, rc)[k],
{
    assert(absorb(s, next)[k] == s[k]);
    assert(iota_b9(s, rc)[k] == s[k]);
}

/// Absorb: with the flag the words of the output are the words of the
/// finalized output with the next block mixed into the lanes at its
/// positions; every other lane stands for the word it would stand for
/// without the flag.
pub proof fn lemma_absorb(s: Seq<Seq<int>>, next: Seq<Option<u64>>)
    requires
        is_flat(s),
    ensures
        state_in_base(permutation(s, true, next), 3),
        decode_state_b13(permutation(s, true, next)) == plain::absorb(
            decode_state_b13(permutation(s, false, next)),
            next,
        ),
        decode_state_b13(permutation(s, true, next)) == plain::absorb(
            plain::keccak_f(decode_state_b13(s)),
            next,
        ),
{
    let rc = round_constant(23);
    lemma_rounds(s, 23);
    let x = round_before_iota(rounds(s, 23));
    lemma_round_before_iota(rounds(s, 23));
    lemma_mixing(x, true, next, rc);
    lemma_mixing(x, false, next, rc);
    lemma_iota_absorb_commute(decode_state_b9(x), next, rc);
    lemma_finalize(s, next);
    lemma_decode_encode_state(plain::keccak_f(decode_state_b13(s)));
    plain::lemma_rounds_len(decode_state_b13(s), 24);
}

/// With the flag every lane of the output but `(0, 0)` has binary digits,
/// and lane `(0, 0)` has digits up to 2: the constant of the last round is
/// added to it after the conversion.
pub proof fn lemma_absorbed_output_digits(s: Seq<Seq<int>>, next: Seq<Option<u64>>)
    requires
        is_flat(s),
    ensures
        state_in_base(permutation(s, true, next), 3),
        forall|k: int| 1 <= k < 25 ==> in_base(#[trigger] permutation(s, true, next)[k], 2),
{
    let rc = round_constant(23);
    lemma_rounds(s, 23);
    let x = round_before_iota(rounds(s, 23));
    lemma_round_before_iota(rounds(s, 23));
    lemma_absorb_b9(x, next);
    lemma_binary_is_flat(absorb(x, next), 9);
    let cv = state_b9_to_b13(absorb(x, next));
    lemma_state_b9_to_b13(absorb(x, next));
    lemma_iota_b13(cv, rc);
    assert forall|k: int| 1 <= k < 25 implies in_base(
        #[trigger] permutation(s, true, next)[k],
        2,
    ) by {
        assert(iota_b13(cv, rc)[k] == cv[k]);
        assert(in_base(cv[k], 2));
    }
}

/// With the flag, a lane other than `(0, 0)` that receives no lane of the
/// next block comes out with the digits it has without the flag.
pub proof fn lemma_absorb_spares_lane(s: Seq<Seq<int>>, next: Seq<Option<u64>>, k: int)
    requires
        is_flat(s),
        1 <= k < 25,
        !(k < next.len() && next[k] is Some),
    ensures
        permutation(s, true, next)[k] == permutation(s, false, next)[k],
{
    lemma_rounds(s, 23);
    lemma_round_before_iota(rounds(s, 23));
    lemma_absorb_leaves_other_lanes(
        round_before_iota(rounds(s, 23)),
        next,
        round_constant(23),
        k,
    );
}

/// The chi accumulation is exhaustive: for bits `a`, `b`, `c` and `d`, the
/// base-9 digit `2a + b + 3c + 2d` is a digit of the radix and stands for
/// `a ^ (!b & c) ^ d`.
pub proof fn lemma_b9_coef_is_chi(a: bool, b: bool, c: bool, d: bool)
    ensures
        0 <= digit_of_bits(a, b, c, d) < 9,
        (b9_coef(digit_of_bits(a, b, c, d)) == 1) == ((a != (!b && c)) != d),
{
}

/// The base-9 digit that xi, iota and absorb accumulate for the bits `a`,
/// `b`, `c` of three lanes of a row and the bit `d` of a constant or of an
/// absorbed lane.
pub open spec fn digit_of_bits(a: bool, b: bool, c: bool, d: bool) -> int {
    2 * (if a {
        1int
    } else {
        0int
    }) + (if b {
        1int
    } else {
        0int
    }) + 3 * (if c {
        1int
    } else {
        0int
    }) + 2 * (if d {
        1int
    } else {
        0int
    })
}

/// Digit round trip. A base-13 digit goes to base 9 as its bit; taken at
/// the weight that xi gives to the lane itself, that base-9 digit comes
/// back to base 13 as the same bit, which is its own parity.
pub proof fn lemma_digit_round_trip(d: int)
    requires
        0 <= d < 13,
    ensures
        0 <= b13_coef(d) <= 1,
        0 <= 2 * b13_coef(d) < 9,
        b9_coef(2 * b13_coef(d)) == b13_coef(d),
        b13_coef(b9_coef(2 * b13_coef(d))) == b13_coef(d),
{
}

/// Digit round trip without a weight: a base-13 digit that stands for the
/// bit 0 comes back from base 9 as the bit 0. One that stands for the bit 1
/// does not come back: alone, the base-9 digit 1 stands for the bit 0.
pub proof fn lemma_digit_round_trip_of_zero(d: int)
    requires
        0 <= d < 13,
        b13_coef(d) == 0,
    ensures
        b13_coef(b9_coef(b13_coef(d))) == b13_coef(d),
        b9_coef(1) == 0,
{
}

/// Lane round trip. The encoding of a word, taken from base 13 to base 9
/// without rotation, weighted as xi weights the lane itself, and taken back
/// to base 13, is the encoding of the word again, and decodes to the word.
pub proof fn lemma_lane_round_trip(w: u64)
    ensures
        rho_lane(encode(w), 0) == encode(w),
        lane_b9_to_b13(add_word(encode(0), 2, w)) == encode(w),
        decode_b13(lane_b9_to_b13(add_word(encode(0), 2, w))) == w,
{
    lemma_decode_encode(w);
    lemma_decode_encode(0);
    let l = encode(w);
    assert forall|j: int| 0 <= j < 65 implies rho_lane(l, 0)[j] == l[j] by {
        if j < 64 {
            assert((j + 64 - 0) % 64 == j);
            assert(0 <= l[j] < 2);
        }
    }
    assert(rho_lane(l, 0) =~= l);
    let back = lane_b9_to_b13(add_word(encode(0), 2, w));
    assert forall|j: int| 0 <= j < 65 implies back[j] == l[j] by {
        assert(add_word(encode(0), 2, w)[j] == encode(0)[j] + 2 * l[j]);
        if j < 64 {
            crate::bits::lemma_bit_zero(j);
        }
    }
    assert(back =~= l);
}

} // verus!
