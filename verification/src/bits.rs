//! Bit-level view of 64-bit words: the vocabulary in which the digit encodings
//! and the bitwise reference permutation are compared.

use vstd::prelude::*;

verus! {

/// Bit `i` of `w`, for `0 <= i < 64`.
pub open spec fn bit(w: u64, i: int) -> bool {
    (w >> (i as u64)) & 1u64 == 1u64
}

/// `w` rotated left by `r` positions, for `0 <= r < 64`.
pub open spec fn rotl(w: u64, r: int) -> u64 {
    if r <= 0 || r >= 64 {
        w
    } else {
        (w << (r as u64)) | (w >> ((64 - r) as u64))
    }
}

/// The word whose bits `0..n` are `bits[0..n]` and whose higher bits are clear.
pub open spec fn word_from_bits(bits: Seq<bool>, n: int) -> u64
    decreases n,
{
    if n <= 0 {
        0u64
    } else if bits[n - 1] {
        word_from_bits(bits, n - 1) | (1u64 << ((n - 1) as u64))
    } else {
        word_from_bits(bits, n - 1)
    }
}

proof fn lemma_bv_xor(a: u64, b: u64, i: u64)
    by (bit_vector)
    requires
        i < 64,
    ensures
        (((a ^ b) >> i) & 1u64 == 1u64) == (((a >> i) & 1u64 == 1u64) != ((b >> i) & 1u64 == 1u64)),
{
}

proof fn lemma_bv_and(a: u64, b: u64, i: u64)
    by (bit_vector)
    requires
        i < 64,
    ensures
        (((a & b) >> i) & 1u64 == 1u64) == (((a >> i) & 1u64 == 1u64) && ((b >> i) & 1u64 == 1u64)),
{
}

proof fn lemma_bv_not(a: u64, i: u64)
    by (bit_vector)
    requires
        i < 64,
    ensures
        (((!a) >> i) & 1u64 == 1u64) == !((a >> i) & 1u64 == 1u64),
{
}

proof fn lemma_bv_rotl(w: u64, r: u64, c: u64, i: u64, j: u64)
    by (bit_vector)
    requires
        0 < r < 64,
        c == 64 - r,
        i < 64,
        j == (i + 64 - r) % 64,
    ensures
        ((((w << r) | (w >> c)) >> i) & 1u64 == 1u64) == ((w >> j) & 1u64 == 1u64),
{
}

proof fn lemma_bv_set(w: u64, k: u64, i: u64)
    by (bit_vector)
    requires
        k < 64,
        i < 64,
    ensures
        (((w | (1u64 << k)) >> i) & 1u64 == 1u64) == (i == k || ((w >> i) & 1u64 == 1u64)),
{
}

proof fn lemma_bv_zero(i: u64)
    by (bit_vector)
    requires
        i < 64,
    ensures
        !((0u64 >> i) & 1u64 == 1u64),
{
}

proof fn lemma_bv_low_step(a: u64, b: u64, n: u64, m: u64)
    by (bit_vector)
    requires
        n < 64,
        m == n + 1,
        ((a ^ b) >> n) << n == (a ^ b),
        ((a >> n) & 1u64 == 1u64) == ((b >> n) & 1u64 == 1u64),
    ensures
        n < 63 ==> ((a ^ b) >> m) << m == (a ^ b),
        n == 63 ==> a == b,
{
}

proof fn lemma_bv_low_zero(a: u64, b: u64)
    by (bit_vector)
    ensures
        ((a ^ b) >> 0u64) << 0u64 == (a ^ b),
{
}

/// The order in which two words are mixed into a third does not matter.
pub proof fn lemma_xor_swap(a: u64, b: u64, c: u64)
    by (bit_vector)
    ensures
        (a ^ b) ^ c == (a ^ c) ^ b,
{
}

/// The word 0 has no bit set.
pub proof fn lemma_bit_zero(i: int)
    requires
        0 <= i < 64,
    ensures
        !bit(0, i),
{
    lemma_bv_zero(i as u64);
}

/// Bit `i` of an exclusive or is the exclusive or of the two bits.
pub proof fn lemma_bit_xor(a: u64, b: u64, i: int)
    requires
        0 <= i < 64,
    ensures
        bit(a ^ b, i) == (bit(a, i) != bit(b, i)),
{
    lemma_bv_xor(a, b, i as u64);
}

/// Bit `i` of a conjunction is the conjunction of the two bits.
pub proof fn lemma_bit_and(a: u64, b: u64, i: int)
    requires
        0 <= i < 64,
    ensures
        bit(a & b, i) == (bit(a, i) && bit(b, i)),
{
    lemma_bv_and(a, b, i as u64);
}

/// Bit `i` of a complement is the negated bit.
pub proof fn lemma_bit_not(a: u64, i: int)
    requires
        0 <= i < 64,
    ensures
        bit(!a, i) == !bit(a, i),
{
    lemma_bv_not(a, i as u64);
}

/// Rotating left by `r` moves bit `i - r` (modulo 64) to position `i`.
pub proof fn lemma_bit_rotl(w: u64, r: int, i: int)
    requires
        0 <= r < 64,
        0 <= i < 64,
    ensures
        bit(rotl(w, r), i) == bit(w, (i + 64 - r) % 64),
{
    if r > 0 {
        lemma_bv_rotl(w, r as u64, (64 - r) as u64, i as u64, ((i + 64 - r) % 64) as u64);
    }
}

/// The bits of `word_from_bits(bits, n)` are `bits[i]` below `n` and clear above.
pub proof fn lemma_word_from_bits(bits: Seq<bool>, n: int, i: int)
    requires
        0 <= n <= 64,
        0 <= i < 64,
    ensures
        bit(word_from_bits(bits, n), i) == (i < n && bits[i]),
    decreases n,
{
    if n <= 0 {
        lemma_bv_zero(i as u64);
    } else {
        lemma_word_from_bits(bits, n - 1, i);
        if bits[n - 1] {
            lemma_bv_set(word_from_bits(bits, n - 1), (n - 1) as u64, i as u64);
        }
    }
}

proof fn lemma_low_bits_agree(a: u64, b: u64, n: int)
    requires
        0 <= n < 64,
        forall|i: int| 0 <= i < 64 ==> bit(a, i) == bit(b, i),
    ensures
        ((a ^ b) >> (n as u64)) << (n as u64) == (a ^ b),
    decreases n,
{
    if n == 0 {
        lemma_bv_low_zero(a, b);
    } else {
        lemma_low_bits_agree(a, b, n - 1);
        assert(bit(a, n - 1) == bit(b, n - 1));
        lemma_bv_low_step(a, b, (n - 1) as u64, n as u64);
    }
}

/// Two words with the same 64 bits are equal.
pub proof fn lemma_word_ext(a: u64, b: u64)
    requires
        forall|i: int| 0 <= i < 64 ==> bit(a, i) == bit(b, i),
    ensures
        a == b,
{
    lemma_low_bits_agree(a, b, 63);
    assert(bit(a, 63) == bit(b, 63));
    lemma_bv_low_step(a, b, 63u64, 64u64);
}

/// `w` rotated left by `r` positions.
pub fn rotate_left(w: u64, r: u32) -> (out: u64)
    requires
        r < 64,
    ensures
        out == rotl(w, r as int),
{
    if r == 0 {
        w
    } else {
        (w << r) | (w >> (64 - r))
    }
}

/// Whether bit `i` of `w` is set.
pub fn test_bit(w: u64, i: usize) -> (b: bool)
    requires
        i < 64,
    ensures
        b == bit(w, i as int),
{
    (w >> i) & 1u64 == 1u64
}

} // verus!
