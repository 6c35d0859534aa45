//! The bitwise Keccak-f[1600] permutation on 64-bit lanes: the reference that
//! the digit-encoded engine is measured against.
//!
//! A state is 25 lanes; lane `(x, y)` sits at flat position `5 * x + y`.

use vstd::prelude::*;
use crate::bits::{rotate_left, rotl};
use crate::common::{lane_index, rotation, rotation_of, round_constant, round_constant_of};

verus! {

/// Exclusive or of the five lanes of column `x`.
pub open spec fn column_parity(a: Seq<u64>, x: int) -> u64 {
    a[lane_index(x, 0)] ^ a[lane_index(x, 1)] ^ a[lane_index(x, 2)] ^ a[lane_index(x, 3)]
        ^ a[lane_index(x, 4)]
}

/// Lane `(x, y)` after theta.
pub open spec fn theta_lane(a: Seq<u64>, x: int, y: int) -> u64 {
    a[lane_index(x, y)] ^ column_parity(a, (x + 4) % 5) ^ rotl(column_parity(a, (x + 1) % 5), 1)
}

/// Theta: every lane absorbs the parity of the column to its left and of the
/// column to its right rotated by one bit.
pub open spec fn theta(a: Seq<u64>) -> Seq<u64> {
    Seq::new(25, |k: int| theta_lane(a, k / 5, k % 5))
}

/// Rho: every lane is rotated by its fixed offset.
pub open spec fn rho(a: Seq<u64>) -> Seq<u64> {
    Seq::new(25, |k: int| rotl(a[k], rotation(k / 5, k % 5)))
}

/// Flat position of the lane that pi moves to flat position `k`.
pub open spec fn pi_source(k: int) -> int {
    lane_index((k / 5 + 3 * (k % 5)) % 5, k / 5)
}

/// Pi: the lane at `(x, y)` moves to `(y, 2x + 3y mod 5)`.
pub open spec fn pi(a: Seq<u64>) -> Seq<u64> {
    Seq::new(25, |k: int| a[pi_source(k)])
}

/// Lane `(x, y)` after chi.
pub open spec fn chi_lane(a: Seq<u64>, x: int, y: int) -> u64 {
    a[lane_index(x, y)] ^ (!a[lane_index((x + 1) % 5, y)] & a[lane_index((x + 2) % 5, y)])
}

/// Chi: the nonlinear step `a ^ (!b & c)` along each row.
pub open spec fn chi(a: Seq<u64>) -> Seq<u64> {
    Seq::new(25, |k: int| chi_lane(a, k / 5, k % 5))
}

/// Iota: the constant `rc` is mixed into lane `(0, 0)`.
pub open spec fn iota(a: Seq<u64>, rc: u64) -> Seq<u64> {
    a.update(0, a[0] ^ rc)
}

/// Theta, rho, pi and chi in sequence: a round without its iota.
pub open spec fn round_before_iota(a: Seq<u64>) -> Seq<u64> {
    chi(pi(rho(theta(a))))
}

/// Round `i` of the permutation.
pub open spec fn round(a: Seq<u64>, i: int) -> Seq<u64> {
    iota(round_before_iota(a), round_constant(i))
}

/// The first `n` rounds of the permutation.
pub open spec fn rounds(a: Seq<u64>, n: int) -> Seq<u64>
    decreases n,
{
    if n <= 0 {
        a
    } else {
        round(rounds(a, n - 1), n - 1)
    }
}

/// Keccak-f[1600]: all 24 rounds.
pub open spec fn keccak_f(a: Seq<u64>) -> Seq<u64> {
    rounds(a, 24)
}

/// The next block mixed into the first lanes of the state; an absent lane
/// leaves its position untouched.
pub open spec fn absorb(a: Seq<u64>, next: Seq<Option<u64>>) -> Seq<u64> {
    Seq::new(
        25,
        |k: int|
            if k < next.len() && next[k] is Some {
                a[k] ^ next[k]->0
            } else {
                a[k]
            },
    )
}

/// Every intermediate state of the permutation has 25 lanes.
pub proof fn lemma_rounds_len(a: Seq<u64>, n: int)
    requires
        a.len() == 25,
    ensures
        rounds(a, n).len() == 25,
    decreases n,
{
    if n > 0 {
        lemma_rounds_len(a, n - 1);
    }
}

/// Pi is a permutation of the lane positions: the source of every position
/// is a position, and the lane of `(x, y)` arrives at `(y, 2x + 3y mod 5)`.
pub proof fn lemma_pi_moves(x: int, y: int)
    requires
        0 <= x < 5,
        0 <= y < 5,
    ensures
        pi_source(lane_index(y, (2 * x + 3 * y) % 5)) == lane_index(x, y),
{
}

fn column_parity_exec(a: &[u64; 25], x: usize) -> (c: u64)
    requires
        x < 5,
    ensures
        c == column_parity(a@, x as int),
{
    a[5 * x] ^ a[5 * x + 1] ^ a[5 * x + 2] ^ a[5 * x + 3] ^ a[5 * x + 4]
}

/// Theta on a state of 25 lanes.
pub fn theta_step(a: &[u64; 25]) -> (out: [u64; 25])
    ensures
        out@ == theta(a@),
{
    let mut out: [u64; 25] = [0u64;25];
    let mut k: usize = 0;
    while k < 25
        invariant
            k <= 25,
            forall|j: int| 0 <= j < k ==> out[j] == theta_lane(a@, j / 5, j % 5),
        decreases 25 - k,
    {
        let x: usize = k / 5;
        let c_prev: u64 = column_parity_exec(a, (x + 4) % 5);
        let c_next: u64 = column_parity_exec(a, (x + 1) % 5);
        out[k] = a[k] ^ c_prev ^ rotate_left(c_next, 1);
        k += 1;
    }
    assert(out@ =~= theta(a@));
    out
}

/// Rho on a state of 25 lanes.
pub fn rho_step(a: &[u64; 25]) -> (out: [u64; 25])
    ensures
        out@ == rho(a@),
{
    let mut out: [u64; 25] = [0u64;25];
    let mut k: usize = 0;
    while k < 25
        invariant
            k <= 25,
            forall|j: int| 0 <= j < k ==> out[j] == rotl(a[j], rotation(j / 5, j % 5)),
        decreases 25 - k,
    {
        out[k] = rotate_left(a[k], rotation_of(k));
        k += 1;
    }
    assert(out@ =~= rho(a@));
    out
}

/// Pi on a state of 25 lanes.
pub fn pi_step(a: &[u64; 25]) -> (out: [u64; 25])
    ensures
        out@ == pi(a@),
{
    let mut out: [u64; 25] = [0u64;25];
    let mut k: usize = 0;
    while k < 25
        invariant
            k <= 25,
            forall|j: int| 0 <= j < k ==> out[j] == a[pi_source(j)],
        decreases 25 - k,
    {
        let x: usize = k / 5;
        let y: usize = k % 5;
        out[k] = a[5 * ((x + 3 * y) % 5) + x];
        k += 1;
    }
    assert(out@ =~= pi(a@));
    out
}

/// Chi on a state of 25 lanes.
pub fn chi_step(a: &[u64; 25]) -> (out: [u64; 25])
    ensures
        out@ == chi(a@),
{
    let mut out: [u64; 25] = [0u64;25];
    let mut k: usize = 0;
    while k < 25
        invariant
            k <= 25,
            forall|j: int| 0 <= j < k ==> out[j] == chi_lane(a@, j / 5, j % 5),
        decreases 25 - k,
    {
        let x: usize = k / 5;
        let y: usize = k % 5;
        out[k] = a[k] ^ (!a[5 * ((x + 1) % 5) + y] & a[5 * ((x + 2) % 5) + y]);
        k += 1;
    }
    assert(out@ =~= chi(a@));
    out
}

/// Iota with the constant `rc`.
pub fn iota_step(a: &[u64; 25], rc: u64) -> (out: [u64; 25])
    ensures
        out@ == iota(a@, rc),
{
    let mut out: [u64; 25] = *a;
    out[0] = a[0] ^ rc;
    assert(out@ =~= iota(a@, rc));
    out
}

/// Round `i` of Keccak-f[1600].
pub fn round_step(a: &[u64; 25], i: usize) -> (out: [u64; 25])
    requires
        i < 24,
    ensures
        out@ == round(a@, i as int),
{
    let s1 = theta_step(a);
    let s2 = rho_step(&s1);
    let s3 = pi_step(&s2);
    let s4 = chi_step(&s3);
    iota_step(&s4, round_constant_of(i))
}

/// The first `n` rounds of Keccak-f[1600].
pub fn permute_rounds(a: &[u64; 25], n: usize) -> (out: [u64; 25])
    requires
        n <= 24,
    ensures
        out@ == rounds(a@, n as int),
{
    let mut state: [u64; 25] = *a;
    let mut i: usize = 0;
    while i < n
        invariant
            i <= n <= 24,
            state@ == rounds(a@, i as int),
        decreases n - i,
    {
        state = round_step(&state, i);
        i += 1;
    }
    state
}

/// Keccak-f[1600].
pub fn permute(a: &[u64; 25]) -> (out: [u64; 25])
    ensures
        out@ == keccak_f(a@),
{
    permute_rounds(a, 24)
}

/// Keccak-f[1600] followed, where a next block is given, by mixing it into
/// the first lanes of the state.
pub fn permute_and_absorb(a: &[u64; 25], next_inputs: Option<&[Option<u64>; 17]>) -> (out: [
    u64;
    25
])
    ensures
        match next_inputs {
            Some(next) => out@ == absorb(keccak_f(a@), next@),
            None => out@ == keccak_f(a@),
        },
{
    let permuted = permute(a);
    match next_inputs {
        None => permuted,
        Some(next) => {
            let mut out: [u64; 25] = permuted;
            let mut k: usize = 0;
            while k < 17
                invariant
                    k <= 17,
                    forall|j: int| 0 <= j < k ==> out[j] == absorb(permuted@, next@)[j],
                    forall|j: int| k <= j < 25 ==> out[j] == permuted[j],
                decreases 17 - k,
            {
                match next[k] {
                    Some(lane) => {
                        out[k] = permuted[k] ^ lane;
                    },
                    None => {},
                }
                k += 1;
            }
            assert(out@ =~= absorb(permuted@, next@));
            out
        },
    }
}

} // verus!
