//! Pi: the lanes change places; no digit changes.

use vstd::prelude::*;
use crate::arith_helpers::{view_state, Lane};
use crate::keccak_arith::pi;
use crate::plain::pi_source;

verus! {

/// Flat position of the lane that pi moves to flat position `k`.
pub fn pi_source_of(k: usize) -> (src: usize)
    requires
        k < 25,
    ensures
        src == pi_source(k as int),
        src < 25,
{
    let x: usize = k / 5;
    let y: usize = k % 5;
    5 * ((x + 3 * y) % 5) + x
}

/// Pi: the lane at `(x, y)` of the input is the lane at `(y, 2x + 3y mod 5)`
/// of the output.
pub fn pi_gate_permutation<const BASE: u8>(state: &[Lane<BASE>; 25]) -> (out: [Lane<BASE>; 25])
    ensures
        view_state(out) == pi(view_state(*state)),
{
    let mut out: [Lane<BASE>; 25] = *state;
    let mut k: usize = 0;
    while k < 25
        invariant
            k <= 25,
            forall|j: int| 0 <= j < k ==> #[trigger] out[j] == state[pi_source(j)],
        decreases 25 - k,
    {
        out[k] = state[pi_source_of(k)];
        k += 1;
    }
    assert(view_state(out) =~= pi(view_state(*state)));
    out
}

} // verus!
