//! Xi: the nonlinear step of a round, as a weighted sum of digits in base 9.

use vstd::prelude::*;
use crate::arith_helpers::{in_base, state_in_base, view_state, Lane, Lane9, A1, A2, A3};
use crate::error::Error;
use crate::keccak_arith::{xi, xi_digit};
use crate::permutation::theta::state_is_well_formed;

verus! {

/// Xi on a state in base 9: each digit becomes `2a + b + 3c`, for the digit
/// `a` of the lane and the digits `b` and `c` of the next two lanes of its
/// row. On binary digits the sum is the base-9 digit of `a ^ (!b & c)`.
///
/// Fails with `MalformedWitness` exactly when a lane of the input is not a
/// well-formed base-9 lane.
pub fn assign_xi(state: &[Lane9; 25]) -> (res: Result<[Lane9; 25], Error>)
    ensures
        match res {
            Ok(out) => state_in_base(view_state(*state), 9) && view_state(out) == xi(
                view_state(*state),
            ),
            Err(e) => e == Error::MalformedWitness && !state_in_base(view_state(*state), 9),
        },
{
    if !state_is_well_formed(state) {
        return Err(Error::MalformedWitness);
    }
    let ghost s = view_state(*state);
    assert forall|k: int, j: int| 0 <= k < 25 && 0 <= j < 65 implies 0 <= #[trigger] s[k][j]
        < 9 by {
        assert(in_base(s[k], 9));
        if j < 64 {
            assert(0 <= s[k][j] < 9);
        }
    }
    let mut out: [Lane9; 25] = [Lane9::zero();25];
    let mut k: usize = 0;
    while k < 25
        invariant
            k <= 25,
            s == view_state(*state),
            forall|k: int, j: int| 0 <= k < 25 && 0 <= j < 65 ==> 0 <= #[trigger] s[k][j] < 9,
            forall|j: int| 0 <= j < k ==> (#[trigger] out[j])@ == xi(s)[j],
        decreases 25 - k,
    {
        let k1: usize = 5 * ((k / 5 + 1) % 5) + k % 5;
        let k2: usize = 5 * ((k / 5 + 2) % 5) + k % 5;
        let mut digits: [u8; 65] = [0u8;65];
        let mut i: usize = 0;
        while i < 65
            invariant
                i <= 65,
                k < 25,
                k1 == 5 * ((k / 5 + 1) % 5) + k % 5,
                k2 == 5 * ((k / 5 + 2) % 5) + k % 5,
                s == view_state(*state),
                forall|k: int, j: int|
                    0 <= k < 25 && 0 <= j < 65 ==> 0 <= #[trigger] s[k][j] < 9,
                forall|j: int| 0 <= j < i ==> digits[j] as int == xi_digit(s, k as int, j),
            decreases 65 - i,
        {
            assert(s[k as int][i as int] == state[k as int].digits[i as int]);
            assert(s[k1 as int][i as int] == state[k1 as int].digits[i as int]);
            assert(s[k2 as int][i as int] == state[k2 as int].digits[i as int]);
            digits[i] = A1 * state[k].digits[i] + A2 * state[k1].digits[i] + A3
                * state[k2].digits[i];
            i += 1;
        }
        out[k] = Lane { digits };
        assert(out[k as int]@ =~= xi(s)[k as int]);
        k += 1;
    }
    assert(view_state(out) =~= xi(s));
    Ok(out)
}

} // verus!
