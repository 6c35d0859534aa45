//! Theta: column parities accumulated in base 13.

use vstd::prelude::*;
use crate::arith_helpers::{state_in_base, view_state, Lane, Lane13};
use crate::error::Error;
use crate::keccak_arith::{column_sum, theta, theta_digit};

verus! {

/// Whether every lane of the state is a well-formed lane of its radix.
pub fn state_is_well_formed<const BASE: u8>(state: &[Lane<BASE>; 25]) -> (ok: bool)
    ensures
        ok == state_in_base(view_state(*state), BASE as int),
{
    let mut k: usize = 0;
    while k < 25
        invariant
            k <= 25,
            forall|j: int|
                0 <= j < k ==> crate::arith_helpers::in_base(
                    #[trigger] view_state(*state)[j],
                    BASE as int,
                ),
        decreases 25 - k,
    {
        if !state[k].is_well_formed() {
            assert(view_state(*state)[k as int] == state[k as int]@);
            return false;
        }
        assert(view_state(*state)[k as int] == state[k as int]@);
        k += 1;
    }
    true
}

fn column_digit(state: &[Lane13; 25], x: usize, i: usize) -> (sum: u8)
    requires
        x < 5,
        i < 65,
        forall|k: int, j: int|
            0 <= k < 25 && 0 <= j < 65 ==> 0 <= #[trigger] view_state(*state)[k][j] < 13,
    ensures
        sum == column_sum(view_state(*state), x as int, i as int),
        sum <= 60,
{
    let ghost s = view_state(*state);
    assert(s[5 * x as int][i as int] == state[5 * x as int].digits[i as int]);
    assert(s[5 * x as int + 1][i as int] == state[5 * x as int + 1].digits[i as int]);
    assert(s[5 * x as int + 2][i as int] == state[5 * x as int + 2].digits[i as int]);
    assert(s[5 * x as int + 3][i as int] == state[5 * x as int + 3].digits[i as int]);
    assert(s[5 * x as int + 4][i as int] == state[5 * x as int + 4].digits[i as int]);
    state[5 * x].digits[i] + state[5 * x + 1].digits[i] + state[5 * x + 2].digits[i] + state[5 * x
        + 3].digits[i] + state[5 * x + 4].digits[i]
}

/// Theta on a state in base 13. Each lane becomes, as a scalar, itself plus
/// the column to its left plus 13 times the column to its right; the digits
/// that come out may reach 132 and are not checked here.
///
/// Fails with `MalformedWitness` exactly when a lane of the input is not a
/// well-formed base-13 lane.
pub fn assign_theta(state: &[Lane13; 25]) -> (res: Result<[Lane13; 25], Error>)
    ensures
        match res {
            Ok(out) => state_in_base(view_state(*state), 13) && view_state(out) == theta(
                view_state(*state),
            ),
            Err(e) => e == Error::MalformedWitness && !state_in_base(view_state(*state), 13),
        },
{
    if !state_is_well_formed(state) {
        return Err(Error::MalformedWitness);
    }
    let ghost s = view_state(*state);
    assert forall|k: int, j: int| 0 <= k < 25 && 0 <= j < 65 implies 0 <= #[trigger] s[k][j]
        < 13 by {
        assert(crate::arith_helpers::in_base(s[k], 13));
        if j < 64 {
            assert(0 <= s[k][j] < 13);
        }
    }
    let mut out: [Lane13; 25] = [Lane13::zero();25];
    let mut k: usize = 0;
    while k < 25
        invariant
            k <= 25,
            s == view_state(*state),
            forall|k: int, j: int| 0 <= k < 25 && 0 <= j < 65 ==> 0 <= #[trigger] s[k][j] < 13,
            forall|j: int| 0 <= j < k ==> (#[trigger] out[j])@ == theta(s)[j],
        decreases 25 - k,
    {
        let x: usize = k / 5;
        let mut digits: [u8; 65] = [0u8;65];
        let mut i: usize = 0;
        while i < 65
            invariant
                i <= 65,
                k < 25,
                x == k / 5,
                s == view_state(*state),
                forall|k: int, j: int|
                    0 <= k < 25 && 0 <= j < 65 ==> 0 <= #[trigger] s[k][j] < 13,
                forall|j: int| 0 <= j < i ==> digits[j] as int == theta_digit(s, k as int, j),
            decreases 65 - i,
        {
            let left: u8 = column_digit(state, (x + 4) % 5, i);
            let right: u8 = if i >= 1 {
                column_digit(state, (x + 1) % 5, i - 1)
            } else {
                0
            };
            assert(s[k as int][i as int] == state[k as int].digits[i as int]);
            digits[i] = state[k].digits[i] + left + right;
            i += 1;
        }
        out[k] = Lane { digits };
        assert(out[k as int]@ =~= theta(s)[k as int]);
        k += 1;
    }
    assert(view_state(out) =~= theta(s));
    Ok(out)
}

} // verus!
