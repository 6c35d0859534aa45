//! Absorb: the next block added to the first lanes of a state in base 9.

use vstd::prelude::*;
use crate::arith_helpers::{
    convert_b2_to_b9, in_base, lemma_decode_encode, state_in_base, view_state, Lane9, A4,
};
use crate::error::Error;
use crate::keccak_arith::{absorb, add_word};
use crate::permutation::add::AddConfig;
use crate::permutation::theta::state_is_well_formed;

verus! {

/// The add gate as the absorb step uses it.
#[derive(Clone, Copy, Debug)]
pub struct AbsorbConfig {
    /// The add gate.
    pub add: AddConfig,
}

impl AbsorbConfig {
    /// Keeps the add gate.
    pub fn configure(add: AddConfig) -> (config: Self)
        ensures
            config.add == add,
    {
        AbsorbConfig { add }
    }

    /// Adds twice the digits of each lane of the next block that is present
    /// to the lane of the state at the same position; the other lanes stay.
    ///
    /// Fails with `MalformedWitness` exactly when a lane of the state is not
    /// a well-formed base-9 lane.
    pub fn assign_state_and_next_inp(
        &self,
        state: &[Lane9; 25],
        next_input: &[Option<u64>; 17],
    ) -> (res: Result<[Lane9; 25], Error>)
        ensures
            match res {
                Ok(out) => state_in_base(view_state(*state), 9) && view_state(out) == absorb(
                    view_state(*state),
                    next_input@,
                ),
                Err(e) => e == Error::MalformedWitness && !state_in_base(view_state(*state), 9),
            },
    {
        if !state_is_well_formed(state) {
            return Err(Error::MalformedWitness);
        }
        let ghost s = view_state(*state);
        let mut out: [Lane9; 25] = *state;
        let mut k: usize = 0;
        while k < 17
            invariant
                k <= 17,
                s == view_state(*state),
                state_in_base(s, 9),
                next_input@.len() == 17,
                forall|j: int| 0 <= j < k ==> (#[trigger] out[j])@ == absorb(s, next_input@)[j],
                forall|j: int| k <= j < 25 ==> #[trigger] out[j] == state[j],
            decreases 17 - k,
        {
            assert(s[k as int] == state[k as int]@);
            assert(in_base(s[k as int], 9));
            match next_input[k] {
                Some(word) => {
                    proof {
                        lemma_decode_encode(word);
                    }
                    let lane = convert_b2_to_b9(word);
                    match self.add.add_advice_mul_const(&state[k], &lane, A4) {
                        Ok(sum) => {
                            assert(sum@ =~= add_word(s[k as int], 2, word));
                            out[k] = sum;
                        },
                        Err(e) => {
                            return Err(e);
                        },
                    }
                },
                None => {},
            }
            k += 1;
        }
        proof {
            assert forall|j: int| 0 <= j < 25 implies view_state(out)[j] == absorb(
                s,
                next_input@,
            )[j] by {
                if j >= 17 {
                    assert(out[j] == state[j]);
                    assert(s[j] == state[j]@);
                }
            }
            assert(view_state(out) =~= absorb(s, next_input@));
        }
        Ok(out)
    }
}

} // verus!
