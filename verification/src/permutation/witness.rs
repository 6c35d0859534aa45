//! The witness of a permutation: every state that it passes through.

use vstd::prelude::*;
use crate::arith_helpers::{view_state, Lane13, Lane9};
use crate::common::round_constant;
use crate::keccak_arith::{
    iota_b9, permutation, pi, rho, round_before_iota, rounds, state_b9_to_b13, theta,
};
use crate::permutation::mixing::mixing_before_conversion;

verus! {

/// The states that one round passes through.
#[derive(Clone, Copy, Debug, PartialEq, Eq)]
pub struct RoundWitness {
    /// After theta, in base 13 with sums in the digits.
    pub after_theta: [Lane13; 25],
    /// After rho, in base 9 with binary digits.
    pub after_rho: [Lane9; 25],
    /// After pi.
    pub after_pi: [Lane9; 25],
    /// After xi, in base 9 with sums in the digits.
    pub after_xi: [Lane9; 25],
    /// After iota in base 9; none in the last round, which has no iota.
    pub after_iota: Option<[Lane9; 25]>,
}

impl RoundWitness {
    /// These are the states of a round on the state `s`: with iota for the
    /// constant `rc`, or without iota.
    pub open spec fn is_of(self, s: Seq<Seq<int>>, rc: Option<u64>) -> bool {
        &&& view_state(self.after_theta) == theta(s)
        &&& view_state(self.after_rho) == rho(theta(s))
        &&& view_state(self.after_pi) == pi(rho(theta(s)))
        &&& view_state(self.after_xi) == round_before_iota(s)
        &&& match rc {
            Some(rc) => self.after_iota is Some && view_state(self.after_iota->0) == iota_b9(
                round_before_iota(s),
                rc,
            ),
            None => self.after_iota is None,
        }
    }
}

/// The states that the mixing gate passes through.
#[derive(Clone, Copy, Debug, PartialEq, Eq)]
pub struct MixingWitness {
    /// In base 9, after the deferred iota or after the next block was
    /// absorbed.
    pub before_conversion: [Lane9; 25],
    /// After the conversion to base 13.
    pub converted: [Lane13; 25],
}

impl MixingWitness {
    /// These are the states of the mixing gate on the state `s`.
    pub open spec fn is_of(self, s: Seq<Seq<int>>, flag: bool, next: Seq<Option<u64>>) -> bool {
        &&& view_state(self.before_conversion) == mixing_before_conversion(s, flag, next)
        &&& view_state(self.converted) == state_b9_to_b13(
            mixing_before_conversion(s, flag, next),
        )
    }
}

/// Every state of one permutation.
#[derive(Clone, Debug, PartialEq, Eq)]
pub struct Witness {
    /// The state that each of the 24 rounds starts from; the first is the
    /// input.
    pub states: Vec<[Lane13; 25]>,
    /// The states inside each of the 24 rounds.
    pub rounds: Vec<RoundWitness>,
    /// The states inside the mixing gate.
    pub mixing: MixingWitness,
    /// The output.
    pub out_state: [Lane13; 25],
}

impl Witness {
    /// The constant that iota adds in round `i`; none in the last round.
    pub open spec fn iota_constant(i: int) -> Option<u64> {
        if i < 23 {
            Some(round_constant(i))
        } else {
            None
        }
    }

    /// These are the states of the permutation on the state `s`.
    pub open spec fn is_of(self, s: Seq<Seq<int>>, flag: bool, next: Seq<Option<u64>>) -> bool {
        &&& self.states@.len() == 24
        &&& self.rounds@.len() == 24
        &&& forall|i: int| 0 <= i < 24 ==> view_state(#[trigger] self.states@[i]) == rounds(s, i)
        &&& forall|i: int|
            0 <= i < 24 ==> (#[trigger] self.rounds@[i]).is_of(
                rounds(s, i),
                Witness::iota_constant(i),
            )
        &&& self.mixing.is_of(round_before_iota(rounds(s, 23)), flag, next)
        &&& view_state(self.out_state) == permutation(s, flag, next)
    }
}

} // verus!
