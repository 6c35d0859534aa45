//! Iota: the round constant added to lane `(0, 0)`.

use vstd::prelude::*;
use crate::arith_helpers::{
    convert_b2_to_b13, convert_b2_to_b9, encode, in_base, lemma_decode_encode, Lane13, Lane9, A4,
};
use crate::common::{round_constant, round_constant_of};
use crate::error::Error;
use crate::keccak_arith::add_word;
use crate::permutation::add::AddConfig;

verus! {

/// The add gate together with the round constants, encoded once.
#[derive(Clone, Copy, Debug)]
pub struct IotaConfig {
    add: AddConfig,
    round_constant_b9: [Lane9; 24],
    last_round_constant_b13: Lane13,
}

impl IotaConfig {
    #[verifier::type_invariant]
    spec fn constants_are_encoded(self) -> bool {
        &&& forall|i: int|
            0 <= i < 24 ==> (#[trigger] self.round_constant_b9[i])@ == encode(round_constant(i))
        &&& self.last_round_constant_b13@ == encode(round_constant(23))
    }

    /// The add gate that iota uses.
    pub closed spec fn add(self) -> AddConfig {
        self.add
    }

    /// Encodes the 24 round constants and keeps the add gate.
    pub fn configure(add: AddConfig) -> (config: Self)
        ensures
            config.add() == add,
    {
        let mut round_constant_b9: [Lane9; 24] = [Lane9::zero();24];
        let mut i: usize = 0;
        while i < 24
            invariant
                i <= 24,
                forall|j: int|
                    0 <= j < i ==> (#[trigger] round_constant_b9[j])@ == encode(
                        round_constant(j),
                    ),
            decreases 24 - i,
        {
            round_constant_b9[i] = convert_b2_to_b9(round_constant_of(i));
            i += 1;
        }
        IotaConfig {
            add,
            round_constant_b9,
            last_round_constant_b13: convert_b2_to_b13(round_constant_of(23)),
        }
    }

    /// Iota of round `round_idx` in base 9: twice the digits of the round
    /// constant are added to the lane.
    ///
    /// Fails with `MalformedWitness` exactly when the lane is not a
    /// well-formed base-9 lane.
    pub fn assign_round_b9(&self, lane: &Lane9, round_idx: usize) -> (res: Result<Lane9, Error>)
        requires
            round_idx < 24,
        ensures
            match res {
                Ok(out) => in_base(lane@, 9) && out@ == add_word(
                    lane@,
                    2,
                    round_constant(round_idx as int),
                ),
                Err(e) => e == Error::MalformedWitness && !in_base(lane@, 9),
            },
    {
        proof {
            use_type_invariant(self);
            lemma_decode_encode(round_constant(round_idx as int));
        }
        let res = self.add.add_advice_mul_const(lane, &self.round_constant_b9[round_idx], A4);
        proof {
            if let Ok(out) = res {
                assert(out@ =~= add_word(lane@, 2, round_constant(round_idx as int)));
            }
        }
        res
    }

    /// The iota that the last round deferred, in base 9.
    ///
    /// Fails with `MalformedWitness` exactly when the lane is not a
    /// well-formed base-9 lane.
    pub fn assign_b9_last_round(&self, lane: &Lane9) -> (res: Result<Lane9, Error>)
        ensures
            match res {
                Ok(out) => in_base(lane@, 9) && out@ == add_word(lane@, 2, round_constant(23)),
                Err(e) => e == Error::MalformedWitness && !in_base(lane@, 9),
            },
    {
        self.assign_round_b9(lane, 23)
    }

    /// The iota that the last round deferred, in base 13: the digits of the
    /// last round constant are added to the lane.
    ///
    /// Fails with `MalformedWitness` exactly when the lane is not a
    /// well-formed base-13 lane.
    pub fn assign_b13_last_round(&self, lane: &Lane13) -> (res: Result<Lane13, Error>)
        ensures
            match res {
                Ok(out) => in_base(lane@, 13) && out@ == add_word(lane@, 1, round_constant(23)),
                Err(e) => e == Error::MalformedWitness && !in_base(lane@, 13),
            },
    {
        proof {
            use_type_invariant(self);
            lemma_decode_encode(round_constant(23));
        }
        let res = self.add.add_advice_mul_const(lane, &self.last_round_constant_b13, 1);
        proof {
            if let Ok(out) = res {
                assert(out@ =~= add_word(lane@, 1, round_constant(23)));
            }
        }
        res
    }
}

} // verus!
