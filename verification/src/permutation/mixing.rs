//! The mixing gate: after the last round, finalize or absorb the next block.

use vstd::prelude::*;
use crate::arith_helpers::{in_base, state_in_base, view_state, Lane13, Lane9};
use crate::common::round_constant;
use crate::error::Error;
use crate::keccak_arith::{absorb, add_word, iota_b13, iota_b9, lane_b9_to_b13, mixing};
use crate::permutation::absorb::AbsorbConfig;
use crate::permutation::add::AddConfig;
use crate::permutation::base_conversion::{converts_state, BaseConversionConfig};
use crate::permutation::flag::FlagConfig;
use crate::permutation::iota::IotaConfig;
use crate::permutation::tables::FromBase9TableConfig;
use crate::permutation::theta::state_is_well_formed;
use crate::permutation::witness::MixingWitness;

verus! {

/// The base-9 state that the mixing gate hands to the base conversion: the next
/// block absorbed with the flag, the deferred iota applied without it.
pub open spec fn mixing_before_conversion(
    s: Seq<Seq<int>>,
    flag: bool,
    next: Seq<Option<u64>>,
) -> Seq<Seq<int>> {
    if flag {
        absorb(s, next)
    } else {
        iota_b9(s, round_constant(23))
    }
}

/// The reason for which the mixing gate fails, if it does: first a missing flag,
/// then a lane that is no base-9 lane, then a digit without a row.
pub open spec fn mixing_failure(
    table: FromBase9TableConfig,
    s: Seq<Seq<int>>,
    flag: Option<bool>,
    next: Seq<Option<u64>>,
) -> Option<Error> {
    if flag is None {
        Some(Error::Synthesis)
    } else if !state_in_base(s, 9) {
        Some(Error::MalformedWitness)
    } else if !converts_state(table, mixing_before_conversion(s, flag->0, next)) {
        Some(Error::TableMiss)
    } else {
        None
    }
}

/// The mixing gate, with the parts it is made of and the columns of the
/// state.
#[derive(Clone, Copy, Debug)]
pub struct MixingConfig {
    /// Iota, for the constant of the last round.
    pub iota_config: IotaConfig,
    /// The absorb step.
    pub absorb_config: AbsorbConfig,
    /// The conversion from base 9 to base 13.
    pub base_conv_config: BaseConversionConfig,
    /// The 25 columns of the state.
    pub state: [usize; 25],
    /// The flag.
    pub flag: FlagConfig,
}

impl MixingConfig {
    /// Puts the mixing gate together from its parts.
    pub fn configure(
        iota_config: IotaConfig,
        add: AddConfig,
        base_conv_config: BaseConversionConfig,
        state: [usize; 25],
        flag: FlagConfig,
    ) -> (config: Self)
        ensures
            config.iota_config == iota_config,
            config.absorb_config.add == add,
            config.base_conv_config == base_conv_config,
            config.state == state,
            config.flag == flag,
    {
        MixingConfig {
            iota_config,
            absorb_config: AbsorbConfig::configure(add),
            base_conv_config,
            state,
            flag,
        }
    }

    /// The mixing gate on the output of the last round's xi.
    ///
    /// Without the flag, the iota that the last round deferred is applied in
    /// base 9 and the state is converted to base 13; the next block is not
    /// looked at. With the flag, each lane of the next block that is present
    /// is absorbed in base 9, the state is converted to base 13, and the
    /// deferred iota is applied in base 13.
    ///
    /// Fails as `mixing_failure` says, and only then.
    pub fn assign_state(
        &self,
        table: &FromBase9TableConfig,
        in_state: &[Lane9; 25],
        flag: Option<bool>,
        next_mixing: &[Option<u64>; 17],
    ) -> (res: Result<[Lane13; 25], Error>)
        ensures
            match res {
                Ok(out) => mixing_failure(*table, view_state(*in_state), flag, next_mixing@)
                    is None && view_state(out) == mixing(
                    view_state(*in_state),
                    flag->0,
                    next_mixing@,
                    round_constant(23),
                ),
                Err(e) => mixing_failure(*table, view_state(*in_state), flag, next_mixing@)
                    == Some(e),
            },
    {
        match self.assign_state_with_witness(table, in_state, flag, next_mixing) {
            Ok((_, out)) => Ok(out),
            Err(e) => Err(e),
        }
    }

    /// The mixing gate, with the states that it passes through next to its
    /// output.
    ///
    /// Fails as `mixing_failure` says, and only then.
    pub fn assign_state_with_witness(
        &self,
        table: &FromBase9TableConfig,
        in_state: &[Lane9; 25],
        flag: Option<bool>,
        next_mixing: &[Option<u64>; 17],
    ) -> (res: Result<(MixingWitness, [Lane13; 25]), Error>)
        ensures
            match res {
                Ok((witness, out)) => mixing_failure(
                    *table,
                    view_state(*in_state),
                    flag,
                    next_mixing@,
                ) is None && witness.is_of(view_state(*in_state), flag->0, next_mixing@)
                    && view_state(out) == mixing(
                    view_state(*in_state),
                    flag->0,
                    next_mixing@,
                    round_constant(23),
                ),
                Err(e) => mixing_failure(*table, view_state(*in_state), flag, next_mixing@)
                    == Some(e),
            },
    {
        let ghost s = view_state(*in_state);
        let ghost rc = round_constant(23);
        let value: u64 = match self.flag.assign_flag(flag) {
            Ok((value, _)) => value,
            Err(e) => {
                return Err(e);
            },
        };
        if value == 1 {
            let absorbed = match self.absorb_config.assign_state_and_next_inp(
                in_state,
                next_mixing,
            ) {
                Ok(absorbed) => absorbed,
                Err(e) => {
                    return Err(e);
                },
            };
            let converted = match self.base_conv_config.assign_state(table, &absorbed) {
                Ok(converted) => converted,
                Err(e) => {
                    return Err(e);
                },
            };
            proof {
                let a = absorb(s, next_mixing@);
                assert(converted[0]@ == view_state(converted)[0]);
                assert(in_base(s[0], 9));
                assert(a[0][64] == 0) by {
                    if next_mixing@[0] is Some {
                        assert(a[0] == add_word(s[0], 2, next_mixing@[0]->0));
                    }
                }
                assert(converted[0]@ == lane_b9_to_b13(a[0]));
                assert(in_base(converted[0]@, 13));
            }
            match self.iota_config.assign_b13_last_round(&converted[0]) {
                Ok(lane) => {
                    let mut out: [Lane13; 25] = converted;
                    out[0] = lane;
                    assert(view_state(out) =~= iota_b13(view_state(converted), rc));
                    Ok((MixingWitness { before_conversion: absorbed, converted }, out))
                },
                Err(e) => Err(e),
            }
        } else {
            if !state_is_well_formed(in_state) {
                return Err(Error::MalformedWitness);
            }
            assert(in_state[0]@ == s[0]);
            assert(in_base(s[0], 9));
            match self.iota_config.assign_b9_last_round(&in_state[0]) {
                Ok(lane) => {
                    let mut state: [Lane9; 25] = *in_state;
                    state[0] = lane;
                    assert(view_state(state) =~= iota_b9(s, rc));
                    match self.base_conv_config.assign_state(table, &state) {
                        Ok(out) => Ok(
                            (MixingWitness { before_conversion: state, converted: out }, out),
                        ),
                        Err(e) => Err(e),
                    }
                },
                Err(e) => Err(e),
            }
        }
    }
}

} // verus!
