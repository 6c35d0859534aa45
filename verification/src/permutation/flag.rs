//! The mixing flag, and the relation that holds it to 0 or 1.

use vstd::prelude::*;
use crate::error::Error;

verus! {

/// The relation on the flag: the value is its own square.
pub open spec fn is_boolean(value: int) -> bool {
    value * value == value
}

/// The values that are their own square are 0 and 1.
pub proof fn lemma_boolean_values(value: int)
    ensures
        is_boolean(value) <==> (value == 0 || value == 1),
{
    assert(is_boolean(value) <==> (value == 0 || value == 1)) by (nonlinear_arith)
        requires
            is_boolean(value) == (value * value == value),
    ;
}

/// The flag and the column it is wired to.
#[derive(Clone, Copy, Debug)]
pub struct FlagConfig {
    /// The column that holds the flag.
    pub flag: usize,
}

impl FlagConfig {
    /// Wires the flag to its column.
    pub fn configure(column: usize) -> (config: Self)
        ensures
            config.flag == column,
    {
        FlagConfig { flag: column }
    }

    /// The values that witness the flag and its negation.
    ///
    /// Fails with `Synthesis` exactly when no flag is supplied.
    pub fn assign_flag(&self, flag: Option<bool>) -> (res: Result<(u64, u64), Error>)
        ensures
            match res {
                Ok((value, negated)) => flag is Some && value == (if flag->0 {
                    1u64
                } else {
                    0u64
                }) && negated == 1 - value,
                Err(e) => e == Error::Synthesis && flag is None,
            },
    {
        match flag {
            Some(true) => Ok((1, 0)),
            Some(false) => Ok((0, 1)),
            None => Err(Error::Synthesis),
        }
    }

    /// Holds a supplied value to the relation on the flag and reads it as
    /// a flag.
    ///
    /// Fails with `NotBoolean` exactly when the value is not its own square,
    /// that is when it is neither 0 nor 1.
    pub fn constrain(&self, value: u64) -> (res: Result<bool, Error>)
        ensures
            match res {
                Ok(flag) => is_boolean(value as int) && value <= 1 && flag == (value == 1),
                Err(e) => e == Error::NotBoolean && !is_boolean(value as int) && value > 1,
            },
    {
        proof {
            lemma_boolean_values(value as int);
        }
        let wide: u128 = value as u128;
        assert(wide * wide <= 0xFFFF_FFFF_FFFF_FFFF * 0xFFFF_FFFF_FFFF_FFFF) by (nonlinear_arith)
            requires
                0 <= wide <= 0xFFFF_FFFF_FFFF_FFFF,
        ;
        if wide * wide == wide {
            Ok(value == 1)
        } else {
            Err(Error::NotBoolean)
        }
    }
}

} // verus!
