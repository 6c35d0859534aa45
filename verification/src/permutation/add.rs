//! The add gate: a lane plus a constant multiple of another, digit by digit.

use vstd::prelude::*;
use crate::arith_helpers::{in_base, Lane};
use crate::error::Error;

verus! {

/// The digits of `input + c * x`.
pub open spec fn add_mul_const(input: Seq<int>, x: Seq<int>, c: int) -> Seq<int> {
    Seq::new(65, |i: int| input[i] + c * x[i])
}

/// The add gate and the columns it is wired to.
#[derive(Clone, Copy, Debug)]
pub struct AddConfig {
    /// The three advice columns of the add gate: both operands and the sum.
    pub input: [usize; 3],
    /// The fixed column that holds the constant factor.
    pub fixed: usize,
}

impl AddConfig {
    /// Wires the add gate to its columns.
    ///
    /// Fails with `Misconfigured` exactly when `input` is not three columns.
    pub fn configure(input: &[usize], fixed: usize) -> (res: Result<Self, Error>)
        ensures
            match res {
                Ok(config) => input@.len() == 3 && config.input@ == input@ && config.fixed
                    == fixed,
                Err(e) => e == Error::Misconfigured && input@.len() != 3,
            },
    {
        if input.len() != 3 {
            return Err(Error::Misconfigured);
        }
        let config = AddConfig { input: [input[0], input[1], input[2]], fixed };
        assert(config.input@ =~= input@);
        Ok(config)
    }

    /// `input + c * x`, digit by digit.
    ///
    /// Fails with `MalformedWitness` exactly when `input` is not a
    /// well-formed lane of its radix or `x` is not a lane of binary digits.
    pub fn add_advice_mul_const<const BASE: u8>(
        &self,
        input: &Lane<BASE>,
        x: &Lane<BASE>,
        c: u8,
    ) -> (res: Result<Lane<BASE>, Error>)
        requires
            BASE + c <= 256,
        ensures
            match res {
                Ok(out) => in_base(input@, BASE as int) && in_base(x@, 2) && out@
                    == add_mul_const(input@, x@, c as int),
                Err(e) => e == Error::MalformedWitness && !(in_base(input@, BASE as int)
                    && in_base(x@, 2)),
            },
    {
        if !input.is_well_formed() || !digits_are_binary(x) {
            return Err(Error::MalformedWitness);
        }
        let mut digits: [u8; 65] = [0u8;65];
        let mut i: usize = 0;
        while i < 65
            invariant
                i <= 65,
                BASE + c <= 256,
                in_base(input@, BASE as int),
                in_base(x@, 2),
                forall|j: int| 0 <= j < i ==> digits[j] as int == input@[j] + c * x@[j],
            decreases 65 - i,
        {
            assert(input@[i as int] == input.digits[i as int]);
            assert(x@[i as int] == x.digits[i as int]);
            assert(x.digits[i as int] <= 1 && input.digits[i as int] < BASE) by {
                assert(0 <= input@[0] < BASE);
                if i < 64 {
                    assert(0 <= x@[i as int] < 2);
                    assert(0 <= input@[i as int] < BASE);
                }
            }
            let term: u8 = if x.digits[i] == 1 {
                c
            } else {
                0
            };
            assert(term as int == c * x@[i as int]) by (nonlinear_arith)
                requires
                    term as int == (if x@[i as int] == 1 {
                        c as int
                    } else {
                        0
                    }),
                    0 <= x@[i as int] <= 1,
            ;
            digits[i] = input.digits[i] + term;
            i += 1;
        }
        let out = Lane { digits };
        assert(out@ =~= add_mul_const(input@, x@, c as int));
        Ok(out)
    }
}

/// Whether the low 64 digits are 0 or 1 and the overhang is 0.
pub fn digits_are_binary<const BASE: u8>(lane: &Lane<BASE>) -> (ok: bool)
    ensures
        ok == in_base(lane@, 2),
{
    if lane.digits[64] != 0 {
        return false;
    }
    let mut i: usize = 0;
    while i < 64
        invariant
            i <= 64,
            forall|j: int| 0 <= j < i ==> 0 <= #[trigger] lane@[j] < 2,
        decreases 64 - i,
    {
        if lane.digits[i] >= 2 {
            assert(!(lane@[i as int] < 2));
            return false;
        }
        i += 1;
    }
    true
}

} // verus!
