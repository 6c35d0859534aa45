//! Base conversion: a state taken digit by digit from base 9 to base 13.

use vstd::prelude::*;
use crate::arith_helpers::{view_state, Lane13, Lane9};
use crate::error::Error;
use crate::keccak_arith::{lane_b9_to_b13, state_b9_to_b13};
use crate::permutation::tables::FromBase9TableConfig;

verus! {

/// The table has a row for every digit of every lane of the state.
pub open spec fn converts_state(table: FromBase9TableConfig, s: Seq<Seq<int>>) -> bool {
    forall|k: int| 0 <= k < 25 ==> table.converts_lane(#[trigger] s[k])
}

/// The conversion and the two columns it is wired to.
#[derive(Clone, Copy, Debug)]
pub struct BaseConversionConfig {
    /// The column of the lane to convert.
    pub input_lane: usize,
    /// The column of the converted lane.
    pub output_lane: usize,
}

impl BaseConversionConfig {
    /// Wires the conversion to its columns.
    ///
    /// Fails with `Misconfigured` exactly when `columns` is not two columns.
    pub fn configure(columns: &[usize]) -> (res: Result<Self, Error>)
        ensures
            match res {
                Ok(config) => columns@.len() == 2 && config.input_lane == columns@[0]
                    && config.output_lane == columns@[1],
                Err(e) => e == Error::Misconfigured && columns@.len() != 2,
            },
    {
        if columns.len() != 2 {
            return Err(Error::Misconfigured);
        }
        Ok(BaseConversionConfig { input_lane: columns[0], output_lane: columns[1] })
    }

    /// One lane from base 9 to base 13: every digit is replaced by the bit
    /// that the table gives for it.
    ///
    /// Fails with `TableMiss` exactly when a digit of the lane has no row.
    pub fn assign_lane(&self, table: &FromBase9TableConfig, lane: &Lane9) -> (res: Result<
        Lane13,
        Error,
    >)
        ensures
            match res {
                Ok(out) => table.converts_lane(lane@) && out@ == lane_b9_to_b13(lane@),
                Err(e) => e == Error::TableMiss && !table.converts_lane(lane@),
            },
    {
        match table.convert_lane::<13>(lane) {
            Some(out) => {
                assert(out@ =~= lane_b9_to_b13(lane@));
                Ok(out)
            },
            None => Err(Error::TableMiss),
        }
    }

    /// A state from base 9 to base 13, lane by lane.
    ///
    /// Fails with `TableMiss` exactly when a digit of the state has no row.
    pub fn assign_state(&self, table: &FromBase9TableConfig, state: &[Lane9; 25]) -> (res: Result<
        [Lane13; 25],
        Error,
    >)
        ensures
            match res {
                Ok(out) => converts_state(*table, view_state(*state)) && view_state(out)
                    == state_b9_to_b13(view_state(*state)),
                Err(e) => e == Error::TableMiss && !converts_state(*table, view_state(*state)),
            },
    {
        let ghost s = view_state(*state);
        let mut out: [Lane13; 25] = [Lane13::zero();25];
        let mut k: usize = 0;
        while k < 25
            invariant
                k <= 25,
                s == view_state(*state),
                forall|j: int| 0 <= j < k ==> table.converts_lane(#[trigger] s[j]),
                forall|j: int| 0 <= j < k ==> (#[trigger] out[j])@ == lane_b9_to_b13(s[j]),
            decreases 25 - k,
        {
            assert(s[k as int] == state[k as int]@);
            match self.assign_lane(table, &state[k]) {
                Ok(lane) => {
                    out[k] = lane;
                },
                Err(e) => {
                    return Err(e);
                },
            }
            k += 1;
        }
        assert(view_state(out) =~= state_b9_to_b13(s));
        Ok(out)
    }
}

} // verus!
