//! Rho: each lane rotated by its offset, on the way from base 13 to base 9.

use vstd::prelude::*;
use crate::arith_helpers::{view_state, Lane, Lane13, Lane9};
use crate::common::rotation_of;
use crate::error::Error;
use crate::keccak_arith::{folded_digit, rho, rho_lane};
use crate::permutation::add::AddConfig;
use crate::permutation::tables::Base13toBase9TableConfig;

verus! {

/// The rotation of the lanes, with the table that turns a base-13 digit into
/// the base-9 digit of its bit.
#[derive(Debug)]
pub struct RhoConfig {
    /// The 25 columns of the state.
    pub state: [usize; 25],
    /// The fixed column of the rotation.
    pub fixed: usize,
    /// The add gate.
    pub add: AddConfig,
    /// The table from base-13 digits to base-9 digits.
    pub table: Base13toBase9TableConfig,
}

impl Clone for RhoConfig {
    /// The same wiring with a table of the same rows.
    fn clone(&self) -> (config: Self)
        ensures
            config.state == self.state,
            config.fixed == self.fixed,
            config.add == self.add,
            config.table.domain() == self.table.domain(),
    {
        RhoConfig {
            state: self.state,
            fixed: self.fixed,
            add: self.add,
            table: self.table.clone(),
        }
    }
}

impl RhoConfig {
    /// The table has a row for the digit `d`.
    pub open spec fn covers(self, d: int) -> bool {
        self.table.domain().contains(d)
    }

    /// The table holds exactly the rows of the digits 0 to 12.
    pub open spec fn is_loaded(self) -> bool {
        self.table.is_loaded()
    }

    /// Every folded digit of every lane has a row in the table.
    pub open spec fn converts(self, s: Seq<Seq<int>>) -> bool {
        forall|k: int, i: int|
            0 <= k < 25 && 0 <= i < 64 ==> self.covers(#[trigger] folded_digit(s[k], i))
    }

    /// A loaded table covers the digits 0 to 12 and no other.
    pub proof fn lemma_loaded_covers(self, d: int)
        requires
            self.is_loaded(),
        ensures
            self.covers(d) <==> 0 <= d < 13,
    {
    }

    /// A table that misses one digit of base 13 is not loaded.
    pub proof fn lemma_unloaded(self, d: int)
        requires
            0 <= d < 13,
            !self.covers(d),
        ensures
            !self.is_loaded(),
    {
    }

    /// The rotation wired to its columns, with an empty table.
    pub fn configure(state: [usize; 25], fixed: usize, add: AddConfig) -> (config: Self)
        ensures
            config.state == state,
            config.fixed == fixed,
            config.add == add,
            forall|d: int| !config.covers(d),
    {
        RhoConfig { state, fixed, add, table: Base13toBase9TableConfig::configure() }
    }

    /// Fills the table.
    pub fn load(&mut self)
        ensures
            final(self).is_loaded(),
            final(self).state == old(self).state,
            final(self).fixed == old(self).fixed,
            final(self).add == old(self).add,
    {
        self.table.load();
    }

    fn rotate_lane(&self, lane: &Lane13, r: u32) -> (res: Option<Lane9>)
        requires
            r < 64,
        ensures
            res is Some <==> forall|i: int|
                0 <= i < 64 ==> self.covers(#[trigger] folded_digit(lane@, i)),
            res is Some ==> res->0@ == rho_lane(lane@, r as int),
    {
        let mut digits: [u8; 65] = [0u8;65];
        let mut j: usize = 0;
        while j < 64
            invariant
                j <= 64,
                r < 64,
                forall|m: int|
                    0 <= m < j ==> self.covers(
                        #[trigger] folded_digit(lane@, (m + 64 - r as int) % 64),
                    ),
                forall|m: int| 0 <= m < j ==> digits[m] as int == rho_lane(lane@, r as int)[m],
                forall|m: int| j <= m < 65 ==> digits[m] == 0,
            decreases 64 - j,
        {
            let src: usize = (j + 64 - r as usize) % 64;
            let folded: u16 = if src == 0 {
                lane.digits[0] as u16 + lane.digits[64] as u16
            } else {
                lane.digits[src] as u16
            };
            assert(folded as int == folded_digit(lane@, src as int));
            match self.table.lookup(folded) {
                Some(b) => {
                    digits[j] = b;
                },
                None => {
                    assert(!self.covers(folded_digit(lane@, src as int)));
                    return None;
                },
            }
            j += 1;
        }
        let out = Lane { digits };
        proof {
            assert(out@ =~= rho_lane(lane@, r as int));
            assert forall|i: int| 0 <= i < 64 implies self.covers(
                #[trigger] folded_digit(lane@, i),
            ) by {
                let m = (i + r as int) % 64;
                assert((m + 64 - r as int) % 64 == i);
            }
        }
        Some(out)
    }

    /// Rho on the output of theta: the overhang digit of each lane is folded
    /// onto its digit 0, every digit is replaced by the base-9 digit of its
    /// bit, and the digits are moved up by the offset of the lane, around the
    /// end of the lane.
    ///
    /// Fails with `TableMiss` exactly when a folded digit has no row in the
    /// table.
    pub fn assign_rotation_checks(&self, state: &[Lane13; 25]) -> (res: Result<
        [Lane9; 25],
        Error,
    >)
        ensures
            match res {
                Ok(out) => self.converts(view_state(*state)) && view_state(out) == rho(
                    view_state(*state),
                ),
                Err(e) => e == Error::TableMiss && !self.converts(view_state(*state)),
            },
    {
        let ghost s = view_state(*state);
        let mut out: [Lane9; 25] = [Lane9::zero();25];
        let mut k: usize = 0;
        while k < 25
            invariant
                k <= 25,
                s == view_state(*state),
                forall|m: int, i: int|
                    0 <= m < k && 0 <= i < 64 ==> self.covers(#[trigger] folded_digit(s[m], i)),
                forall|m: int| 0 <= m < k ==> (#[trigger] out[m])@ == rho(s)[m],
            decreases 25 - k,
        {
            assert(s[k as int] == state[k as int]@);
            match self.rotate_lane(&state[k], rotation_of(k)) {
                Some(lane) => {
                    out[k] = lane;
                },
                None => {
                    return Err(Error::TableMiss);
                },
            }
            k += 1;
        }
        assert(view_state(out) =~= rho(s));
        Ok(out)
    }
}

} // verus!
