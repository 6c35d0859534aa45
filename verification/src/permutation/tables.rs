//! Lookup tables from the digits of a redundant radix to the bit they stand for.
//!
//! A table is declared empty and filled by `load`. A digit is converted by
//! finding its row; a digit without a row cannot be converted.

use vstd::prelude::*;
use crate::arith_helpers::{b13_coef, b9_coef, convert_b13_coef, convert_b9_coef, Lane, B13};

verus! {

/// The bit that digit `d` of radix `base` stands for: its parity in base 13,
/// the second bit of the digit in base 9.
pub open spec fn digit_coef(base: int, d: int) -> int {
    if base == 13 {
        b13_coef(d)
    } else {
        b9_coef(d)
    }
}

/// The bit that digit `d` of radix `base` stands for.
pub fn convert_coef(base: u8, d: u8) -> (b: u8)
    requires
        d < base,
        base == 13 || base == 9,
    ensures
        b == digit_coef(base as int, d as int),
        b <= 1,
{
    if base == B13 {
        convert_b13_coef(d)
    } else {
        convert_b9_coef(d)
    }
}

/// Rows `(digit, bit)` for digits of radix `BASE`, which is 13 or 9.
#[derive(Debug)]
pub struct LookupTable<const BASE: u8> {
    inputs: Vec<u8>,
    outputs: Vec<u8>,
}

/// The table that takes the output of theta from base 13 to base 9.
pub type Base13toBase9TableConfig = LookupTable<13>;

/// The table that takes the output of xi and iota from base 9 to base 13.
pub type FromBase9TableConfig = LookupTable<9>;

impl<const BASE: u8> Clone for LookupTable<BASE> {
    /// A table with the same rows.
    fn clone(&self) -> (table: Self)
        ensures
            table.domain() == self.domain(),
    {
        proof {
            use_type_invariant(self);
        }
        let table = LookupTable { inputs: self.inputs.clone(), outputs: self.outputs.clone() };
        assert(table.inputs@ =~= self.inputs@);
        assert(table.outputs@ =~= self.outputs@);
        assert(table.domain() =~= self.domain());
        table
    }
}

impl<const BASE: u8> LookupTable<BASE> {
    #[verifier::type_invariant]
    spec fn rows_are_sound(self) -> bool {
        &&& self.inputs.len() == self.outputs.len()
        &&& forall|k: int|
            0 <= k < self.inputs.len() ==> {
                &&& (#[trigger] self.inputs[k]) < BASE
                &&& self.outputs[k] <= 1
                &&& self.outputs[k] as int == digit_coef(BASE as int, self.inputs[k] as int)
            }
    }

    /// The digits that have a row.
    pub closed spec fn domain(self) -> Set<int> {
        Set::new(|d: int| exists|k: int| 0 <= k < self.inputs.len() && self.inputs[k] as int == d)
    }

    /// The rows are exactly those of the digits of the radix.
    pub open spec fn is_loaded(self) -> bool {
        forall|d: int| self.domain().contains(d) <==> 0 <= d < BASE
    }

    /// Every digit of the lane, the overhang included, has a row.
    pub open spec fn converts_lane(self, l: Seq<int>) -> bool {
        forall|i: int| 0 <= i < 65 ==> self.domain().contains(#[trigger] l[i])
    }

    /// An empty table.
    pub fn configure() -> (table: Self)
        ensures
            table.domain() == Set::<int>::empty(),
    {
        let table = LookupTable { inputs: Vec::new(), outputs: Vec::new() };
        assert(table.domain() =~= Set::<int>::empty());
        table
    }

    /// Fills the table with one row for every digit of its radix.
    pub fn load(&mut self)
        requires
            BASE == 13 || BASE == 9,
        ensures
            final(self).is_loaded(),
    {
        let mut inputs: Vec<u8> = Vec::new();
        let mut outputs: Vec<u8> = Vec::new();
        let mut d: u8 = 0;
        while d < BASE
            invariant
                BASE == 13 || BASE == 9,
                d <= BASE,
                inputs.len() == d,
                outputs.len() == d,
                forall|k: int| 0 <= k < d ==> (#[trigger] inputs[k]) as int == k,
                forall|k: int|
                    0 <= k < d ==> (#[trigger] outputs[k]) as int == digit_coef(BASE as int, k)
                        && outputs[k] <= 1,
            decreases BASE - d,
        {
            let out: u8 = convert_coef(BASE, d);
            inputs.push(d);
            outputs.push(out);
            d += 1;
        }
        *self = LookupTable { inputs, outputs };
        proof {
            assert forall|e: int| 0 <= e < BASE implies self.domain().contains(e) by {
                assert(self.inputs[e] as int == e);
            }
        }
    }

    /// The bit of digit `d`, if the digit has a row.
    pub fn lookup(&self, d: u16) -> (out: Option<u8>)
        ensures
            out is Some <==> self.domain().contains(d as int),
            out is Some ==> out->0 as int == digit_coef(BASE as int, d as int),
            out is Some ==> out->0 <= 1 && d < BASE,
    {
        proof {
            use_type_invariant(self);
        }
        let mut k: usize = 0;
        while k < self.inputs.len()
            invariant
                k <= self.inputs.len(),
                self.rows_are_sound(),
                forall|j: int| 0 <= j < k ==> self.inputs[j] as int != d as int,
            decreases self.inputs.len() - k,
        {
            if self.inputs[k] as u16 == d {
                return Some(self.outputs[k]);
            }
            k += 1;
        }
        None
    }

    /// The lane with every digit replaced by its bit, if every digit has a
    /// row.
    pub fn convert_lane<const TO: u8>(&self, lane: &Lane<BASE>) -> (out: Option<Lane<TO>>)
        ensures
            out is Some <==> self.converts_lane(lane@),
            out is Some ==> forall|i: int|
                0 <= i < 65 ==> (#[trigger] out->0@[i]) == digit_coef(BASE as int, lane@[i]),
    {
        let mut digits: [u8; 65] = [0u8;65];
        let mut i: usize = 0;
        while i < 65
            invariant
                i <= 65,
                forall|j: int| 0 <= j < i ==> self.domain().contains(#[trigger] lane@[j]),
                forall|j: int|
                    0 <= j < i ==> digits[j] as int == digit_coef(BASE as int, lane@[j]),
            decreases 65 - i,
        {
            assert(lane@[i as int] == lane.digits[i as int]);
            match self.lookup(lane.digits[i] as u16) {
                Some(b) => {
                    digits[i] = b;
                },
                None => {
                    return None;
                },
            }
            i += 1;
        }
        let out = Lane { digits };
        assert forall|j: int| 0 <= j < 65 implies (#[trigger] out@[j]) == digit_coef(
            BASE as int,
            lane@[j],
        ) by {
            assert(out@[j] == digits[j] as int);
        }
        Some(out)
    }
}

} // verus!
