//! The round controller: 24 rounds of theta, rho, pi and xi, with iota and
//! the conversion back to base 13 after all but the last, and the mixing
//! gate at the end.

use vstd::prelude::*;
use vstd::slice::slice_subrange;
use crate::arith_helpers::{
    decode_state_b13, encode_state, in_base, state_in_base, view_state, Lane, Lane13, Lane9,
};
use crate::common::{round_constant, NEXT_INPUTS_LANES, PERMUTATION};
use crate::correctness::{
    lemma_absorb, lemma_absorb_b9, lemma_absorbed_output_digits, lemma_binary_is_flat,
    lemma_decode_encode_state, lemma_finalize, lemma_in_base_widens, lemma_iota_b9, lemma_pi,
    lemma_rho, lemma_round_before_iota, lemma_rounds, lemma_state_in_base_widens, lemma_theta,
    lemma_theta_fits,
};
use crate::error::Error;
use crate::keccak_arith::{
    folded_digit, iota_b9, permutation, pi, rho, round, round_before_iota, rounds, theta,
    theta_fits,
};
use crate::permutation::add::AddConfig;
use crate::permutation::base_conversion::{converts_state, BaseConversionConfig};
use crate::permutation::flag::{is_boolean, FlagConfig};
use crate::permutation::iota::IotaConfig;
use crate::permutation::mixing::{mixing_before_conversion, MixingConfig};
use crate::permutation::pi::pi_gate_permutation;
use crate::permutation::rho::RhoConfig;
use crate::permutation::tables::FromBase9TableConfig;
use crate::permutation::theta::assign_theta;
use crate::permutation::witness::{RoundWitness, Witness};
use crate::permutation::xi::assign_xi;
use crate::plain;

verus! {

/// Where the round controller stands: about to run round `i`, or at the
/// mixing gate.
#[derive(Clone, Copy, Debug, PartialEq, Eq, Structural)]
pub enum Stage {
    /// About to run the round of this index, from 0 to 23.
    Round(usize),
    /// All rounds have run; the mixing gate is next and last.
    Mixing,
}

impl Stage {
    /// The stage that follows: the next round after each of the first 23
    /// rounds, the mixing gate after the last round and after itself.
    pub open spec fn successor(self) -> Stage {
        match self {
            Stage::Round(i) => if i < 23 {
                Stage::Round((i + 1) as usize)
            } else {
                Stage::Mixing
            },
            Stage::Mixing => Stage::Mixing,
        }
    }

    /// The round of this stage ends with iota and the conversion back to
    /// base 13: every round does but the last.
    pub open spec fn has_iota(self) -> bool {
        match self {
            Stage::Round(i) => i < 23,
            Stage::Mixing => false,
        }
    }

    /// The stage after `n` steps from the first.
    pub open spec fn after(n: nat) -> Stage
        decreases n,
    {
        if n == 0 {
            Stage::Round(0)
        } else {
            Stage::after((n - 1) as nat).successor()
        }
    }

    /// The controller walks through the rounds 0 to 23 in order and stays at
    /// the mixing gate from then on: no stage is entered twice.
    pub proof fn lemma_linear_progression(n: nat)
        ensures
            n < 24 ==> Stage::after(n) == Stage::Round(n as usize),
            n >= 24 ==> Stage::after(n) == Stage::Mixing,
        decreases n,
    {
        if n > 0 {
            Stage::lemma_linear_progression((n - 1) as nat);
        }
    }

    /// The stage in which the controller starts.
    pub fn first() -> (stage: Stage)
        ensures
            stage == Stage::Round(0),
    {
        Stage::Round(0)
    }

    /// The stage that follows.
    pub fn next(self) -> (stage: Stage)
        ensures
            stage == self.successor(),
    {
        match self {
            Stage::Round(i) => if i < PERMUTATION - 1 {
                Stage::Round(i + 1)
            } else {
                Stage::Mixing
            },
            Stage::Mixing => Stage::Mixing,
        }
    }

    /// Whether the round of this stage ends with iota and the conversion
    /// back to base 13.
    pub fn ends_with_iota(self) -> (yes: bool)
        ensures
            yes == self.has_iota(),
    {
        match self {
            Stage::Round(i) => i < PERMUTATION - 1,
            Stage::Mixing => false,
        }
    }
}

/// The engine: its parts, its lookup tables and the columns of the state.
#[derive(Debug)]
pub struct KeccakFConfig {
    add: AddConfig,
    rho_config: RhoConfig,
    iota_config: IotaConfig,
    from_b9_table: FromBase9TableConfig,
    base_conversion_config: BaseConversionConfig,
    mixing_config: MixingConfig,
    /// The 25 columns of the state.
    pub state: [usize; 25],
}

impl KeccakFConfig {
    #[verifier::type_invariant]
    spec fn tables_go_together(self) -> bool {
        ||| self.rho_config.is_loaded() && self.from_b9_table.is_loaded()
        ||| forall|d: int| !self.rho_config.covers(d)
    }

    /// Both lookup tables are filled.
    pub closed spec fn is_loaded(self) -> bool {
        self.rho_config.is_loaded() && self.from_b9_table.is_loaded()
    }

    /// The 25 columns of the state.
    pub closed spec fn state_columns(self) -> Seq<usize> {
        self.state@
    }

    /// The add gate.
    pub closed spec fn add_gate(self) -> AddConfig {
        self.add
    }

    /// The rotation.
    pub closed spec fn rho_gate(self) -> RhoConfig {
        self.rho_config
    }

    /// The conversion from base 9 to base 13.
    pub closed spec fn base_conversion_gate(self) -> BaseConversionConfig {
        self.base_conversion_config
    }

    /// The mixing gate.
    pub closed spec fn mixing_gate(self) -> MixingConfig {
        self.mixing_config
    }

    /// The reason for which the four steps of a round fail on the state `s`,
    /// if they do: first a lane that is no base-13 lane, then a sum of theta
    /// that has no row in the table of rho, because the table is empty or
    /// the sum has reached the radix.
    pub open spec fn round_failure(self, s: Seq<Seq<int>>) -> Option<Error> {
        if !state_in_base(s, 13) {
            Some(Error::MalformedWitness)
        } else if !(self.is_loaded() && theta_fits(s)) {
            Some(Error::TableMiss)
        } else {
            None
        }
    }

    /// The reason for which the permutation fails, if it does: that of the
    /// first round, or else a missing flag.
    pub open spec fn failure(self, s: Seq<Seq<int>>, flag: Option<bool>) -> Option<Error> {
        if self.round_failure(s) is Some {
            self.round_failure(s)
        } else if flag is None {
            Some(Error::Synthesis)
        } else {
            None
        }
    }

    /// The reason for which the relation between an input, a flag, a next
    /// block and a claimed output does not hold, if it does not: that of the
    /// first round, then a flag that is not boolean, then a claimed output
    /// that is not the output of the permutation.
    pub open spec fn relation_failure(
        self,
        s: Seq<Seq<int>>,
        flag: u64,
        next: Seq<Option<u64>>,
        claimed: Seq<Seq<int>>,
    ) -> Option<Error> {
        if self.round_failure(s) is Some {
            self.round_failure(s)
        } else if !is_boolean(flag as int) {
            Some(Error::NotBoolean)
        } else if claimed != permutation(s, flag == 1, next) {
            Some(Error::OutputMismatch)
        } else {
            None
        }
    }

    /// Wires the engine to the 25 advice columns of the state and to one
    /// fixed column, and declares its lookup tables, which stay empty until
    /// `load`. The add gate takes the first three columns, the flag the
    /// first, the base conversion the first two.
    ///
    /// Fails with `Misconfigured` exactly when `state` is not 25 columns.
    pub fn configure(state: &[usize], fixed: usize) -> (res: Result<Self, Error>)
        ensures
            match res {
                Ok(config) => {
                    &&& state@.len() == 25
                    &&& config.state_columns() == state@
                    &&& !config.is_loaded()
                    &&& config.add_gate().input@ == state@.subrange(0, 3)
                    &&& config.add_gate().fixed == fixed
                    &&& config.rho_gate().state@ == state@
                    &&& config.rho_gate().fixed == fixed
                    &&& config.rho_gate().add == config.add_gate()
                    &&& config.base_conversion_gate().input_lane == state@[0]
                    &&& config.base_conversion_gate().output_lane == state@[1]
                    &&& config.mixing_gate().flag.flag == state@[0]
                    &&& config.mixing_gate().state@ == state@
                    &&& config.mixing_gate().base_conv_config == config.base_conversion_gate()
                    &&& config.mixing_gate().absorb_config.add == config.add_gate()
                    &&& config.mixing_gate().iota_config.add() == config.add_gate()
                },
                Err(e) => e == Error::Misconfigured && state@.len() != 25,
            },
    {
        if state.len() != 25 {
            return Err(Error::Misconfigured);
        }
        let mut columns: [usize; 25] = [0usize;25];
        let mut i: usize = 0;
        while i < 25
            invariant
                i <= 25,
                state@.len() == 25,
                forall|j: int| 0 <= j < i ==> columns[j] == state@[j],
            decreases 25 - i,
        {
            columns[i] = state[i];
            i += 1;
        }
        assert(columns@ =~= state@);
        let add = match AddConfig::configure(slice_subrange(state, 0, 3), fixed) {
            Ok(add) => add,
            Err(e) => {
                return Err(e);
            },
        };
        let flag = FlagConfig::configure(state[0]);
        let rho_config = RhoConfig::configure(columns, fixed, add);
        let iota_config = IotaConfig::configure(add);
        let from_b9_table = FromBase9TableConfig::configure();
        let base_conversion_config = match BaseConversionConfig::configure(
            slice_subrange(state, 0, 2),
        ) {
            Ok(config) => config,
            Err(e) => {
                return Err(e);
            },
        };
        let mixing_config = MixingConfig::configure(
            iota_config,
            add,
            base_conversion_config,
            columns,
            flag,
        );
        let config = KeccakFConfig {
            add,
            rho_config,
            iota_config,
            from_b9_table,
            base_conversion_config,
            mixing_config,
            state: columns,
        };
        proof {
            assert(!config.rho_config.covers(0));
            config.rho_config.lemma_unloaded(0);
        }
        Ok(config)
    }

    /// Fills both lookup tables: one row for each of the 13 digits of base
    /// 13, one for each of the 9 digits of base 9.
    pub fn load(&mut self)
        ensures
            final(self).is_loaded(),
            final(self).state_columns() == old(self).state_columns(),
            final(self).add_gate() == old(self).add_gate(),
            final(self).rho_gate().state == old(self).rho_gate().state,
            final(self).rho_gate().fixed == old(self).rho_gate().fixed,
            final(self).rho_gate().add == old(self).rho_gate().add,
            final(self).base_conversion_gate() == old(self).base_conversion_gate(),
            final(self).mixing_gate() == old(self).mixing_gate(),
    {
        let mut rho_config = RhoConfig::configure(
            self.rho_config.state,
            self.rho_config.fixed,
            self.rho_config.add,
        );
        rho_config.load();
        let mut from_b9_table = FromBase9TableConfig::configure();
        from_b9_table.load();
        *self = KeccakFConfig {
            add: self.add,
            rho_config,
            iota_config: self.iota_config,
            from_b9_table,
            base_conversion_config: self.base_conversion_config,
            mixing_config: self.mixing_config,
            state: self.state,
        };
    }
}

impl Clone for KeccakFConfig {
    /// An engine with the same wiring and tables in the same state.
    fn clone(&self) -> (config: Self)
        ensures
            config.is_loaded() == self.is_loaded(),
            config.state_columns() == self.state_columns(),
            config.add_gate() == self.add_gate(),
            config.base_conversion_gate() == self.base_conversion_gate(),
            config.mixing_gate() == self.mixing_gate(),
    {
        proof {
            use_type_invariant(self);
        }
        let rho_config = self.rho_config.clone();
        let from_b9_table = self.from_b9_table.clone();
        proof {
            assert(forall|d: int| rho_config.covers(d) == self.rho_config.covers(d));
            assert(rho_config.is_loaded() == self.rho_config.is_loaded());
            assert(from_b9_table.is_loaded() == self.from_b9_table.is_loaded());
        }
        KeccakFConfig {
            add: self.add,
            rho_config,
            iota_config: self.iota_config,
            from_b9_table,
            base_conversion_config: self.base_conversion_config,
            mixing_config: self.mixing_config,
            state: self.state,
        }
    }
}

/// A loaded table converts every state of base-9 lanes.
pub proof fn lemma_loaded_table_converts(table: FromBase9TableConfig, s: Seq<Seq<int>>)
    requires
        table.is_loaded(),
        state_in_base(s, 9),
    ensures
        converts_state(table, s),
{
    assert forall|k: int| 0 <= k < 25 implies table.converts_lane(#[trigger] s[k]) by {
        assert(in_base(s[k], 9));
        assert forall|i: int| 0 <= i < 65 implies table.domain().contains(#[trigger] s[k][i]) by {
            if i < 64 {
                assert(0 <= s[k][i] < 9);
            }
        }
    }
}

impl KeccakFConfig {
    /// A loaded engine does not fail on a state of binary digits, nor on one
    /// whose lane `(0, 0)` has digits up to 2, as an absorbing permutation
    /// leaves it.
    pub proof fn lemma_accepts_own_output(self, s: Seq<Seq<int>>)
        requires
            self.is_loaded(),
            state_in_base(s, 3),
            forall|k: int| 1 <= k < 25 ==> in_base(#[trigger] s[k], 2),
        ensures
            self.round_failure(s) is None,
    {
        lemma_theta_fits(s);
        lemma_state_in_base_widens(s, 3, 13);
    }

    /// A loaded engine does not fail on the output of a permutation, with or
    /// without the flag: permutations can be chained.
    pub proof fn lemma_accepts_any_output(
        self,
        s: Seq<Seq<int>>,
        flag: bool,
        next: Seq<Option<u64>>,
    )
        requires
            self.is_loaded(),
            state_in_base(s, 13),
        ensures
            self.round_failure(permutation(s, flag, next)) is None,
    {
        lemma_binary_is_flat(s, 13);
        if flag {
            lemma_absorbed_output_digits(s, next);
        } else {
            lemma_finalize(s, next);
            lemma_rounds(s, 24);
            lemma_state_in_base_widens(permutation(s, flag, next), 2, 3);
        }
        self.lemma_accepts_own_output(permutation(s, flag, next));
    }

    /// A loaded engine does not fail on the encoding of any 25 words.
    pub proof fn lemma_accepts_words(self, a: Seq<u64>, flag: bool)
        requires
            self.is_loaded(),
            a.len() == 25,
        ensures
            self.round_failure(encode_state(a)) is None,
            self.failure(encode_state(a), Some(flag)) is None,
    {
        lemma_decode_encode_state(a);
        lemma_state_in_base_widens(encode_state(a), 2, 3);
        self.lemma_accepts_own_output(encode_state(a));
    }

    /// The relation holds of no flag but 0 and 1.
    pub proof fn lemma_relation_wants_boolean_flag(
        self,
        s: Seq<Seq<int>>,
        flag: u64,
        next: Seq<Option<u64>>,
        claimed: Seq<Seq<int>>,
    )
        requires
            self.relation_failure(s, flag, next, claimed) is None,
        ensures
            flag == 0 || flag == 1,
    {
        crate::permutation::flag::lemma_boolean_values(flag as int);
    }

    /// On an input that the engine does not refuse, and with a boolean
    /// flag, the relation holds of the output of the permutation and of no
    /// other claimed state.
    pub proof fn lemma_relation_holds_of_the_output_only(
        self,
        s: Seq<Seq<int>>,
        flag: bool,
        next: Seq<Option<u64>>,
        claimed: Seq<Seq<int>>,
    )
        requires
            self.round_failure(s) is None,
        ensures
            self.relation_failure(
                s,
                if flag {
                    1
                } else {
                    0
                },
                next,
                claimed,
            ) is None <==> claimed == permutation(s, flag, next),
            claimed != permutation(s, flag, next) ==> self.relation_failure(
                s,
                if flag {
                    1
                } else {
                    0
                },
                next,
                claimed,
            ) == Some(Error::OutputMismatch),
    {
        crate::permutation::flag::lemma_boolean_values(1);
        crate::permutation::flag::lemma_boolean_values(0);
    }

    /// Theta, rho, pi and xi on a state in base 13; the output is in base 9.
    ///
    /// Fails as `round_failure` says, and only then.
    pub fn assign_round_before_iota(&self, state: &[Lane13; 25]) -> (res: Result<
        [Lane9; 25],
        Error,
    >)
        ensures
            match res {
                Ok(out) => self.round_failure(view_state(*state)) is None && view_state(out)
                    == round_before_iota(view_state(*state)),
                Err(e) => self.round_failure(view_state(*state)) == Some(e),
            },
    {
        match self.assign_last_round_with_witness(state) {
            Ok(witness) => Ok(witness.after_xi),
            Err(e) => Err(e),
        }
    }

    /// Theta, rho, pi and xi on a state in base 13, with the state after
    /// each of them: the round that has no iota.
    ///
    /// Fails as `round_failure` says, and only then.
    pub fn assign_last_round_with_witness(&self, state: &[Lane13; 25]) -> (res: Result<
        RoundWitness,
        Error,
    >)
        ensures
            match res {
                Ok(witness) => self.round_failure(view_state(*state)) is None
                    && witness.is_of(view_state(*state), None),
                Err(e) => self.round_failure(view_state(*state)) == Some(e),
            },
    {
        proof {
            use_type_invariant(self);
        }
        let ghost s = view_state(*state);
        let after_theta = match assign_theta(state) {
            Ok(out) => out,
            Err(e) => {
                return Err(e);
            },
        };
        proof {
            if self.is_loaded() && theta_fits(s) {
                assert forall|k: int, i: int| 0 <= k < 25 && 0 <= i < 64 implies 
                    self.rho_config.covers(#[trigger] folded_digit(theta(s)[k], i)) by {
                    self.rho_config.lemma_loaded_covers(folded_digit(theta(s)[k], i));
                }
            }
        }
        let after_rho = match self.rho_config.assign_rotation_checks(&after_theta) {
            Ok(out) => out,
            Err(e) => {
                return Err(e);
            },
        };
        proof {
            assert(self.rho_config.covers(folded_digit(theta(s)[0], 0)));
            assert(self.is_loaded());
            assert forall|k: int, i: int| 0 <= k < 25 && 0 <= i < 64 implies 0
                <= #[trigger] folded_digit(theta(s)[k], i) < 13 by {
                self.rho_config.lemma_loaded_covers(folded_digit(theta(s)[k], i));
            }
            lemma_binary_is_flat(s, 13);
            lemma_theta(s);
            lemma_rho(theta(s));
            lemma_pi(rho(theta(s)), 2);
            lemma_state_in_base_widens(pi(rho(theta(s))), 2, 9);
        }
        let after_pi = pi_gate_permutation(&after_rho);
        match assign_xi(&after_pi) {
            Ok(after_xi) => Ok(
                RoundWitness { after_theta, after_rho, after_pi, after_xi, after_iota: None },
            ),
            Err(e) => Err(e),
        }
    }

    /// One whole round: the four steps, iota with the constant of round
    /// `round_idx` in base 9, and the conversion back to base 13.
    ///
    /// Fails as `round_failure` says, and only then.
    pub fn assign_round(&self, state: &[Lane13; 25], round_idx: usize) -> (res: Result<
        [Lane13; 25],
        Error,
    >)
        requires
            round_idx < PERMUTATION,
        ensures
            match res {
                Ok(out) => self.round_failure(view_state(*state)) is None && view_state(out)
                    == round(view_state(*state), round_idx as int),
                Err(e) => self.round_failure(view_state(*state)) == Some(e),
            },
    {
        match self.assign_round_with_witness(state, round_idx) {
            Ok((_, out)) => Ok(out),
            Err(e) => Err(e),
        }
    }

    /// One whole round, with the state after each of its steps next to its
    /// output.
    ///
    /// Fails as `round_failure` says, and only then.
    pub fn assign_round_with_witness(&self, state: &[Lane13; 25], round_idx: usize) -> (res:
        Result<(RoundWitness, [Lane13; 25]), Error>)
        requires
            round_idx < PERMUTATION,
        ensures
            match res {
                Ok((witness, out)) => self.round_failure(view_state(*state)) is None
                    && witness.is_of(
                    view_state(*state),
                    Some(round_constant(round_idx as int)),
                ) && view_state(out) == round(view_state(*state), round_idx as int),
                Err(e) => self.round_failure(view_state(*state)) == Some(e),
            },
    {
        proof {
            use_type_invariant(self);
        }
        let ghost s = view_state(*state);
        let ghost rc = round_constant(round_idx as int);
        let steps = match self.assign_last_round_with_witness(state) {
            Ok(steps) => steps,
            Err(e) => {
                return Err(e);
            },
        };
        let before_iota = steps.after_xi;
        proof {
            lemma_binary_is_flat(s, 13);
            lemma_round_before_iota(s);
            lemma_iota_b9(round_before_iota(s), rc);
            lemma_in_base_widens(round_before_iota(s)[0], 7, 9);
            lemma_loaded_table_converts(self.from_b9_table, iota_b9(round_before_iota(s), rc));
            assert(before_iota[0]@ == view_state(before_iota)[0]);
        }
        match self.iota_config.assign_round_b9(&before_iota[0], round_idx) {
            Ok(lane) => {
                let mut after_iota: [Lane9; 25] = before_iota;
                after_iota[0] = lane;
                assert(view_state(after_iota) =~= iota_b9(round_before_iota(s), rc));
                match self.base_conversion_config.assign_state(
                    &self.from_b9_table,
                    &after_iota,
                ) {
                    Ok(out) => Ok(
                        (
                            RoundWitness {
                                after_theta: steps.after_theta,
                                after_rho: steps.after_rho,
                                after_pi: steps.after_pi,
                                after_xi: steps.after_xi,
                                after_iota: Some(after_iota),
                            },
                            out,
                        ),
                    ),
                    Err(e) => Err(e),
                }
            },
            Err(e) => Err(e),
        }
    }

    /// The first `n` whole rounds, for any `n` up to 24.
    ///
    /// Fails as `round_failure` says of the input, and only then; with
    /// `n == 0` the input comes back as it is.
    pub fn assign_rounds(&self, in_state: &[Lane13; 25], n: usize) -> (res: Result<
        [Lane13; 25],
        Error,
    >)
        requires
            n <= PERMUTATION,
        ensures
            match res {
                Ok(out) => (n > 0 ==> self.round_failure(view_state(*in_state)) is None)
                    && view_state(out) == rounds(view_state(*in_state), n as int),
                Err(e) => n > 0 && self.round_failure(view_state(*in_state)) == Some(e),
            },
            res is Ok && n > 0 ==> decode_state_b13(view_state(res->Ok_0)) == plain::rounds(
                decode_state_b13(view_state(*in_state)),
                n as int,
            ),
    {
        let ghost s = view_state(*in_state);
        proof {
            if n > 0 && state_in_base(s, 13) {
                lemma_binary_is_flat(s, 13);
                lemma_rounds(s, n as int);
            }
        }
        let mut state: [Lane13; 25] = *in_state;
        let mut round_idx: usize = 0;
        while round_idx < n
            invariant
                round_idx <= n <= PERMUTATION,
                s == view_state(*in_state),
                view_state(state) == rounds(s, round_idx as int),
                round_idx > 0 ==> self.round_failure(s) is None,
            decreases n - round_idx,
        {
            proof {
                if round_idx > 0 {
                    lemma_binary_is_flat(s, 13);
                    lemma_rounds(s, round_idx as int);
                    lemma_state_in_base_widens(rounds(s, round_idx as int), 2, 3);
                    self.lemma_accepts_own_output(rounds(s, round_idx as int));
                }
            }
            match self.assign_round(&state, round_idx) {
                Ok(out) => {
                    state = out;
                },
                Err(e) => {
                    return Err(e);
                },
            }
            round_idx += 1;
        }
        Ok(state)
    }

    /// The whole permutation: 23 rounds, the four steps of the last round,
    /// and the mixing gate, which finalizes without the flag and absorbs
    /// `next_mixing` with it.
    ///
    /// Fails as `failure` says, and only then.
    pub fn assign_all(
        &self,
        in_state: [Lane13; 25],
        flag: Option<bool>,
        next_mixing: [Option<u64>; NEXT_INPUTS_LANES],
    ) -> (res: Result<[Lane13; 25], Error>)
        ensures
            match res {
                Ok(out) => self.failure(view_state(in_state), flag) is None && view_state(out)
                    == permutation(view_state(in_state), flag->0, next_mixing@),
                Err(e) => self.failure(view_state(in_state), flag) == Some(e),
            },
            res is Ok ==> decode_state_b13(view_state(res->Ok_0)) == (if flag->0 {
                plain::absorb(
                    plain::keccak_f(decode_state_b13(view_state(in_state))),
                    next_mixing@,
                )
            } else {
                plain::keccak_f(decode_state_b13(view_state(in_state)))
            }),
    {
        let ghost s = view_state(in_state);
        proof {
            if state_in_base(s, 13) && flag is Some {
                lemma_binary_is_flat(s, 13);
                if flag->0 {
                    lemma_absorb(s, next_mixing@);
                } else {
                    lemma_finalize(s, next_mixing@);
                    lemma_decode_encode_state(plain::keccak_f(decode_state_b13(s)));
                    plain::lemma_rounds_len(decode_state_b13(s), 24);
                }
            }
        }
        match self.assign_witness(in_state, flag, next_mixing) {
            Ok(witness) => Ok(witness.out_state),
            Err(e) => Err(e),
        }
    }

    /// The whole permutation, with every state that it passes through: the
    /// state before each round, the states inside each round and inside the
    /// mixing gate, and the output.
    ///
    /// Fails as `failure` says, and only then.
    pub fn assign_witness(
        &self,
        in_state: [Lane13; 25],
        flag: Option<bool>,
        next_mixing: [Option<u64>; NEXT_INPUTS_LANES],
    ) -> (res: Result<Witness, Error>)
        ensures
            match res {
                Ok(witness) => self.failure(view_state(in_state), flag) is None
                    && witness.is_of(view_state(in_state), flag->0, next_mixing@),
                Err(e) => self.failure(view_state(in_state), flag) == Some(e),
            },
    {
        proof {
            use_type_invariant(self);
        }
        let ghost s = view_state(in_state);
        let mut state: [Lane13; 25] = in_state;
        let mut states: Vec<[Lane13; 25]> = Vec::new();
        let mut round_witnesses: Vec<RoundWitness> = Vec::new();
        let mut before_mixing: [Lane9; 25] = [Lane9::zero();25];
        let mut stage = Stage::first();
        loop
            invariant_except_break
                stage matches Stage::Round(i) && i < PERMUTATION && view_state(state) == rounds(
                    s,
                    i as int,
                ) && (i > 0 ==> self.round_failure(s) is None) && states@.len() == i
                    && round_witnesses@.len() == i,
            invariant
                s == view_state(in_state),
                states@.len() == round_witnesses@.len(),
                states@.len() <= 24,
                forall|j: int|
                    0 <= j < states@.len() ==> view_state(#[trigger] states@[j]) == rounds(s, j),
                forall|j: int|
                    0 <= j < round_witnesses@.len() ==> (#[trigger] round_witnesses@[j]).is_of(
                        rounds(s, j),
                        Witness::iota_constant(j),
                    ),
            ensures
                self.round_failure(s) is None,
                states@.len() == 24,
                view_state(before_mixing) == round_before_iota(rounds(s, 23)),
            decreases
                    (match stage {
                        Stage::Round(i) => PERMUTATION - i,
                        Stage::Mixing => 0,
                    }),
        {
            let round_idx: usize = match stage {
                Stage::Round(i) => i,
                Stage::Mixing => {
                    break ;
                },
            };
            proof {
                if round_idx > 0 {
                    lemma_binary_is_flat(s, 13);
                    lemma_rounds(s, round_idx as int);
                    lemma_state_in_base_widens(rounds(s, round_idx as int), 2, 3);
                    self.lemma_accepts_own_output(rounds(s, round_idx as int));
                }
            }
            states.push(state);
            if stage.ends_with_iota() {
                match self.assign_round_with_witness(&state, round_idx) {
                    Ok((witness, out)) => {
                        round_witnesses.push(witness);
                        state = out;
                    },
                    Err(e) => {
                        return Err(e);
                    },
                }
                stage = stage.next();
            } else {
                // The last round hands the output of xi to the mixing gate.
                match self.assign_last_round_with_witness(&state) {
                    Ok(witness) => {
                        round_witnesses.push(witness);
                        before_mixing = witness.after_xi;
                    },
                    Err(e) => {
                        return Err(e);
                    },
                }
                break ;
            }
        }
        proof {
            let r = rounds(s, 23);
            let x = round_before_iota(r);
            lemma_binary_is_flat(s, 13);
            lemma_rounds(s, 23);
            lemma_round_before_iota(r);
            lemma_state_in_base_widens(x, 7, 9);
            if flag is Some {
                if flag->0 {
                    lemma_absorb_b9(x, next_mixing@);
                } else {
                    lemma_iota_b9(x, round_constant(23));
                }
                lemma_loaded_table_converts(
                    self.from_b9_table,
                    mixing_before_conversion(x, flag->0, next_mixing@),
                );
            }
        }
        match self.mixing_config.assign_state_with_witness(
            &self.from_b9_table,
            &before_mixing,
            flag,
            &next_mixing,
        ) {
            Ok((mixing, out_state)) => Ok(
                Witness { states, rounds: round_witnesses, mixing, out_state },
            ),
            Err(e) => Err(e),
        }
    }

    /// Whether `out_state` is the output of the permutation on `in_state`
    /// under the flag whose value is `flag`: the relation that a claimed
    /// output has to satisfy.
    ///
    /// Fails as `relation_failure` says, and only then.
    pub fn verify(
        &self,
        in_state: [Lane13; 25],
        flag: u64,
        next_mixing: [Option<u64>; NEXT_INPUTS_LANES],
        out_state: [Lane13; 25],
    ) -> (res: Result<(), Error>)
        ensures
            match res {
                Ok(()) => self.relation_failure(
                    view_state(in_state),
                    flag,
                    next_mixing@,
                    view_state(out_state),
                ) is None,
                Err(e) => self.relation_failure(
                    view_state(in_state),
                    flag,
                    next_mixing@,
                    view_state(out_state),
                ) == Some(e),
            },
    {
        // The rounds do not depend on the flag: where the flag is refused,
        // the permutation still runs, so that a refusal of the input is
        // reported before that of the flag.
        let constrained = self.mixing_config.flag.constrain(flag);
        let is_mixing = match constrained {
            Ok(is_mixing) => is_mixing,
            Err(_) => false,
        };
        let out = match self.assign_all(in_state, Some(is_mixing), next_mixing) {
            Ok(out) => out,
            Err(e) => {
                return Err(e);
            },
        };
        match constrained {
            Ok(_) => {
                if same_state(&out, &out_state) {
                    Ok(())
                } else {
                    Err(Error::OutputMismatch)
                }
            },
            Err(e) => Err(e),
        }
    }
}

/// Whether two states have the same digits.
pub fn same_state<const BASE: u8>(a: &[Lane<BASE>; 25], b: &[Lane<BASE>; 25]) -> (same: bool)
    ensures
        same == (view_state(*a) == view_state(*b)),
        same == (*a == *b),
{
    let mut k: usize = 0;
    while k < 25
        invariant
            k <= 25,
            forall|j: int| 0 <= j < k ==> a[j] == b[j],
        decreases 25 - k,
    {
        if !a[k].same_digits(&b[k]) {
            assert(view_state(*a)[k as int] == a[k as int]@);
            assert(view_state(*b)[k as int] == b[k as int]@);
            return false;
        }
        k += 1;
    }
    proof {
        assert(*a =~= *b);
    }
    true
}

} // verus!
