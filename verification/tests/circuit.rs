use keccak256::arith_helpers::{
    convert_b13_state_to_b2, convert_b2_state_to_b13, convert_b2_to_b13, Lane13,
};
use keccak256::common::{NEXT_INPUTS_LANES, ROUND_CONSTANTS};
use keccak256::error::Error;
use keccak256::permutation::circuit::{KeccakFConfig, Stage};
use keccak256::permutation::pi::pi_gate_permutation;
use keccak256::permutation::theta::assign_theta;
use keccak256::permutation::xi::assign_xi;
use keccak256::plain;

fn columns() -> Vec<usize> {
    (0..25).collect()
}

fn loaded_config() -> KeccakFConfig {
    let mut config = KeccakFConfig::configure(&columns(), 0).unwrap();
    config.load();
    config
}

fn single_bit_words() -> [u64; 25] {
    let mut words = [0u64; 25];
    words[0] = 1;
    words
}

fn next_block_with_bit_1() -> [Option<u64>; NEXT_INPUTS_LANES] {
    let mut next = [Some(0u64); NEXT_INPUTS_LANES];
    next[0] = Some(2);
    next
}

// Keccak-f[1600] of the state whose only set bit is bit 0 of lane (0, 0).
const PERMUTED_SINGLE_BIT: [u64; 25] = [
    0xE2A944396F0B13C6, 0x25B8444D0AEA8B74, 0x23FBED32ED720767, 0x0BCA1B8D9D0D82FC,
    0x333256C252840104, 0x70FEC06CEB0B06C4, 0x9396EF8130F1BE5C, 0xAC2329D693B10D76,
    0xE2AD33926D474C63, 0x9F111FAA6A08D2E5, 0x721DFC5018F27A42, 0x87A98F12B6AD542C,
    0x493D4A7A941B2026, 0x6A5415A4EBED8DFE, 0x6D1F6A874F916FEB, 0x64A2AF57149F7096,
    0x727078041F4F63F7, 0x700069B797E2F86C, 0xED6A86E4FECBAC62, 0xF716AE69D3A57F06,
    0xD3BC0B3F2712E2E6, 0x92CBEC3174D6F74A, 0x95D8E3AEE6FC4B8C, 0xD86E73C1B945A137,
    0xF5A843755D5374AF,
];

#[test]
fn test_keccak_round() {
    let config = loaded_config();
    let in_state = convert_b2_state_to_b13(&single_bit_words());
    let next_input = next_block_with_bit_1();

    let out_state_non_mix =
        convert_b2_state_to_b13(&plain::permute_and_absorb(&single_bit_words(), None));
    let out_state_mix = config.assign_all(in_state, Some(true), next_input).unwrap();

    // Without a next block the permutation ends with the deferred iota.
    {
        assert_eq!(
            config.verify(in_state, 0, [None; NEXT_INPUTS_LANES], out_state_non_mix),
            Ok(())
        );
        // A wrong input with the same claimed output does not pass.
        assert!(config
            .verify(out_state_non_mix, 1, [None; NEXT_INPUTS_LANES], out_state_non_mix)
            .is_err());
    }

    // With a next block the permutation ends with absorb, conversion, iota.
    {
        assert_eq!(config.verify(in_state, 1, next_input, out_state_mix), Ok(()));
        assert!(config
            .verify(out_state_non_mix, 1, next_input, out_state_non_mix)
            .is_err());
    }
}

#[test]
fn finalize_of_single_bit_is_keccak_f() {
    let config = loaded_config();
    let in_state = convert_b2_state_to_b13(&single_bit_words());
    let out = config
        .assign_all(in_state, Some(false), [None; NEXT_INPUTS_LANES])
        .unwrap();
    assert_eq!(convert_b13_state_to_b2(&out), PERMUTED_SINGLE_BIT);
    assert_eq!(out, convert_b2_state_to_b13(&PERMUTED_SINGLE_BIT));
}

#[test]
fn finalize_ignores_the_next_block() {
    let config = loaded_config();
    let in_state = convert_b2_state_to_b13(&single_bit_words());
    let without = config
        .assign_all(in_state, Some(false), [None; NEXT_INPUTS_LANES])
        .unwrap();
    let with = config
        .assign_all(in_state, Some(false), [Some(u64::MAX); NEXT_INPUTS_LANES])
        .unwrap();
    assert_eq!(without, with);
}

#[test]
fn absorb_of_bit_1_into_single_bit() {
    let config = loaded_config();
    let in_state = convert_b2_state_to_b13(&single_bit_words());
    let out = config
        .assign_all(in_state, Some(true), next_block_with_bit_1())
        .unwrap();
    let words = convert_b13_state_to_b2(&out);
    assert_eq!(words[0], PERMUTED_SINGLE_BIT[0] ^ 2);
    assert_eq!(words[0], 0xE2A944396F0B13C4);
    assert_eq!(&words[1..], &PERMUTED_SINGLE_BIT[1..]);
    // Undoing the last iota shows bit 1 absorbed into the output of xi.
    let before_iota = PERMUTED_SINGLE_BIT[0] ^ ROUND_CONSTANTS[23];
    assert_eq!(words[0] ^ ROUND_CONSTANTS[23], before_iota ^ 2);
    // Lane (0, 0) keeps the constant as a second summand: where the absorbed
    // bit and the bit of the constant are both set, the digit is 2.
    let absorbed = before_iota ^ 2;
    for i in 0..64 {
        let expected = ((absorbed >> i) & 1) + ((ROUND_CONSTANTS[23] >> i) & 1);
        assert_eq!(out[0].digits[i] as u64, expected);
    }
    assert_eq!(out[0].digits[64], 0);
    for k in 1..25 {
        assert_eq!(out[k], convert_b2_to_b13(PERMUTED_SINGLE_BIT[k]));
    }
}

#[test]
fn absorb_mixes_all_17_lanes_and_no_other() {
    let config = loaded_config();
    let mut words = [0u64; 25];
    for k in 0..25 {
        words[k] = 0x0123_4567_89AB_CDEF_u64.rotate_left(k as u32) ^ (k as u64);
    }
    let mut next = [None; NEXT_INPUTS_LANES];
    for k in 0..NEXT_INPUTS_LANES {
        next[k] = Some(0xFEDC_BA98_7654_3210_u64.wrapping_mul(k as u64 + 1));
    }
    let permuted = plain::permute(&words);
    let out = config
        .assign_all(convert_b2_state_to_b13(&words), Some(true), next)
        .unwrap();
    let got = convert_b13_state_to_b2(&out);
    for k in 0..25 {
        if k < NEXT_INPUTS_LANES {
            assert_eq!(got[k], permuted[k] ^ next[k].unwrap());
        } else {
            assert_eq!(got[k], permuted[k]);
        }
    }
    assert_eq!(got, plain::permute_and_absorb(&words, Some(&next)));
}

#[test]
fn absent_next_lanes_are_left_out() {
    let config = loaded_config();
    let words = single_bit_words();
    let mut next = [None; NEXT_INPUTS_LANES];
    next[3] = Some(0xFF);
    let out = config
        .assign_all(convert_b2_state_to_b13(&words), Some(true), next)
        .unwrap();
    let got = convert_b13_state_to_b2(&out);
    for k in 0..25 {
        if k == 3 {
            assert_eq!(got[k], PERMUTED_SINGLE_BIT[k] ^ 0xFF);
        } else {
            assert_eq!(got[k], PERMUTED_SINGLE_BIT[k]);
        }
    }
}

#[test]
fn every_round_count_matches_the_bitwise_rounds() {
    let config = loaded_config();
    let words = single_bit_words();
    let in_state = convert_b2_state_to_b13(&words);
    for n in 0..=24 {
        let out = config.assign_rounds(&in_state, n).unwrap();
        assert_eq!(convert_b13_state_to_b2(&out), plain::permute_rounds(&words, n));
        assert_eq!(out, convert_b2_state_to_b13(&plain::permute_rounds(&words, n)));
    }
}

#[test]
fn one_round_of_single_bit() {
    let config = loaded_config();
    let out = config
        .assign_rounds(&convert_b2_state_to_b13(&single_bit_words()), 1)
        .unwrap();
    let expected: [u64; 25] = [
        0x0000000000000000, 0x0000000000000000, 0x0000000000000002, 0x0000000010000400,
        0x0000010000000000, 0x0000100000000000, 0x0000200000200000, 0x0000000000000200,
        0x0000000000000000, 0x0000000000000000, 0x0000000000008000, 0x0000000000000000,
        0x0000000000000000, 0x0000000000000400, 0x0000010000000004, 0x0000000000000001,
        0x0000200000000000, 0x0000000000000202, 0x0000000010000000, 0x0000000000000000,
        0x0000100000008000, 0x0000000000200000, 0x0000000000000000, 0x0000000000000000,
        0x0000000000000004,
    ];
    assert_eq!(convert_b13_state_to_b2(&out), expected);
}

#[test]
fn permutation_chains_after_an_absorb() {
    // The output of an absorbing permutation, whose lane (0, 0) may hold
    // the digit 2, is a legal input of the next permutation.
    let config = loaded_config();
    let words = single_bit_words();
    let first = config
        .assign_all(convert_b2_state_to_b13(&words), Some(true), next_block_with_bit_1())
        .unwrap();
    assert!(first[0].digits.iter().any(|d| *d == 2));
    let second = config
        .assign_all(first, Some(false), [None; NEXT_INPUTS_LANES])
        .unwrap();
    let expected = plain::permute(&plain::permute_and_absorb(
        &words,
        Some(&next_block_with_bit_1()),
    ));
    assert_eq!(convert_b13_state_to_b2(&second), expected);
}

#[test]
fn configure_wants_25_columns() {
    assert_eq!(
        KeccakFConfig::configure(&[0usize; 24], 0).unwrap_err(),
        Error::Misconfigured
    );
    assert_eq!(
        KeccakFConfig::configure(&[0usize; 26], 0).unwrap_err(),
        Error::Misconfigured
    );
    assert_eq!(KeccakFConfig::configure(&[], 0).unwrap_err(), Error::Misconfigured);
    let config = KeccakFConfig::configure(&columns(), 7).unwrap();
    assert_eq!(config.state.to_vec(), columns());
}

#[test]
fn unloaded_engine_misses_its_tables() {
    let config = KeccakFConfig::configure(&columns(), 0).unwrap();
    let in_state = convert_b2_state_to_b13(&single_bit_words());
    assert_eq!(
        config.assign_all(in_state, Some(false), [None; NEXT_INPUTS_LANES]),
        Err(Error::TableMiss)
    );
    assert_eq!(config.assign_rounds(&in_state, 1), Err(Error::TableMiss));
    // No round, no lookup.
    assert_eq!(config.assign_rounds(&in_state, 0), Ok(in_state));
}

#[test]
fn missing_flag_fails_synthesis() {
    let config = loaded_config();
    let in_state = convert_b2_state_to_b13(&single_bit_words());
    assert_eq!(
        config.assign_all(in_state, None, [None; NEXT_INPUTS_LANES]),
        Err(Error::Synthesis)
    );
}

#[test]
fn digit_outside_base_13_is_malformed() {
    let config = loaded_config();
    let mut in_state = convert_b2_state_to_b13(&single_bit_words());
    in_state[7].digits[5] = 13;
    assert_eq!(
        config.assign_all(in_state, Some(false), [None; NEXT_INPUTS_LANES]),
        Err(Error::MalformedWitness)
    );
    // The refusal of the input comes before that of a missing flag.
    assert_eq!(
        config.assign_all(in_state, None, [None; NEXT_INPUTS_LANES]),
        Err(Error::MalformedWitness)
    );
    let mut overhang = [Lane13::zero(); 25];
    overhang[0].digits[64] = 1;
    assert_eq!(
        config.assign_all(overhang, Some(false), [None; NEXT_INPUTS_LANES]),
        Err(Error::MalformedWitness)
    );
}

#[test]
fn sum_that_reaches_the_radix_misses_the_table() {
    let config = loaded_config();
    // Digit 0 of lane (1, 0) sums 12 + 1 over itself and the column to its left.
    let mut in_state = [Lane13::zero(); 25];
    in_state[5].digits[0] = 12;
    in_state[0].digits[0] = 1;
    assert_eq!(
        config.assign_all(in_state, Some(false), [None; NEXT_INPUTS_LANES]),
        Err(Error::TableMiss)
    );
    // One less and every sum stays a digit: parity decides the bit.
    in_state[5].digits[0] = 11;
    let out = config
        .assign_all(in_state, Some(false), [None; NEXT_INPUTS_LANES])
        .unwrap();
    let mut words = [0u64; 25];
    words[0] = 1;
    words[5] = 1;
    assert_eq!(convert_b13_state_to_b2(&out), plain::permute(&words));
}

#[test]
fn flag_must_be_boolean() {
    let config = loaded_config();
    let in_state = convert_b2_state_to_b13(&single_bit_words());
    let out = convert_b2_state_to_b13(&PERMUTED_SINGLE_BIT);
    assert_eq!(config.verify(in_state, 0, [None; NEXT_INPUTS_LANES], out), Ok(()));
    for flag in [2u64, 3, 255, u64::MAX] {
        assert_eq!(
            config.verify(in_state, flag, [None; NEXT_INPUTS_LANES], out),
            Err(Error::NotBoolean)
        );
    }
    // With flag 1 and no lane to absorb the words are the same, but lane
    // (0, 0) carries the constant as a second summand.
    let mixed = config
        .assign_all(in_state, Some(true), [None; NEXT_INPUTS_LANES])
        .unwrap();
    assert_eq!(config.verify(in_state, 1, [None; NEXT_INPUTS_LANES], mixed), Ok(()));
    assert_eq!(convert_b13_state_to_b2(&mixed), PERMUTED_SINGLE_BIT);
}

#[test]
fn refusals_come_in_the_order_of_the_steps() {
    let config = loaded_config();
    let out = convert_b2_state_to_b13(&PERMUTED_SINGLE_BIT);
    let mut malformed = convert_b2_state_to_b13(&single_bit_words());
    malformed[0].digits[0] = 200;
    // A bad input is refused before a bad flag, a bad flag before a bad claim.
    assert_eq!(
        config.verify(malformed, 5, [None; NEXT_INPUTS_LANES], out),
        Err(Error::MalformedWitness)
    );
    let mut too_high = [Lane13::zero(); 25];
    too_high[5].digits[0] = 12;
    too_high[0].digits[0] = 1;
    assert_eq!(
        config.verify(too_high, 5, [None; NEXT_INPUTS_LANES], out),
        Err(Error::TableMiss)
    );
    let in_state = convert_b2_state_to_b13(&single_bit_words());
    assert_eq!(
        config.verify(in_state, 5, [None; NEXT_INPUTS_LANES], in_state),
        Err(Error::NotBoolean)
    );
    assert_eq!(
        config.verify(in_state, 0, [None; NEXT_INPUTS_LANES], in_state),
        Err(Error::OutputMismatch)
    );
    let unloaded = KeccakFConfig::configure(&columns(), 0).unwrap();
    assert_eq!(
        unloaded.verify(in_state, 0, [None; NEXT_INPUTS_LANES], out),
        Err(Error::TableMiss)
    );
}

#[test]
fn cloned_engine_keeps_its_tables() {
    let config = loaded_config();
    let copy = config.clone();
    let in_state = convert_b2_state_to_b13(&single_bit_words());
    assert_eq!(
        copy.assign_all(in_state, Some(false), [None; NEXT_INPUTS_LANES]),
        config.assign_all(in_state, Some(false), [None; NEXT_INPUTS_LANES])
    );
    assert_eq!(copy.state, config.state);
    let unloaded = KeccakFConfig::configure(&columns(), 0).unwrap().clone();
    assert_eq!(
        unloaded.assign_all(in_state, Some(false), [None; NEXT_INPUTS_LANES]),
        Err(Error::TableMiss)
    );
}

#[test]
fn tampered_output_is_refused() {
    let config = loaded_config();
    let in_state = convert_b2_state_to_b13(&single_bit_words());
    let out = convert_b2_state_to_b13(&PERMUTED_SINGLE_BIT);
    for k in [0usize, 12, 24] {
        let mut tampered = out;
        tampered[k].digits[63] ^= 1;
        assert_eq!(
            config.verify(in_state, 0, [None; NEXT_INPUTS_LANES], tampered),
            Err(Error::OutputMismatch)
        );
    }
    // The finalized output is not the absorbed one, and the reverse.
    let mixed = config
        .assign_all(in_state, Some(true), next_block_with_bit_1())
        .unwrap();
    assert_eq!(
        config.verify(in_state, 1, next_block_with_bit_1(), out),
        Err(Error::OutputMismatch)
    );
    assert_eq!(
        config.verify(in_state, 0, next_block_with_bit_1(), mixed),
        Err(Error::OutputMismatch)
    );
    assert_eq!(config.verify(in_state, 1, next_block_with_bit_1(), mixed), Ok(()));
}

#[test]
fn controller_walks_24_rounds_then_mixes() {
    let mut stage = Stage::first();
    for i in 0..24 {
        assert_eq!(stage, Stage::Round(i));
        assert_eq!(stage.ends_with_iota(), i < 23);
        stage = stage.next();
    }
    assert_eq!(stage, Stage::Mixing);
    assert!(!stage.ends_with_iota());
    assert_eq!(stage.next(), Stage::Mixing);
    assert_eq!(Stage::Round(22).next(), Stage::Round(23));
    assert_eq!(Stage::Round(23).next(), Stage::Mixing);
}

#[test]
fn last_round_defers_its_iota_to_the_mixing_gate() {
    let config = loaded_config();
    let words = single_bit_words();
    let in_state = convert_b2_state_to_b13(&words);
    let after_23 = config.assign_rounds(&in_state, 23).unwrap();
    let by_whole_round = config.assign_round(&after_23, 23).unwrap();
    let by_mixing = config
        .assign_all(in_state, Some(false), [None; NEXT_INPUTS_LANES])
        .unwrap();
    assert_eq!(by_whole_round, by_mixing);
    assert_eq!(by_mixing, config.assign_rounds(&in_state, 24).unwrap());
}

#[test]
fn witness_holds_every_state() {
    let config = loaded_config();
    let words = single_bit_words();
    let in_state = convert_b2_state_to_b13(&words);
    for flag in [false, true] {
        let witness = config
            .assign_witness(in_state, Some(flag), next_block_with_bit_1())
            .unwrap();
        assert_eq!(witness.states.len(), 24);
        assert_eq!(witness.rounds.len(), 24);
        assert_eq!(witness.states[0], in_state);
        for i in 0..24 {
            let state = witness.states[i];
            assert_eq!(state, config.assign_rounds(&in_state, i).unwrap());
            let round = &witness.rounds[i];
            assert_eq!(round.after_theta, assign_theta(&state).unwrap());
            assert_eq!(
                round.after_xi,
                config.assign_round_before_iota(&state).unwrap()
            );
            assert_eq!(round.after_pi, pi_gate_permutation(&round.after_rho));
            assert_eq!(round.after_xi, assign_xi(&round.after_pi).unwrap());
            match round.after_iota {
                Some(after_iota) => {
                    assert!(i < 23);
                    assert_eq!(&after_iota[1..], &round.after_xi[1..]);
                    for d in 0..64 {
                        assert_eq!(
                            after_iota[0].digits[d],
                            round.after_xi[0].digits[d]
                                + 2 * ((ROUND_CONSTANTS[i] >> d) & 1) as u8
                        );
                    }
                }
                None => assert_eq!(i, 23),
            }
        }
        assert_eq!(
            witness.out_state,
            config
                .assign_all(in_state, Some(flag), next_block_with_bit_1())
                .unwrap()
        );
        if flag {
            assert_eq!(&witness.out_state[1..], &witness.mixing.converted[1..]);
            assert_eq!(
                witness.mixing.before_conversion[0].digits[1],
                witness.rounds[23].after_xi[0].digits[1] + 2
            );
        } else {
            assert_eq!(witness.out_state, witness.mixing.converted);
            assert_eq!(
                &witness.mixing.before_conversion[1..],
                &witness.rounds[23].after_xi[1..]
            );
        }
    }
    assert_eq!(
        config.assign_witness(in_state, None, next_block_with_bit_1()),
        Err(Error::Synthesis)
    );
}

#[test]
fn round_witness_ends_with_the_next_state() {
    let config = loaded_config();
    let in_state = convert_b2_state_to_b13(&single_bit_words());
    let (witness, out) = config.assign_round_with_witness(&in_state, 5).unwrap();
    assert_eq!(out, config.assign_round(&in_state, 5).unwrap());
    assert!(witness.after_iota.is_some());
    let last = config.assign_last_round_with_witness(&in_state).unwrap();
    assert_eq!(last.after_iota, None);
    assert_eq!(last.after_xi, witness.after_xi);
    assert_eq!(last.after_theta, witness.after_theta);
}
