use keccak256::arith_helpers::{
    convert_b13_coef, convert_b13_lane_to_b2, convert_b2_to_b13, convert_b2_to_b9,
    convert_b9_coef, convert_b9_lane_to_b2, Lane, Lane13, Lane9, A1, A2, A3, A4, B13, B2, B9,
    LANE_DIGITS,
};
use keccak256::scalar::word_from_le_bytes;
use keccak256::permutation::tables::{
    convert_coef, Base13toBase9TableConfig, FromBase9TableConfig,
};

fn hex(bytes: &[u8; 32]) -> String {
    bytes.iter().map(|b| format!("{:02x}", b)).collect()
}

#[test]
fn radices_and_weights() {
    assert_eq!((B2, B9, B13), (2, 9, 13));
    assert_eq!((A1, A2, A3, A4), (2, 1, 3, 2));
    assert_eq!(LANE_DIGITS, 65);
}

#[test]
fn encoding_puts_bit_i_in_digit_i() {
    let lane = convert_b2_to_b13(0x8000000000000005);
    assert_eq!(lane.digits[0], 1);
    assert_eq!(lane.digits[1], 0);
    assert_eq!(lane.digits[2], 1);
    assert_eq!(lane.digits[63], 1);
    assert_eq!(lane.digits[64], 0);
    assert_eq!(lane.digits.iter().map(|d| *d as u32).sum::<u32>(), 3);
    assert_eq!(convert_b2_to_b9(0x8000000000000005).digits, lane.digits);
    assert_eq!(convert_b2_to_b13(0), Lane13::zero());
    assert_eq!(convert_b2_to_b13(u64::MAX).digits[..64], [1u8; 64]);
}

#[test]
fn decoding_undoes_encoding() {
    for w in [0u64, 1, 2, 0x8000000000000000, 0x0123456789ABCDEF, u64::MAX] {
        assert_eq!(convert_b13_lane_to_b2(&convert_b2_to_b13(w)), w);
    }
}

#[test]
fn base_13_digit_stands_for_its_parity() {
    let expected = [0u8, 1, 0, 1, 0, 1, 0, 1, 0, 1, 0, 1, 0];
    for d in 0..13u8 {
        assert_eq!(convert_b13_coef(d), expected[d as usize]);
        assert_eq!(convert_coef(13, d), expected[d as usize]);
    }
    let mut lane = Lane13::zero();
    lane.digits[0] = 12;
    lane.digits[1] = 11;
    lane.digits[2] = 2;
    lane.digits[3] = 1;
    assert_eq!(convert_b13_lane_to_b2(&lane), 0b1010);
}

#[test]
fn base_9_digit_stands_for_chi_of_its_bits() {
    let expected = [0u8, 0, 1, 1, 0, 0, 1, 1, 0];
    for d in 0..9u8 {
        assert_eq!(convert_b9_coef(d), expected[d as usize]);
        assert_eq!(convert_coef(9, d), expected[d as usize]);
    }
    for a in 0..2u8 {
        for b in 0..2u8 {
            for c in 0..2u8 {
                for d in 0..2u8 {
                    let digit = A1 * a + A2 * b + A3 * c + A4 * d;
                    assert!(digit < 9);
                    assert_eq!(convert_b9_coef(digit), a ^ ((1 - b) & c) ^ d);
                }
            }
        }
    }
    let mut lane = Lane9::zero();
    lane.digits[0] = 2;
    lane.digits[1] = 1;
    lane.digits[2] = 7;
    lane.digits[3] = 8;
    assert_eq!(convert_b9_lane_to_b2(&lane), 0b0101);
}

#[test]
fn digit_round_trip_at_the_weight_of_the_lane() {
    for d in 0..13u8 {
        let bit = convert_b13_coef(d);
        assert_eq!(convert_b9_coef(A1 * bit), bit);
    }
    // Without the weight the base-9 digit 1 stands for the bit 0.
    assert_eq!(convert_b9_coef(convert_b13_coef(1)), 0);
}

#[test]
fn well_formed_lanes() {
    let mut lane = convert_b2_to_b13(0xFF);
    assert!(lane.is_well_formed());
    lane.digits[3] = 12;
    assert!(lane.is_well_formed());
    lane.digits[3] = 13;
    assert!(!lane.is_well_formed());
    lane.digits[3] = 0;
    lane.digits[64] = 1;
    assert!(!lane.is_well_formed());
    let mut nine = convert_b2_to_b9(0xFF);
    nine.digits[0] = 8;
    assert!(nine.is_well_formed());
    nine.digits[0] = 9;
    assert!(!nine.is_well_formed());
}

#[test]
fn same_digits_compares_every_digit() {
    let a = convert_b2_to_b13(5);
    let mut b = a;
    assert!(a.same_digits(&b));
    b.digits[64] = 1;
    assert!(!a.same_digits(&b));
    assert!(!a.same_digits(&convert_b2_to_b13(4)));
}

#[test]
fn empty_table_has_no_row() {
    let table = FromBase9TableConfig::configure();
    for d in 0..20u16 {
        assert_eq!(table.lookup(d), None);
    }
    assert_eq!(table.convert_lane::<13>(&Lane9::zero()), None);
}

#[test]
fn loaded_table_has_the_rows_of_its_radix() {
    let mut b9 = FromBase9TableConfig::configure();
    b9.load();
    let expected9 = [0u8, 0, 1, 1, 0, 0, 1, 1, 0];
    for d in 0..9u16 {
        assert_eq!(b9.lookup(d), Some(expected9[d as usize]));
    }
    for d in [9u16, 10, 13, 255, 256, 1000] {
        assert_eq!(b9.lookup(d), None);
    }
    let mut b13 = Base13toBase9TableConfig::configure();
    b13.load();
    for d in 0..13u16 {
        assert_eq!(b13.lookup(d), Some((d % 2) as u8));
    }
    for d in [13u16, 14, 255, 256] {
        assert_eq!(b13.lookup(d), None);
    }
}

#[test]
fn table_converts_a_lane_digit_by_digit() {
    let mut table = FromBase9TableConfig::configure();
    table.load();
    let mut lane = Lane9::zero();
    for i in 0..64 {
        lane.digits[i] = (i % 9) as u8;
    }
    let out: Lane13 = table.convert_lane(&lane).unwrap();
    for i in 0..64 {
        assert_eq!(out.digits[i], convert_b9_coef((i % 9) as u8));
    }
    assert_eq!(out.digits[64], 0);
    lane.digits[40] = 9;
    assert_eq!(table.convert_lane::<13>(&lane), None);
}

#[test]
fn scalar_of_a_lane_as_bytes() {
    let one13 = convert_b2_to_b13(1).to_le_bytes().unwrap();
    assert_eq!(one13[0], 1);
    assert_eq!(&one13[1..], &[0u8; 31]);
    // 1 + 13 and 1 + 9.
    assert_eq!(convert_b2_to_b13(3).to_le_bytes().unwrap()[0], 14);
    assert_eq!(convert_b2_to_b9(3).to_le_bytes().unwrap()[0], 10);
    // 13^63 and 9^63.
    assert_eq!(
        hex(&convert_b2_to_b13(0x8000000000000000).to_le_bytes().unwrap()),
        "c5c3877a4730651fef04b80317ba31f1b8e9627159e1edf0f85201632f020000"
    );
    assert_eq!(
        hex(&convert_b2_to_b9(0x8000000000000000).to_le_bytes().unwrap()),
        "39b880d62a3b400e44196338632c5f19370525d1fb48c4b2d000000000000000"
    );
    // (13^64 - 1) / 12 and (9^64 - 1) / 8.
    assert_eq!(
        hex(&convert_b2_to_b13(u64::MAX).to_le_bytes().unwrap()),
        "c0bebdc4a24958b7ad5a0744eedef5afdd272b90cb5eacaf8dc496005e020000"
    );
    assert_eq!(
        hex(&convert_b2_to_b9(u64::MAX).to_le_bytes().unwrap()),
        "40cf5031904208906c7c6f9fef118bfcdda5494b1bd21cc9ea00000000000000"
    );
    assert_eq!(Lane13::zero().to_le_bytes(), Some([0u8; 32]));
}

#[test]
fn largest_lanes_fit_in_32_bytes() {
    // 13^65 - 1: every digit 12.
    let lane = Lane13 { digits: [12u8; 65] };
    assert_eq!(
        hex(&lane.to_le_bytes().unwrap()),
        "0c3da0e32fdfccb9db417b7431d9d339174b4cda0bc4090d57c6df5b48710100"
    );
    // In base 13 even digits past the radix spell less than 2^256.
    let wide = Lane13 { digits: [255u8; 65] };
    assert_eq!(
        hex(&wide.to_le_bytes().unwrap()),
        "3f110da5b986412c7d373beb5ac7d58cad3bd5defb850fd5b93653a041a71e00"
    );
    // In a large radix they do not.
    let huge = Lane::<255> { digits: [254u8; 65] };
    assert_eq!(huge.to_le_bytes(), None);
    let mut small = Lane::<255> { digits: [0u8; 65] };
    small.digits[0] = 254;
    small.digits[1] = 1;
    let bytes = small.to_le_bytes().unwrap();
    assert_eq!((bytes[0], bytes[1]), (253, 1));
    assert_eq!(&bytes[2..], &[0u8; 30]);
}

#[test]
fn lane_of_a_scalar() {
    let mut bytes = [0u8; 32];
    bytes[0] = 14;
    assert_eq!(Lane13::from_le_bytes(&bytes), Some(convert_b2_to_b13(3)));
    bytes[0] = 10;
    assert_eq!(Lane9::from_le_bytes(&bytes), Some(convert_b2_to_b9(3)));
    bytes[0] = 12;
    let twelve = Lane13::from_le_bytes(&bytes).unwrap();
    assert_eq!(twelve.digits[0], 12);
    assert_eq!(&twelve.digits[1..], &[0u8; 64]);
    bytes[0] = 13;
    let thirteen = Lane13::from_le_bytes(&bytes).unwrap();
    assert_eq!(thirteen.digits[0], 0);
    assert_eq!(thirteen.digits[1], 1);
}

#[test]
fn scalar_round_trip() {
    for w in [0u64, 1, 0x0123456789ABCDEF, 0x8000000000000000, u64::MAX] {
        let lane13 = convert_b2_to_b13(w);
        assert_eq!(Lane13::from_le_bytes(&lane13.to_le_bytes().unwrap()), Some(lane13));
        let lane9 = convert_b2_to_b9(w);
        assert_eq!(Lane9::from_le_bytes(&lane9.to_le_bytes().unwrap()), Some(lane9));
    }
    let full = Lane13 { digits: [12u8; 65] };
    assert_eq!(Lane13::from_le_bytes(&full.to_le_bytes().unwrap()), Some(full));
}

#[test]
fn scalar_with_too_many_digits_is_no_lane() {
    // 13^65 has 66 digits in base 13; 13^65 - 1 has 65.
    let mut bytes = [0u8; 32];
    let text = "0d3da0e32fdfccb9db417b7431d9d339174b4cda0bc4090d57c6df5b48710100";
    for i in 0..32 {
        bytes[i] = u8::from_str_radix(&text[2 * i..2 * i + 2], 16).unwrap();
    }
    assert_eq!(Lane13::from_le_bytes(&bytes), None);
    bytes[0] = 0x0c;
    assert_eq!(Lane13::from_le_bytes(&bytes), Some(Lane13 { digits: [12u8; 65] }));
    assert_eq!(Lane13::from_le_bytes(&[255u8; 32]), None);
    assert_eq!(Lane9::from_le_bytes(&[255u8; 32]), None);
}

#[test]
fn word_of_a_scalar() {
    let mut bytes = [0u8; 32];
    assert_eq!(word_from_le_bytes(&bytes), Some(0));
    bytes[..8].copy_from_slice(&0x0123_4567_89AB_CDEF_u64.to_le_bytes());
    assert_eq!(word_from_le_bytes(&bytes), Some(0x0123_4567_89AB_CDEF));
    bytes[..8].copy_from_slice(&u64::MAX.to_le_bytes());
    assert_eq!(word_from_le_bytes(&bytes), Some(u64::MAX));
    // 2^64 and above are no words.
    bytes[8] = 1;
    assert_eq!(word_from_le_bytes(&bytes), None);
    bytes[8] = 0;
    bytes[31] = 0x80;
    assert_eq!(word_from_le_bytes(&bytes), None);
    let mut one_past = [0u8; 32];
    one_past[8] = 1;
    assert_eq!(word_from_le_bytes(&one_past), None);
}
