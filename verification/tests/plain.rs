use keccak256::bits::{rotate_left, test_bit};
use keccak256::common::{
    lane_position, rotation_of, round_constant_of, LANE_SIZE, NEXT_INPUTS_LANES, PERMUTATION,
    ROTATION_CONSTANTS, ROUND_CONSTANTS,
};
use keccak256::plain::{
    chi_step, iota_step, permute, permute_and_absorb, permute_rounds, pi_step, rho_step,
    round_step, theta_step,
};

const SAMPLE: [u64; 25] = [
    0x0123456789ABCDEF, 0x02468ACF13579BDE, 0x0369D0369D0369CD, 0x048D159E26AF37BC,
    0x05B05B05B05B05AB, 0x06D3A06D3A06D39A, 0x07F6E5D4C3B2A189, 0x091A2B3C4D5E6F78,
    0x0A3D70A3D70A3D67, 0x0B60B60B60B60B56, 0x0C83FB72EA61D945, 0x0DA740DA740DA734,
    0x0ECA8641FDB97523, 0x0FEDCBA987654312, 0x1111111111111101, 0x123456789ABCDEF0,
    0x13579BE02468ACDF, 0x147AE147AE147ACE, 0x159E26AF37C048BD, 0x16C16C16C16C16AC,
    0x17E4B17E4B17E49B, 0x1907F6E5D4C3B28A, 0x1A2B3C4D5E6F8079, 0x1B4E81B4E81B4E68,
    0x1C71C71C71C71C57,
];

#[test]
fn constants() {
    assert_eq!(PERMUTATION, 24);
    assert_eq!(LANE_SIZE, 64);
    assert_eq!(NEXT_INPUTS_LANES, 17);
    assert_eq!(ROUND_CONSTANTS[0], 1);
    assert_eq!(ROUND_CONSTANTS[23], 0x8000000080008008);
    assert_eq!(round_constant_of(23), 0x8000000080008008);
    assert_eq!(ROTATION_CONSTANTS[0][0], 0);
    assert_eq!(ROTATION_CONSTANTS[2][0], 62);
    assert_eq!(rotation_of(10), 62);
    assert_eq!(rotation_of(1), 36);
    assert_eq!(rotation_of(24), 14);
    assert_eq!(lane_position(0, 0), 0);
    assert_eq!(lane_position(3, 1), 16);
    assert_eq!(lane_position(4, 4), 24);
}

#[test]
fn rotate_left_wraps_around() {
    assert_eq!(rotate_left(1, 0), 1);
    assert_eq!(rotate_left(1, 1), 2);
    assert_eq!(rotate_left(0x8000000000000000, 1), 1);
    assert_eq!(rotate_left(0x8000000000000001, 63), 0xC000000000000000);
    for r in 0..64u32 {
        assert_eq!(rotate_left(0x0123456789ABCDEF, r), 0x0123456789ABCDEFu64.rotate_left(r));
    }
}

#[test]
fn test_bit_reads_each_bit() {
    assert!(test_bit(1, 0));
    assert!(!test_bit(1, 1));
    assert!(test_bit(0x8000000000000000, 63));
    assert!(!test_bit(0x7FFFFFFFFFFFFFFF, 63));
}

#[test]
fn theta_of_sample() {
    let expected: [u64; 25] = [
        0x00112843D7601F0C, 0x0374E7EB4D9C493D, 0x025BBD12C3C8BB2E, 0x05BF78BA7864E55F,
        0x04823621EE90D748, 0x25C73FCB404F6CF3, 0x24E27A72B9FB1EE0, 0x2A0EB49A3717D011,
        0x2929EF05AD43820E, 0x287429AD1AFFB43F, 0x296D9F9225EF5FFF, 0x2849243ABB83218E,
        0x2B24E2A13237F399, 0x2A03AF4948EBC5A8, 0x34FF75F1DE9F97BB, 0x24C8CBD5DFD28F1F,
        0x25AB064D6106FD30, 0x22867CEAEB7A2B21, 0x2362BB0272AE1952, 0x203DF1BB84024743,
        0x03C075138F6DA9BD, 0x0D23328810B9FFAC, 0x0E0FF8209A15CD5F, 0x0F6A45D92C61034E,
        0x08550371B5BD5171,
    ];
    assert_eq!(theta_step(&SAMPLE), expected);
}

#[test]
fn rho_of_sample() {
    let expected: [u64; 25] = [
        0x0123456789ABCDEF, 0x3579BDE02468ACF1, 0x1B4E81B4E81B4E68, 0x5E6F78091A2B3C4D,
        0x6C16C16C16AC16C1, 0x0DA740DA740DA734, 0x2A18907F6E5D4C3B, 0x68ACF13579BDE024,
        0x47ACE147AE147AE1, 0x2D82D82D82D82D58, 0x4320FEDCBA987651, 0x69D0369D0369CD03,
        0xCBA9187654320FED, 0xE5D4C3B2A18907F6, 0x2222222222222220, 0x89ABCDEF01234567,
        0x6F89ABCDF0123456, 0x8F5C28F59C28F5C2, 0xD5E6F80917A2B3C4, 0xAC16C16C16C16C16,
        0xF258BF24D8BF258B, 0x6E5D4C3B28A1907F, 0x37C03C8D159E26AF, 0x4E81B4E81B4E681B,
        0x71C71C71C715C71C,
    ];
    assert_eq!(rho_step(&SAMPLE), expected);
}

#[test]
fn pi_of_sample() {
    let out = pi_step(&SAMPLE);
    for x in 0..5 {
        for y in 0..5 {
            assert_eq!(out[5 * y + (2 * x + 3 * y) % 5], SAMPLE[5 * x + y]);
        }
    }
    assert_eq!(out[1], 0x123456789ABCDEF0);
    assert_eq!(out[24], 0x0B60B60B60B60B56);
}

#[test]
fn chi_of_sample() {
    let expected: [u64; 25] = [
        0x09231E7549CAC5AA, 0x0A478AC5275A9DEA, 0x05A954772DA279CE, 0x014D9E9626CA75AC,
        0x15A15A15A15A15AA, 0x14E7A4652A9AD52A, 0x15A67EF4C3D2A942, 0x192A4A3A4F5A65B4,
        0x1A2F54A5E78A35CA, 0x0DA0DA0DA0DA0DFA, 0x09435A74AB62F94E, 0x05A724DFA48EB534,
        0x04CB9A49ADD2F512, 0x05AD4AB94F7E4552, 0x1921921921921952, 0x123712791A14D794,
        0x111793EA277CA58B, 0x153A21752F14134A, 0x111F32A531647929, 0x1741741741741704,
        0x113411767913F68B, 0x1CB793F51463928B, 0x123917451E338649, 0x117EE195391B462B,
        0x1631631631631603,
    ];
    assert_eq!(chi_step(&SAMPLE), expected);
}

#[test]
fn iota_touches_lane_0_only() {
    let out = iota_step(&SAMPLE, 0x8000000080008008);
    assert_eq!(out[0], 0x0123456789ABCDEF ^ 0x8000000080008008);
    assert_eq!(&out[1..], &SAMPLE[1..]);
}

#[test]
fn keccak_f_of_zero_state() {
    let expected: [u64; 25] = [
        0xF1258F7940E1DDE7, 0xFF97A42D7F8E6FD4, 0xEB5AA93F2317D635, 0x05E5635A21D9AE61,
        0x940C7922AE3A2614, 0x84D5CCF933C0478A, 0x90FEE5A0A44647C4, 0xA9A6E6260D712103,
        0x64BEFEF28CC970F2, 0x1841F924A2C509E4, 0xD598261EA65AA9EE, 0x8C5BDA0CD6192E76,
        0x81A57C16DBCF555F, 0x613670957BC46611, 0x16F53526E70465C2, 0xBD1547306F80494D,
        0xAD30A6F71B19059C, 0x43B831CD0347C826, 0xB87C5A554FD00ECB, 0x75F644E97F30A13B,
        0x8B284E056253D057, 0x30935AB7D08FFC64, 0x01F22F1A11A5569F, 0x8C3EE88A1CCF32C8,
        0xEAF1FF7B5CECA249,
    ];
    assert_eq!(permute(&[0u64; 25]), expected);
}

#[test]
fn keccak_f_of_sample() {
    let expected: [u64; 25] = [
        0xAACABBE6CE37C648, 0x57EBF9B446912AB5, 0xDB2D321E8736A6E2, 0xDD48C3015CA782B6,
        0x2A10158323459A3C, 0x194902466FE18570, 0x25E71424F6CDF6D3, 0xEBFF57DDEBABF22F,
        0xBFB330E60EC392D5, 0xAE9F1FCE569BAFE1, 0xBB26DF7F64338E03, 0x75B5FFF84625FFB9,
        0xC998483BFD11A7AA, 0x9DD69D68152B7D43, 0xA9D98E98D99494D7, 0x73BF23507298E8E3,
        0xD82D1FB1CE8E1FDA, 0xE6DCEED8BD908F7B, 0xBE6CD02D8CEC992C, 0xDC089D7C4B115E12,
        0x5C1041447C78D5CB, 0x50F0BD9BD300AAA7, 0x56584208171B9C24, 0x5AD1EF48A19B2C2B,
        0x08D9A196384C40EE,
    ];
    assert_eq!(permute(&SAMPLE), expected);
    assert_eq!(permute_rounds(&SAMPLE, 24), expected);
}

#[test]
fn rounds_compose() {
    assert_eq!(permute_rounds(&SAMPLE, 0), SAMPLE);
    let mut state = SAMPLE;
    for i in 0..24 {
        state = round_step(&state, i);
        assert_eq!(permute_rounds(&SAMPLE, i + 1), state);
    }
    let by_steps = iota_step(
        &chi_step(&pi_step(&rho_step(&theta_step(&SAMPLE)))),
        ROUND_CONSTANTS[0],
    );
    assert_eq!(round_step(&SAMPLE, 0), by_steps);
}

#[test]
fn absorb_after_permutation() {
    let permuted = permute(&SAMPLE);
    assert_eq!(permute_and_absorb(&SAMPLE, None), permuted);
    let mut next = [None; 17];
    next[0] = Some(2u64);
    next[16] = Some(u64::MAX);
    let out = permute_and_absorb(&SAMPLE, Some(&next));
    assert_eq!(out[0], permuted[0] ^ 2);
    assert_eq!(out[16], !permuted[16]);
    for k in 1..25 {
        if k != 16 {
            assert_eq!(out[k], permuted[k]);
        }
    }
}
