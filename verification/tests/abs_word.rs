use keccak256::math_gadget::abs_word::{
    is_zero_word, overflowing_add, same_word, AbsWordGadget,
};

fn word(value: u64) -> [u8; 32] {
    let mut bytes = [0u8; 32];
    bytes[..8].copy_from_slice(&value.to_le_bytes());
    bytes
}

fn negated(value: u64) -> [u8; 32] {
    // 2^256 - value, for a value that is not 0.
    let mut bytes = [0xFFu8; 32];
    bytes[..8].copy_from_slice(&(!value).wrapping_add(1).to_le_bytes());
    if value.wrapping_neg() == 0 {
        bytes = [0u8; 32];
    }
    bytes
}

fn lowest() -> [u8; 32] {
    let mut bytes = [0u8; 32];
    bytes[31] = 0x80;
    bytes
}

fn satisfied(x: [u8; 32], x_abs: [u8; 32]) -> bool {
    let mut gadget = AbsWordGadget::construct();
    gadget.assign(x, x_abs);
    assert_eq!(gadget.x(), &x);
    assert_eq!(gadget.x_abs(), &x_abs);
    assert_eq!(gadget.is_neg(), x[31] > 127);
    gadget.is_satisfied()
}

#[test]
fn test_absword() {
    assert_eq!(satisfied(word(0), word(0)), true);
    assert_eq!(satisfied(word(1), word(1)), true);
    assert_eq!(satisfied(word(1), word(2)), false);
}

#[test]
fn fresh_gadget_holds_zero() {
    let gadget = AbsWordGadget::construct();
    assert_eq!(gadget.x(), &[0u8; 32]);
    assert_eq!(gadget.x_abs(), &[0u8; 32]);
    assert!(!gadget.is_neg());
    assert!(gadget.is_satisfied());
}

#[test]
fn absolute_value_of_negative_words() {
    // -1 and 1.
    assert!(satisfied([0xFF; 32], word(1)));
    assert!(!satisfied([0xFF; 32], word(2)));
    assert!(!satisfied([0xFF; 32], [0xFF; 32]));
    assert!(!satisfied([0xFF; 32], word(0)));
    // -5 and 5.
    assert!(satisfied(negated(5), word(5)));
    assert!(!satisfied(negated(5), negated(5)));
    assert!(!satisfied(word(5), negated(5)));
    // -2^64 and 2^64.
    let mut neg = [0xFFu8; 32];
    neg[..8].copy_from_slice(&[0u8; 8]);
    let mut pos = [0u8; 32];
    pos[8] = 1;
    assert!(satisfied(neg, pos));
    pos[0] = 1;
    assert!(!satisfied(neg, pos));
}

#[test]
fn lowest_word_is_its_own_absolute_value() {
    assert!(satisfied(lowest(), lowest()));
    assert!(!satisfied(lowest(), word(0)));
    let mut highest = [0xFFu8; 32];
    highest[31] = 0x7F;
    assert!(satisfied(highest, highest));
    assert!(!satisfied(highest, lowest()));
    let mut next = lowest();
    next[0] = 1;
    assert!(satisfied(next, highest));
}

#[test]
fn halves_are_compared_separately() {
    let mut x = word(7);
    x[20] = 3;
    let mut low_differs = x;
    low_differs[3] ^= 1;
    let mut high_differs = x;
    high_differs[16] ^= 1;
    assert!(satisfied(x, x));
    assert!(!satisfied(x, low_differs));
    assert!(!satisfied(x, high_differs));
}

#[test]
fn addition_wraps_at_2_to_the_256() {
    assert_eq!(overflowing_add(&word(1), &word(2)), (word(3), false));
    assert_eq!(overflowing_add(&[0xFF; 32], &word(1)), ([0u8; 32], true));
    assert_eq!(overflowing_add(&[0xFF; 32], &word(2)), (word(1), true));
    let mut carry_chain = [0u8; 32];
    carry_chain[8] = 1;
    assert_eq!(
        overflowing_add(&word(u64::MAX), &word(1)),
        (carry_chain, false)
    );
    let mut doubled = [0xFFu8; 32];
    doubled[0] = 0xFE;
    assert_eq!(overflowing_add(&[0xFF; 32], &[0xFF; 32]), (doubled, true));
    assert_eq!(overflowing_add(&lowest(), &lowest()), ([0u8; 32], true));
}

#[test]
fn words_compare_by_their_bytes() {
    assert!(same_word(&word(9), &word(9)));
    assert!(!same_word(&word(9), &word(8)));
    assert!(!same_word(&lowest(), &word(0)));
    assert!(is_zero_word(&word(0)));
    assert!(!is_zero_word(&lowest()));
    assert!(!is_zero_word(&word(1)));
}
