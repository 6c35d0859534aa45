use keccak256::mock::account::MockAccount;
use keccak256::mock::test_ctx::{account_0_code_account_1_no_code, tx_from_1_to_0};
use keccak256::mock::transaction::MockTransaction;
use keccak256::mock::{
    eth, gwei, Word, MOCK_ACCOUNTS, MOCK_BASEFEE, MOCK_CHAIN_ID, MOCK_COINBASE, MOCK_DIFFICULTY,
    MOCK_GASLIMIT, MOCK_GASPRICE, WEI_PER_ETH, WEI_PER_GWEI,
};

fn value(w: &Word) -> u128 {
    assert_eq!(w.limbs[2], 0);
    assert_eq!(w.limbs[3], 0);
    (w.limbs[0] as u128) | ((w.limbs[1] as u128) << 64)
}

#[test]
fn amounts_in_wei() {
    assert_eq!(WEI_PER_ETH, 1_000_000_000_000_000_000);
    assert_eq!(WEI_PER_GWEI, 1_000_000_000);
    assert_eq!(value(&eth(0)), 0);
    assert_eq!(value(&eth(1)), 1_000_000_000_000_000_000);
    assert_eq!(value(&eth(10)), 10_000_000_000_000_000_000);
    assert_eq!(eth(10).limbs, [0x8AC7230489E80000, 0, 0, 0]);
    assert_eq!(eth(20).limbs, [0x158E460913D00000, 1, 0, 0]);
    assert_eq!(value(&eth(u64::MAX)), 0xde0b6b3a763fffff21f494c589c0000);
    assert_eq!(value(&gwei(1)), 1_000_000_000);
    assert_eq!(value(&gwei(u64::MAX)), (u64::MAX as u128) * 1_000_000_000);
}

#[test]
fn words_from_integers() {
    assert_eq!(Word::zero().limbs, [0, 0, 0, 0]);
    assert_eq!(Word::from_u64(7).limbs, [7, 0, 0, 0]);
    assert_eq!(Word::from_u128(u128::MAX).limbs, [u64::MAX, u64::MAX, 0, 0]);
    assert_eq!(Word::from_u128(1 << 64).limbs, [0, 1, 0, 0]);
}

#[test]
fn fixture_numbers() {
    assert_eq!(MOCK_GASPRICE, 1);
    assert_eq!(MOCK_BASEFEE, 0);
    assert_eq!(MOCK_GASLIMIT, 10_000_000_000_000_000);
    assert_eq!(MOCK_CHAIN_ID, 1338);
    assert_eq!(MOCK_DIFFICULTY, 2_097_152);
    assert_eq!(&MOCK_COINBASE[16..], &[0xc0, 0x14, 0xba, 0x5e]);
    assert_eq!(&MOCK_COINBASE[..16], &[0u8; 16]);
}

#[test]
fn fixture_addresses() {
    assert_eq!(MOCK_ACCOUNTS.len(), 5);
    assert_eq!(&MOCK_ACCOUNTS[0][16..], &[0x0c, 0xaf, 0xe1, 0x11]);
    assert_eq!(&MOCK_ACCOUNTS[4][16..], &[0x0c, 0xaf, 0xe5, 0x55]);
    for address in MOCK_ACCOUNTS.iter() {
        assert_eq!(&address[..16], &[0u8; 16]);
    }
}

#[test]
fn account_is_set_up_field_by_field() {
    let mut account = MockAccount::default();
    assert_eq!(account.address, [0u8; 20]);
    assert_eq!(account.balance, Word::zero());
    assert!(account.code.is_empty());
    account
        .address(MOCK_ACCOUNTS[2])
        .nonce(Word::from_u64(3))
        .balance(eth(2))
        .code(vec![0x60, 0x10, 0x00]);
    assert_eq!(account.address, MOCK_ACCOUNTS[2]);
    assert_eq!(account.nonce, Word::from_u64(3));
    assert_eq!(account.balance, eth(2));
    assert_eq!(account.code, vec![0x60, 0x10, 0x00]);
}

#[test]
fn transaction_is_set_up_field_by_field() {
    let mut tx = MockTransaction::default();
    assert_eq!(tx.from, [0u8; 20]);
    assert_eq!(tx.to, None);
    assert_eq!((tx.nonce, tx.transaction_index), (0, 0));
    tx.from(MOCK_ACCOUNTS[0])
        .to(MOCK_ACCOUNTS[1])
        .nonce(4)
        .transaction_idx(2)
        .value(gwei(5));
    assert_eq!(tx.from, MOCK_ACCOUNTS[0]);
    assert_eq!(tx.to, Some(MOCK_ACCOUNTS[1]));
    assert_eq!((tx.nonce, tx.transaction_index), (4, 2));
    assert_eq!(tx.value, gwei(5));
}

#[test]
fn two_accounts_with_code_in_the_first() {
    let mut first = MockAccount::default();
    let mut second = MockAccount::default();
    second.nonce(Word::from_u64(9));
    account_0_code_account_1_no_code(vec![0x30, 0x00], [&mut first, &mut second]);
    assert_eq!(first.address, MOCK_ACCOUNTS[0]);
    assert_eq!(first.balance, eth(10));
    assert_eq!(first.code, vec![0x30, 0x00]);
    assert_eq!(second.address, MOCK_ACCOUNTS[1]);
    assert_eq!(second.balance, eth(10));
    assert!(second.code.is_empty());
    assert_eq!(second.nonce, Word::from_u64(9));
}

#[test]
fn first_transaction_goes_from_account_1_to_account_0() {
    let mut accs = [MockAccount::default(), MockAccount::default()];
    accs[0].address(MOCK_ACCOUNTS[0]);
    accs[1].address(MOCK_ACCOUNTS[1]);
    let mut first = MockTransaction::default();
    first.nonce(7);
    let mut second = MockTransaction::default();
    second.from(MOCK_ACCOUNTS[3]);
    let untouched = second.clone();
    tx_from_1_to_0(vec![&mut first, &mut second], accs);
    assert_eq!(first.from, MOCK_ACCOUNTS[1]);
    assert_eq!(first.to, Some(MOCK_ACCOUNTS[0]));
    assert_eq!(first.nonce, 7);
    assert_eq!(second, untouched);
}
