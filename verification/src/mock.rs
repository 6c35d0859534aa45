//! Fixtures: amounts, addresses, accounts and transactions with known values.

pub mod account;
pub mod test_ctx;
pub mod transaction;

use vstd::prelude::*;

verus! {

/// A 20-byte account address.
pub type Address = [u8; 20];

/// A 256-bit unsigned amount as four 64-bit limbs, least significant first.
#[derive(Clone, Copy, Debug, PartialEq, Eq)]
pub struct Word {
    pub limbs: [u64; 4],
}

impl View for Word {
    type V = nat;

    open spec fn view(&self) -> nat {
        (self.limbs[0] as nat) + (self.limbs[1] as nat) * 0x1_0000_0000_0000_0000 + (
        self.limbs[2] as nat) * 0x1_0000_0000_0000_0000_0000_0000_0000_0000 + (
        self.limbs[3] as nat)
            * 0x1_0000_0000_0000_0000_0000_0000_0000_0000_0000_0000_0000_0000
    }
}

impl Word {
    /// The amount 0.
    pub fn zero() -> (w: Word)
        ensures
            w@ == 0,
    {
        Word { limbs: [0, 0, 0, 0] }
    }

    /// The amount `x`.
    pub fn from_u64(x: u64) -> (w: Word)
        ensures
            w@ == x,
    {
        Word { limbs: [x, 0, 0, 0] }
    }

    /// The amount `x`.
    pub fn from_u128(x: u128) -> (w: Word)
        ensures
            w@ == x,
    {
        let low: u64 = (x % 0x1_0000_0000_0000_0000) as u64;
        let high: u64 = (x / 0x1_0000_0000_0000_0000) as u64;
        Word { limbs: [low, high, 0, 0] }
    }
}

/// Number of wei in one ether.
pub const WEI_PER_ETH: u64 = 1_000_000_000_000_000_000;

/// Number of wei in one gwei.
pub const WEI_PER_GWEI: u64 = 1_000_000_000;

/// Fixture gas price, in wei.
pub const MOCK_GASPRICE: u64 = 1;

/// Fixture base fee, in wei.
pub const MOCK_BASEFEE: u64 = 0;

/// Fixture gas limit of a block.
pub const MOCK_GASLIMIT: u64 = 0x2386f26fc10000;

/// Fixture chain id.
pub const MOCK_CHAIN_ID: u64 = 1338;

/// Fixture difficulty of a block.
pub const MOCK_DIFFICULTY: u64 = 0x200000;

/// Fixture coinbase address: `0x..c014ba5e`.
pub const MOCK_COINBASE: [u8; 20] = [
    0, 0, 0, 0, 0, 0, 0, 0, 0, 0, 0, 0, 0, 0, 0, 0, 0xc0, 0x14, 0xba, 0x5e,
];

/// The first five fixture addresses: `0x..0cafe111` to `0x..0cafe555`.
pub const MOCK_ACCOUNTS: [[u8; 20]; 5] = [
    [0, 0, 0, 0, 0, 0, 0, 0, 0, 0, 0, 0, 0, 0, 0, 0, 0x0c, 0xaf, 0xe1, 0x11],
    [0, 0, 0, 0, 0, 0, 0, 0, 0, 0, 0, 0, 0, 0, 0, 0, 0x0c, 0xaf, 0xe2, 0x22],
    [0, 0, 0, 0, 0, 0, 0, 0, 0, 0, 0, 0, 0, 0, 0, 0, 0x0c, 0xaf, 0xe3, 0x33],
    [0, 0, 0, 0, 0, 0, 0, 0, 0, 0, 0, 0, 0, 0, 0, 0, 0x0c, 0xaf, 0xe4, 0x44],
    [0, 0, 0, 0, 0, 0, 0, 0, 0, 0, 0, 0, 0, 0, 0, 0, 0x0c, 0xaf, 0xe5, 0x55],
];

/// The amount of `x` ether, in wei.
pub fn eth(x: u64) -> (w: Word)
    ensures
        w@ == x * 1_000_000_000_000_000_000,
{
    assert(x * 1_000_000_000_000_000_000 <= 0xFFFF_FFFF_FFFF_FFFF * 1_000_000_000_000_000_000)
        by (nonlinear_arith)
        requires
            0 <= x <= 0xFFFF_FFFF_FFFF_FFFF,
    ;
    Word::from_u128((x as u128) * (WEI_PER_ETH as u128))
}

/// The amount of `x` gwei, in wei.
pub fn gwei(x: u64) -> (w: Word)
    ensures
        w@ == x * 1_000_000_000,
{
    assert(x * 1_000_000_000 <= 0xFFFF_FFFF_FFFF_FFFF * 1_000_000_000) by (nonlinear_arith)
        requires
            0 <= x <= 0xFFFF_FFFF_FFFF_FFFF,
    ;
    Word::from_u128((x as u128) * (WEI_PER_GWEI as u128))
}

} // verus!
