//! A fixture account, set up field by field.

use vstd::prelude::*;
use crate::mock::{Address, Word};

verus! {

/// An account of a fixture.
#[derive(Clone, Debug, PartialEq, Eq)]
pub struct MockAccount {
    /// Address of the account.
    pub address: Address,
    /// Number of transactions that the account has sent.
    pub nonce: Word,
    /// Balance in wei.
    pub balance: Word,
    /// Code of the account; empty for an account without code.
    pub code: Vec<u8>,
}

impl Default for MockAccount {
    /// The account at address 0 with no nonce, no balance and no code.
    fn default() -> (account: Self)
        ensures
            forall|i: int| 0 <= i < 20 ==> account.address[i] == 0,
            account.nonce@ == 0,
            account.balance@ == 0,
            account.code@ == Seq::<u8>::empty(),
    {
        MockAccount {
            address: [0u8;20],
            nonce: Word::zero(),
            balance: Word::zero(),
            code: Vec::new(),
        }
    }
}

impl MockAccount {
    /// Sets the address.
    pub fn address(&mut self, address: Address) -> (account: &mut Self)
        ensures
            *account == (MockAccount { address, ..*old(self) }),
            *final(self) == *final(account),
    {
        self.address = address;
        self
    }

    /// Sets the nonce.
    pub fn nonce(&mut self, nonce: Word) -> (account: &mut Self)
        ensures
            *account == (MockAccount { nonce, ..*old(self) }),
            *final(self) == *final(account),
    {
        self.nonce = nonce;
        self
    }

    /// Sets the balance.
    pub fn balance(&mut self, balance: Word) -> (account: &mut Self)
        ensures
            *account == (MockAccount { balance, ..*old(self) }),
            *final(self) == *final(account),
    {
        self.balance = balance;
        self
    }

    /// Sets the code.
    pub fn code(&mut self, code: Vec<u8>) -> (account: &mut Self)
        ensures
            *account == (MockAccount { code, ..*old(self) }),
            *final(self) == *final(account),
    {
        self.code = code;
        self
    }
}

} // verus!
