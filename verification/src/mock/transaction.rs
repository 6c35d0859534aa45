//! A fixture transaction, set up field by field.

use vstd::prelude::*;
use crate::mock::{Address, Word};

verus! {

/// A transaction of a fixture.
#[derive(Clone, Debug, PartialEq, Eq)]
pub struct MockTransaction {
    /// Sender.
    pub from: Address,
    /// Receiver; none for a transaction that creates a contract.
    pub to: Option<Address>,
    /// Nonce of the sender.
    pub nonce: u64,
    /// Position of the transaction in its block.
    pub transaction_index: u64,
    /// Amount sent, in wei.
    pub value: Word,
    /// Call data.
    pub input: Vec<u8>,
}

impl Default for MockTransaction {
    /// The transaction from address 0 to nobody, first in its block, with
    /// nonce 0, no value and no call data.
    fn default() -> (tx: Self)
        ensures
            forall|i: int| 0 <= i < 20 ==> tx.from[i] == 0,
            tx.to is None,
            tx.nonce == 0,
            tx.transaction_index == 0,
            tx.value@ == 0,
            tx.input@ == Seq::<u8>::empty(),
    {
        MockTransaction {
            from: [0u8;20],
            to: None,
            nonce: 0,
            transaction_index: 0,
            value: Word::zero(),
            input: Vec::new(),
        }
    }
}

impl MockTransaction {
    /// Sets the sender.
    pub fn from(&mut self, from: Address) -> (tx: &mut Self)
        ensures
            *tx == (MockTransaction { from, ..*old(self) }),
            *final(self) == *final(tx),
    {
        self.from = from;
        self
    }

    /// Sets the receiver.
    pub fn to(&mut self, to: Address) -> (tx: &mut Self)
        ensures
            *tx == (MockTransaction { to: Some(to), ..*old(self) }),
            *final(self) == *final(tx),
    {
        self.to = Some(to);
        self
    }

    /// Sets the nonce of the sender.
    pub fn nonce(&mut self, nonce: u64) -> (tx: &mut Self)
        ensures
            *tx == (MockTransaction { nonce, ..*old(self) }),
            *final(self) == *final(tx),
    {
        self.nonce = nonce;
        self
    }

    /// Sets the position in the block.
    pub fn transaction_idx(&mut self, transaction_index: u64) -> (tx: &mut Self)
        ensures
            *tx == (MockTransaction { transaction_index, ..*old(self) }),
            *final(self) == *final(tx),
    {
        self.transaction_index = transaction_index;
        self
    }

    /// Sets the amount sent.
    pub fn value(&mut self, value: Word) -> (tx: &mut Self)
        ensures
            *tx == (MockTransaction { value, ..*old(self) }),
            *final(self) == *final(tx),
    {
        self.value = value;
        self
    }
}

} // verus!
