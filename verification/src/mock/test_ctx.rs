//! Ready-made set-ups for the accounts and transactions of a fixture.

use vstd::prelude::*;
use crate::mock::account::MockAccount;
use crate::mock::transaction::MockTransaction;
use crate::mock::{eth, MOCK_ACCOUNTS};

verus! {

/// Gives the first two fixture addresses and ten ether each to two accounts,
/// and the code to the first.
pub fn account_0_code_account_1_no_code(code: Vec<u8>, mut accs: [&mut MockAccount; 2])
    ensures
        *final(accs[0]) == (MockAccount {
            address: MOCK_ACCOUNTS[0],
            balance: final(accs[0]).balance,
            code,
            ..*accs[0]
        }),
        final(accs[0]).balance@ == 10 * 1_000_000_000_000_000_000,
        *final(accs[1]) == (MockAccount {
            address: MOCK_ACCOUNTS[1],
            balance: final(accs[1]).balance,
            ..*accs[1]
        }),
        final(accs[1]).balance@ == 10 * 1_000_000_000_000_000_000,
{
    accs[0].address(MOCK_ACCOUNTS[0]).balance(eth(10)).code(code);
    accs[1].address(MOCK_ACCOUNTS[1]).balance(eth(10));
    proof {
        assert(has_resolved(accs));
        assert(has_resolved(accs@[0]));
        assert(has_resolved(accs@[1]));
    }
}

/// Makes the first transaction go from the second account to the first.
pub fn tx_from_1_to_0(mut txs: Vec<&mut MockTransaction>, accs: [MockAccount; 2])
    requires
        txs.len() >= 1,
    ensures
        *final(txs[0]) == (MockTransaction {
            from: accs[1].address,
            to: Some(accs[0].address),
            ..*txs[0]
        }),
        forall|i: int| 1 <= i < txs.len() ==> *final(#[trigger] txs[i]) == *txs[i],
{
    let ghost before = txs@;
    txs[0].from(accs[1].address).to(accs[0].address);
    proof {
        assert(has_resolved(txs));
        assert forall|i: int| 1 <= i < before.len() implies *final(#[trigger] before[i])
            == *before[i] by {
            assert(txs@[i] == before[i]);
            assert(has_resolved(txs@[i]));
        }
    }
}

} // verus!
