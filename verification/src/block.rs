//! The contents of a new block.
//!
//! A block is drafted on top of the best chain. The draft holds what the
//! deferred pool is to choose transactions by. Once these have come, it names
//! the accounts whose slot transactions go along, one for every four.
use std::sync::Arc;
use vstd::prelude::*;

use crate::config::BestInformation;
use crate::hash::Address;
use crate::packing::PackRequest;
use crate::transaction::{Action, SignedTransaction, SlotTx, Transaction};
use crate::u256::U256;

verus! {

/// A block that waits for the transactions of the deferred pool.
pub struct BlockDraft {
    pub best_info: Arc<BestInformation>,
    pub request: PackRequest,
    pub additional_transactions: Vec<Arc<SignedTransaction>>,
}

/// A block that waits for its slot transactions.
pub struct SlotDraft {
    pub best_info: Arc<BestInformation>,
    pub gas_limit: U256,
    pub transactions: Vec<Arc<SignedTransaction>>,
    /// The accounts whose first slot transaction goes into the block.
    pub accounts: Vec<Address>,
}

/// How many slot transactions go with the given number of transactions from
/// the pool.
pub open spec fn slot_tx_limit(from_pool: nat) -> nat {
    from_pool / 4
}

/// The accounts whose slot transactions go into a block: the first of those
/// that have one ready, if any are known to.
pub open spec fn slot_tx_accounts(from_pool: nat, ready: Option<Seq<Address>>) -> Seq<Address> {
    match ready {
        Some(list) => if list.len() <= slot_tx_limit(from_pool) {
            list
        } else {
            list.take(slot_tx_limit(from_pool) as int)
        },
        None => Seq::empty(),
    }
}

impl BlockDraft {
    /// Goes on once the transactions of the deferred pool and the accounts
    /// with a slot transaction ready are known.
    pub fn on_packed(
        self,
        transactions_from_pool: Vec<Arc<SignedTransaction>>,
        ready: Option<Vec<Address>>,
    ) -> (r: SlotDraft)
        ensures
            r.best_info == self.best_info,
            r.gas_limit == self.request.block_gas_limit,
            r.transactions@ == self.additional_transactions@ + transactions_from_pool@,
            r.accounts@ == slot_tx_accounts(
                transactions_from_pool@.len(),
                match ready {
                    Some(list) => Some(list@),
                    None => None,
                },
            ),
    {
        let slot_tx_limit: usize = transactions_from_pool.len() / 4;
        let accounts = match ready {
            Some(list) => {
                let mut accounts = list;
                accounts.truncate(slot_tx_limit);
                accounts
            },
            None => Vec::new(),
        };
        let mut transactions = self.additional_transactions;
        let mut transactions_from_pool = transactions_from_pool;
        transactions.append(&mut transactions_from_pool);
        SlotDraft {
            best_info: self.best_info,
            gas_limit: self.request.block_gas_limit,
            transactions,
            accounts,
        }
    }
}

impl SlotDraft {
    /// The block: what consensus reported last, the gas limit, and all
    /// transactions with the slot transactions at the end.
    pub fn on_slot_transactions(self, slot_tx_pool: Vec<Arc<SignedTransaction>>) -> (r: (
        Arc<BestInformation>,
        U256,
        Vec<Arc<SignedTransaction>>,
    ))
        ensures
            r.0 == self.best_info,
            r.1 == self.gas_limit,
            r.2@ == self.transactions@ + slot_tx_pool@,
    {
        let mut transactions = self.transactions;
        let mut slot_tx_pool = slot_tx_pool;
        transactions.append(&mut slot_tx_pool);
        (self.best_info, self.gas_limit, transactions)
    }
}

/// Whether a transaction does nothing but carry the slot transaction.
pub open spec fn carries(tx: Transaction, slot_tx: SlotTx) -> bool {
    &&& tx.nonce@ == 0
    &&& tx.gas_price@ == 0
    &&& tx.gas@ == 0
    &&& tx.action is Create
    &&& tx.value@ == 0
    &&& tx.storage_limit@ == 0
    &&& tx.epoch_height == 0
    &&& tx.chain_id == 0
    &&& tx.data@.len() == 0
    &&& tx.slot_tx == Some(slot_tx)
}

/// For each slot transaction the transaction that carries it in a block.
pub fn get_list_of_slot_tx(heads: Vec<SlotTx>) -> (r: Vec<Transaction>)
    ensures
        r@.len() == heads@.len(),
        forall|i: int| 0 <= i < heads@.len() ==> carries(#[trigger] r@[i], heads@[i]),
{
    let mut list: Vec<Transaction> = Vec::new();
    for slot_tx in it: heads
        invariant
            it.seq() == heads@,
            list@.len() == it.index(),
            forall|i: int| 0 <= i < list@.len() ==> carries(#[trigger] list@[i], heads@[i]),
    {
        list.push(
            Transaction {
                nonce: U256::zero(),
                gas_price: U256::zero(),
                gas: U256::zero(),
                action: Action::Create,
                value: U256::zero(),
                storage_limit: U256::zero(),
                epoch_height: 0,
                chain_id: 0,
                data: Vec::new(),
                slot_tx: Some(slot_tx),
            },
        );
    }
    list
}

} // verus!
