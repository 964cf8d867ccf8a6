//! Transactions as the pool sees them.
use std::sync::Arc;
use vstd::prelude::*;

use crate::hash::{Address, H256};
use crate::u256::U256;

verus! {

/// What a transaction does.
#[derive(Clone, Copy, Debug, PartialEq, Eq)]
pub enum Action {
    /// Creates a contract.
    Create,
    /// Calls the account at the address.
    Call(Address),
}

/// A slot transaction in its encoded form.
#[derive(Clone, Debug, PartialEq, Eq)]
pub struct SlotTx {
    pub encoded: Vec<u8>,
}

/// A transaction without its signature.
#[derive(Clone, Debug, PartialEq, Eq)]
pub struct Transaction {
    pub nonce: U256,
    pub gas_price: U256,
    pub gas: U256,
    pub action: Action,
    pub value: U256,
    pub storage_limit: U256,
    pub epoch_height: u64,
    pub chain_id: u64,
    pub data: Vec<u8>,
    pub slot_tx: Option<SlotTx>,
}

/// A transaction with its signature and its hash.
#[derive(Clone, Debug, PartialEq, Eq)]
pub struct TransactionWithSignature {
    pub unsigned: Transaction,
    pub v: u8,
    pub r: U256,
    pub s: U256,
    pub hash: H256,
}

/// A transaction whose sender has been recovered from its signature.
#[derive(Clone, Debug, PartialEq, Eq)]
pub struct SignedTransaction {
    pub transaction: TransactionWithSignature,
    pub sender: Address,
}

/// What the checks outside of the pool are made with.
#[derive(Clone, Copy, Debug, PartialEq, Eq)]
pub struct CheckParams {
    /// The chain that the common verification holds a transaction to.
    pub chain_id: u64,
    /// The height that the epoch window lies around.
    pub best_height: u64,
    /// How far the epoch window reaches.
    pub transaction_epoch_bound: u64,
}

/// What the checks outside of the pool said of a transaction.
#[derive(Clone, Debug, PartialEq, Eq)]
pub struct TransactionChecks {
    /// The text of the error of the common verification, if there was one.
    pub common_error: Option<String>,
    /// Where the epoch height lies: negative if it is too far behind the chain.
    pub epoch_bound: i8,
}

/// A transaction together with what the checks outside of the pool said of it.
#[derive(Clone, Debug, PartialEq, Eq)]
pub struct CheckedTransaction {
    pub transaction: TransactionWithSignature,
    pub checks: TransactionChecks,
}

/// An order to put a transaction into the deferred pool.
#[derive(Clone, Debug, PartialEq, Eq)]
pub struct InsertRequest {
    pub transaction: Arc<SignedTransaction>,
    /// Whether the transaction already stands in a block.
    pub packed: bool,
    /// Whether it must replace one with the same nonce.
    pub force: bool,
}

} // verus!
