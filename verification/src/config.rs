//! What the pool is set up with, and what it knows of the chain.
use vstd::prelude::*;

use crate::hash::H256;
use crate::u256::U256;

verus! {

/// The largest gas that one transaction may ask for, unless configured otherwise.
pub const DEFAULT_MAX_TRANSACTION_GAS_LIMIT: u64 = 100_000_000;

/// The gas that a new block aims for, unless configured otherwise.
pub const DEFAULT_TARGET_BLOCK_GAS_LIMIT: u64 = 30_000_000;

/// The settings of a transaction pool.
#[derive(Clone, Copy, Debug, PartialEq, Eq)]
pub struct TxPoolConfig {
    /// How many transactions the pool holds.
    pub capacity: usize,
    /// The smallest gas price that the pool takes.
    pub min_tx_price: u64,
    /// The largest gas that the pool takes.
    pub max_tx_gas: u64,
    /// The scale of a transaction's weight.
    pub tx_weight_scaling: u64,
    /// The exponent of a transaction's weight.
    pub tx_weight_exp: u8,
    /// The gas that a new block aims for.
    pub target_block_gas_limit: u64,
}

impl TxPoolConfig {
    /// The heap memory that the settings own: none.
    pub fn size_of(&self) -> (r: usize)
        ensures
            r == 0,
    {
        0
    }
}

impl Default for TxPoolConfig {
    fn default() -> (r: Self)
        ensures
            r == (TxPoolConfig {
                capacity: 500_000,
                min_tx_price: 1,
                max_tx_gas: DEFAULT_MAX_TRANSACTION_GAS_LIMIT,
                tx_weight_scaling: 1,
                tx_weight_exp: 1,
                target_block_gas_limit: DEFAULT_TARGET_BLOCK_GAS_LIMIT,
            }),
            r.max_tx_gas == 100_000_000,
            r.target_block_gas_limit == 30_000_000,
    {
        TxPoolConfig {
            capacity: 500_000,
            min_tx_price: 1,
            max_tx_gas: DEFAULT_MAX_TRANSACTION_GAS_LIMIT,
            tx_weight_scaling: 1,
            tx_weight_exp: 1,
            target_block_gas_limit: DEFAULT_TARGET_BLOCK_GAS_LIMIT,
        }
    }
}

/// The settings of transaction verification that the pool reads.
#[derive(Clone, Copy, Debug, PartialEq, Eq)]
pub struct VerificationConfig {
    /// How far the epoch height of a transaction may lie from the chain's.
    pub transaction_epoch_bound: u64,
}

/// What consensus holds to be the best chain.
#[derive(Clone, Copy, Debug, PartialEq, Eq)]
pub struct BestInformation {
    pub chain_id: u64,
    pub best_block_hash: H256,
    /// Zero as long as consensus has not reported a chain.
    pub best_epoch_number: u64,
}

impl Default for BestInformation {
    fn default() -> (r: Self)
        ensures
            r == (BestInformation {
                chain_id: 0,
                best_block_hash: H256 { hi: 0, lo: 0 },
                best_epoch_number: 0,
            }),
    {
        BestInformation { chain_id: 0, best_block_hash: H256::zero(), best_epoch_number: 0 }
    }
}

/// How the gas limit of a block may move from that of its parent.
#[derive(Clone, Copy, Debug, PartialEq, Eq)]
pub struct GasLimitParams {
    pub gas_limit_bound_divisor: U256,
    pub min_gas_limit: U256,
}

} // verus!
