//! The limits of a new block: its gas, and the epoch heights of the
//! transactions that the deferred pool is asked for.
use vstd::arithmetic::div_mod::{
    lemma_div_by_self, lemma_div_is_ordered, lemma_div_nonincreasing, lemma_div_pos_is_pos,
};
use vstd::prelude::*;

use crate::config::GasLimitParams;
use crate::u256::{lemma_u256_bounded, u256_limit, U256};

verus! {

/// What the deferred pool is asked to choose transactions for a block by.
#[derive(Clone, Copy, Debug, PartialEq, Eq)]
pub struct PackRequest {
    pub num_txs: usize,
    pub block_gas_limit: U256,
    pub block_size_limit: usize,
    /// The smallest epoch height of a transaction in the block.
    pub height_lower_bound: u64,
    /// The largest epoch height of a transaction in the block.
    pub height_upper_bound: u64,
}

/// The smallest epoch height for a block on top of the given height.
pub open spec fn lower_height(best_epoch_height: nat, bound: nat) -> nat {
    if best_epoch_height + 1 > bound {
        (best_epoch_height + 1 - bound) as nat
    } else {
        0
    }
}

/// The largest epoch height for a block on top of the given height.
pub open spec fn upper_height(best_epoch_height: nat, bound: nat) -> nat {
    best_epoch_height + 1 + bound
}

/// The smallest gas limit that a block may have after its parent.
pub open spec fn gas_lower(parent: nat, divisor: nat, min_gas_limit: nat) -> nat {
    let low = (parent - parent / divisor + 1) as nat;
    if low < min_gas_limit {
        min_gas_limit
    } else {
        low
    }
}

/// The largest gas limit that a block may have after its parent.
pub open spec fn gas_upper(parent: nat, divisor: nat) -> nat {
    (parent + parent / divisor - 1) as nat
}

/// The gas limit of a new block: its target, raised to the smallest and then
/// cut to the largest that it may have.
pub open spec fn gas_limit(target: nat, parent: nat, divisor: nat, min_gas_limit: nat) -> nat {
    let low = gas_lower(parent, divisor, min_gas_limit);
    let high = gas_upper(parent, divisor);
    let raised = if target < low {
        low
    } else {
        target
    };
    if high < raised {
        high
    } else {
        raised
    }
}

/// Whether the limits of a block after the given parent can be computed in
/// 256 bits.
pub open spec fn gas_limit_defined(parent: nat, params: GasLimitParams) -> bool {
    &&& params.gas_limit_bound_divisor@ != 0
    &&& 0 < parent
    &&& params.min_gas_limit@ <= parent
    &&& parent + parent / params.gas_limit_bound_divisor@ < u256_limit()
}

/// The gas limit of a new block after a parent with the given one.
pub fn compute_gas_limit(target: u64, parent: U256, params: &GasLimitParams) -> (r: U256)
    requires
        gas_limit_defined(parent@, *params),
    ensures
        r@ == gas_limit(
            target as nat,
            parent@,
            params.gas_limit_bound_divisor@,
            params.min_gas_limit@,
        ),
{
    let step = parent.divided_by(params.gas_limit_bound_divisor);
    let one = U256::from_u64(1);
    proof {
        let p = parent@ as int;
        let d = params.gas_limit_bound_divisor@ as int;
        lemma_u256_bounded(parent);
        lemma_u256_bounded(params.gas_limit_bound_divisor);
        lemma_div_nonincreasing(p, d);
        lemma_div_pos_is_pos(p, d);
        if p + 1 == u256_limit() {
            lemma_div_by_self(d);
            lemma_div_is_ordered(d, p, d);
        }
    }
    let gas_lower = parent.minus(step).plus(one).max(params.min_gas_limit);
    let gas_upper = parent.plus(step).minus(one);
    U256::from_u64(target).max(gas_lower).min(gas_upper)
}

} // verus!
