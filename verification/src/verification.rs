//! The rules on a single transaction that have nothing to do with readiness.
use vstd::prelude::*;

use crate::config::{BestInformation, TxPoolConfig, VerificationConfig};
use crate::text::{decimal, decimal_u64};
use crate::transaction::{TransactionChecks, TransactionWithSignature};
use crate::u256::U256;

verus! {

/// The message for an epoch height that lies too far behind the chain.
pub open spec fn epoch_message(epoch_height: nat, best_height: nat, bound: nat) -> Seq<char> {
    "transaction epoch height "@ + decimal(epoch_height)
        + " is out side the range of the current pivot height ("@ + decimal(best_height)
        + ") bound, only "@ + decimal(bound) + " drift allowed!"@
}

/// The message for a transaction that asks for too much gas.
pub open spec fn gas_message(gas: nat, max_tx_gas: nat) -> Seq<char> {
    "transaction gas "@ + decimal(gas) + " exceeds the maximum value "@ + decimal(max_tx_gas)
}

/// The message for a transaction that pays too little for its gas.
pub open spec fn price_message(gas_price: nat, min_tx_price: nat) -> Seq<char> {
    "transaction gas price "@ + decimal(gas_price) + " less than the minimum value "@ + decimal(
        min_tx_price,
    )
}

/// Why a transaction is not taken, or `None` where it passes. The first rule
/// that it breaks gives the message: the common verification, unless
/// `basic_check` is off; its epoch height, once consensus has reported a
/// chain; its gas; its gas price.
pub open spec fn objection(
    config: TxPoolConfig,
    verification: VerificationConfig,
    best: BestInformation,
    tx: TransactionWithSignature,
    basic_check: bool,
    checks: TransactionChecks,
) -> Option<Seq<char>> {
    if basic_check && checks.common_error is Some {
        Some(checks.common_error->0@)
    } else if best.best_epoch_number != 0 && checks.epoch_bound < 0 {
        Some(
            epoch_message(
                tx.unsigned.epoch_height as nat,
                best.best_epoch_number as nat,
                verification.transaction_epoch_bound as nat,
            ),
        )
    } else if tx.unsigned.gas@ > config.max_tx_gas {
        Some(gas_message(tx.unsigned.gas@, config.max_tx_gas as nat))
    } else if tx.unsigned.gas_price@ < config.min_tx_price {
        Some(price_message(tx.unsigned.gas_price@, config.min_tx_price as nat))
    } else {
        None
    }
}

/// Says whether a transaction passes, and if not why.
pub fn verify_transaction(
    config: &TxPoolConfig,
    verification: &VerificationConfig,
    best: &BestInformation,
    tx: &TransactionWithSignature,
    basic_check: bool,
    checks: &TransactionChecks,
) -> (r: Result<(), String>)
    ensures
        match r {
            Ok(()) => objection(*config, *verification, *best, *tx, basic_check, *checks) is None,
            Err(e) => objection(*config, *verification, *best, *tx, basic_check, *checks) == Some(
                e@,
            ),
        },
{
    if basic_check {
        if let Some(e) = &checks.common_error {
            return Err(e.clone());
        }
    }
    if best.best_epoch_number != 0 && checks.epoch_bound < 0 {
        let mut e = "transaction epoch height ".to_owned();
        e.append(decimal_u64(tx.unsigned.epoch_height).as_str());
        e.append(" is out side the range of the current pivot height (");
        e.append(decimal_u64(best.best_epoch_number).as_str());
        e.append(") bound, only ");
        e.append(decimal_u64(verification.transaction_epoch_bound).as_str());
        e.append(" drift allowed!");
        return Err(e);
    }
    if U256::from_u64(config.max_tx_gas).less_than(tx.unsigned.gas) {
        let mut e = "transaction gas ".to_owned();
        e.append(tx.unsigned.gas.to_decimal().as_str());
        e.append(" exceeds the maximum value ");
        e.append(decimal_u64(config.max_tx_gas).as_str());
        return Err(e);
    }
    if tx.unsigned.gas_price.less_than(U256::from_u64(config.min_tx_price)) {
        let mut e = "transaction gas price ".to_owned();
        e.append(tx.unsigned.gas_price.to_decimal().as_str());
        e.append(" less than the minimum value ");
        e.append(decimal_u64(config.min_tx_price).as_str());
        return Err(e);
    }
    Ok(())
}

} // verus!
