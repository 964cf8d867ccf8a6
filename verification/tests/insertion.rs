use std::sync::Arc;

use txpool::config::{BestInformation, TxPoolConfig, VerificationConfig};
use txpool::hash::{Address, H256};
use txpool::insertion::{Insertion, InsertionStage};
use txpool::notification::Notification;
use txpool::pool::TransactionPool;
use txpool::transaction::{
    Action, CheckedTransaction, InsertRequest, SignedTransaction, Transaction, TransactionChecks,
    TransactionWithSignature,
};
use txpool::u256::U256;

fn hash(n: u128) -> H256 {
    H256 { hi: n, lo: 1000 - n }
}

fn unsigned(gas: U256, gas_price: U256, epoch_height: u64) -> Transaction {
    Transaction {
        nonce: U256::zero(),
        gas_price,
        gas,
        action: Action::Call(Address { bytes: [7; 20] }),
        value: U256::zero(),
        storage_limit: U256::zero(),
        epoch_height,
        chain_id: 2,
        data: vec![],
        slot_tx: None,
    }
}

fn with_signature(n: u128, unsigned: Transaction) -> TransactionWithSignature {
    TransactionWithSignature {
        unsigned,
        v: 0,
        r: U256::from_u64(1),
        s: U256::from_u64(2),
        hash: hash(n),
    }
}

fn plain(n: u128) -> TransactionWithSignature {
    with_signature(n, unsigned(U256::from_u64(21000), U256::from_u64(1), 5))
}

fn signed(n: u128) -> Arc<SignedTransaction> {
    Arc::new(SignedTransaction { transaction: plain(n), sender: Address { bytes: [9; 20] } })
}

fn fine() -> TransactionChecks {
    TransactionChecks { common_error: None, epoch_bound: 0 }
}

fn good(n: u128) -> CheckedTransaction {
    CheckedTransaction { transaction: plain(n), checks: fine() }
}

fn bad(n: u128, why: &str) -> CheckedTransaction {
    CheckedTransaction {
        transaction: plain(n),
        checks: TransactionChecks { common_error: Some(why.to_string()), epoch_bound: 0 },
    }
}

fn pool() -> TransactionPool {
    TransactionPool::new(
        TxPoolConfig::default(),
        VerificationConfig { transaction_epoch_bound: 100000 },
    )
}

fn best(best_epoch_number: u64) -> BestInformation {
    BestInformation { chain_id: 2, best_block_hash: H256::zero(), best_epoch_number }
}

fn failure(b: &Insertion, n: u128) -> Option<String> {
    b.failure.get(&hash(n)).map(|s| s.clone())
}

fn waiting(b: &Insertion) -> Vec<H256> {
    match &b.stage {
        InsertionStage::Quota(txs) => txs.iter().map(|t| t.hash).collect(),
        InsertionStage::Recovery(txs) => txs.iter().map(|t| t.hash).collect(),
        InsertionStage::Inserting { current, rest } => {
            let mut v = vec![current.transaction.hash];
            v.extend(rest.iter().map(|t| t.transaction.hash));
            v
        }
        InsertionStage::Done => vec![],
    }
}

#[test]
fn default_config() {
    let config = TxPoolConfig::default();
    assert_eq!(config.capacity, 500_000);
    assert_eq!(config.min_tx_price, 1);
    assert_eq!(config.max_tx_gas, 100_000_000);
    assert_eq!(config.tx_weight_scaling, 1);
    assert_eq!(config.tx_weight_exp, 1);
    assert_eq!(config.size_of(), 0);
    assert_eq!(pool().config().max_tx_gas, 100_000_000);
    assert_eq!(pool().verification_config().transaction_epoch_bound, 100000);
}

#[test]
fn common_error_comes_first_and_only_with_the_basic_check() {
    let tx = with_signature(1, unsigned(U256::from_u64(200_000_000), U256::zero(), 5));
    let checks = TransactionChecks { common_error: Some("ChainIdMismatch".to_string()), epoch_bound: -1 };
    let p = pool();
    assert_eq!(
        p.verify_transaction_tx_pool(&tx, true, &checks, &best(9)),
        Err("ChainIdMismatch".to_string())
    );
    assert_eq!(
        p.verify_transaction_tx_pool(&tx, false, &checks, &best(9)),
        Err("transaction epoch height 5 is out side the range of the current pivot height (9) bound, only 100000 drift allowed!".to_string())
    );
}

#[test]
fn epoch_height_is_checked_only_once_a_chain_is_known() {
    let old = TransactionChecks { common_error: None, epoch_bound: -1 };
    let early = TransactionChecks { common_error: None, epoch_bound: 1 };
    let p = pool();
    assert_eq!(p.verify_transaction_tx_pool(&plain(1), true, &old, &best(0)), Ok(()));
    assert_eq!(
        p.verify_transaction_tx_pool(&plain(1), true, &old, &best(123456789012)),
        Err("transaction epoch height 5 is out side the range of the current pivot height (123456789012) bound, only 100000 drift allowed!".to_string())
    );
    assert_eq!(p.verify_transaction_tx_pool(&plain(1), true, &early, &best(9)), Ok(()));
}

#[test]
fn gas_above_the_maximum_is_refused() {
    let p = pool();
    let at = with_signature(1, unsigned(U256::from_u64(100_000_000), U256::from_u64(1), 5));
    let above = with_signature(1, unsigned(U256::from_u64(100_000_001), U256::from_u64(1), 5));
    let huge = with_signature(1, unsigned(U256 { words: [u64::MAX; 4] }, U256::zero(), 5));
    assert_eq!(p.verify_transaction_tx_pool(&at, true, &fine(), &best(9)), Ok(()));
    assert_eq!(
        p.verify_transaction_tx_pool(&above, true, &fine(), &best(9)),
        Err("transaction gas 100000001 exceeds the maximum value 100000000".to_string())
    );
    assert_eq!(
        p.verify_transaction_tx_pool(&huge, true, &fine(), &best(9)),
        Err("transaction gas 115792089237316195423570985008687907853269984665640564039457584007913129639935 exceeds the maximum value 100000000".to_string())
    );
}

#[test]
fn gas_price_below_the_minimum_is_refused() {
    let mut config = TxPoolConfig::default();
    config.min_tx_price = 20;
    let p = TransactionPool::new(config, VerificationConfig { transaction_epoch_bound: 3 });
    let below = with_signature(1, unsigned(U256::from_u64(1), U256::from_u64(19), 5));
    let at = with_signature(1, unsigned(U256::from_u64(1), U256::from_u64(20), 5));
    let zero = with_signature(1, unsigned(U256::from_u64(1), U256::zero(), 5));
    let high = with_signature(1, unsigned(U256::from_u64(1), U256 { words: [0, 1, 0, 0] }, 5));
    assert_eq!(
        p.verify_transaction_tx_pool(&below, true, &fine(), &best(9)),
        Err("transaction gas price 19 less than the minimum value 20".to_string())
    );
    assert_eq!(
        p.verify_transaction_tx_pool(&zero, true, &fine(), &best(9)),
        Err("transaction gas price 0 less than the minimum value 20".to_string())
    );
    assert_eq!(p.verify_transaction_tx_pool(&at, true, &fine(), &best(9)), Ok(()));
    assert_eq!(p.verify_transaction_tx_pool(&high, true, &fine(), &best(9)), Ok(()));
}

#[test]
fn screening_moves_the_last_transaction_to_a_dropped_place() {
    let b = pool().insert_new_transactions(vec![
        good(1),
        bad(2, "two"),
        good(3),
        good(4),
        bad(5, "five"),
    ]);
    assert!(matches!(b.stage, InsertionStage::Quota(_)));
    assert_eq!(waiting(&b), vec![hash(1), hash(4), hash(3)]);
    assert_eq!(b.failure.len(), 2);
    assert_eq!(failure(&b, 2), Some("two".to_string()));
    assert_eq!(failure(&b, 5), Some("five".to_string()));
    assert!(b.passed.is_empty());
}

#[test]
fn screening_uses_what_consensus_reported() {
    let mut p = pool();
    let old = CheckedTransaction {
        transaction: plain(1),
        checks: TransactionChecks { common_error: None, epoch_bound: -1 },
    };
    assert_eq!(waiting(&p.insert_new_transactions(vec![old.clone()])).len(), 1);
    let report: Notification<()> = p.notify_new_best_info(Arc::new(best(77)));
    assert!(matches!(report, Notification::Finished(Ok(()))));
    let b = p.insert_new_transactions(vec![old]);
    assert_eq!(waiting(&b).len(), 0);
    assert_eq!(
        failure(&b, 1),
        Some("transaction epoch height 5 is out side the range of the current pivot height (77) bound, only 100000 drift allowed!".to_string())
    );
}

#[test]
fn of_two_reasons_for_one_hash_the_later_stands() {
    // The last transaction takes the place of the first, so its reason is
    // recorded before that of the one in the middle.
    let b = pool().insert_new_transactions(vec![bad(1, "first"), bad(1, "middle"), bad(1, "last")]);
    assert_eq!(b.failure.len(), 1);
    assert_eq!(failure(&b, 1), Some("middle".to_string()));
}

#[test]
fn quota_cuts_the_end_of_the_batch() {
    let p = pool();
    let b = p.insert_new_transactions(vec![good(1), good(2), bad(3, "three"), good(4)]);
    assert_eq!(waiting(&b), vec![hash(1), hash(2), hash(4)]);
    let b = b.on_quota(2);
    assert!(matches!(b.stage, InsertionStage::Recovery(_)));
    assert_eq!(waiting(&b), vec![hash(1), hash(2)]);
    assert_eq!(failure(&b, 4), Some("txpool is full".to_string()));
    assert_eq!(failure(&b, 3), Some("three".to_string()));
    assert_eq!(b.failure.len(), 2);
}

#[test]
fn quota_that_suffices_changes_nothing() {
    let b = pool().insert_new_transactions(vec![good(1), good(2)]).on_quota(2);
    assert_eq!(waiting(&b), vec![hash(1), hash(2)]);
    assert_eq!(b.failure.len(), 0);
}

#[test]
fn nothing_left_after_the_quota_ends_the_batch() {
    let b = pool().insert_new_transactions(vec![good(1)]).on_quota(0);
    assert!(matches!(b.stage, InsertionStage::Done));
    assert_eq!(failure(&b, 1), Some("txpool is full".to_string()));
    let b = pool().insert_new_transactions(vec![]).on_quota(10);
    assert!(matches!(b.stage, InsertionStage::Done));
    assert_eq!(b.failure.len(), 0);
}

#[test]
fn failed_recovery_refuses_the_whole_batch() {
    let b = pool()
        .insert_new_transactions(vec![good(1), good(2), good(3)])
        .on_quota(2)
        .on_recovery(Err("InvalidSignature".to_string()));
    assert!(matches!(b.stage, InsertionStage::Done));
    assert!(b.passed.is_empty());
    assert_eq!(failure(&b, 1), Some("InvalidSignature".to_string()));
    assert_eq!(failure(&b, 2), Some("InvalidSignature".to_string()));
    assert_eq!(failure(&b, 3), Some("txpool is full".to_string()));
}

#[test]
fn recovery_of_nothing_ends_the_batch() {
    let b = pool().insert_new_transactions(vec![good(1)]).on_quota(5).on_recovery(Ok(vec![]));
    assert!(matches!(b.stage, InsertionStage::Done));
    assert_eq!(b.failure.len(), 0);
    assert!(b.passed.is_empty());
    assert!(b.request().is_none());
}

#[test]
fn outcomes_are_recorded_one_by_one() {
    let mut p = pool();
    let b = p.insert_new_transactions(vec![good(3), good(2), good(1)]).on_quota(9);
    assert!(b.request().is_none());
    let b = b.on_recovery(Ok(vec![signed(3), signed(2), signed(1)]));
    assert_eq!(
        b.request(),
        Some(InsertRequest { transaction: signed(3), packed: false, force: false })
    );
    let b = p.on_outcome(b, Ok(()));
    assert_eq!(b.request().unwrap().transaction, signed(2));
    let b = p.on_outcome(b, Err("stale nonce".to_string()));
    assert_eq!(b.request().unwrap().transaction, signed(1));
    let b = p.on_outcome(b, Ok(()));
    assert!(matches!(b.stage, InsertionStage::Done));
    assert_eq!(b.passed, vec![signed(3), signed(1)]);
    assert_eq!(b.failure.len(), 1);
    assert_eq!(failure(&b, 2), Some("stale nonce".to_string()));
    let out = p.get_to_be_propagated_transactions();
    assert_eq!(out.len(), 2);
    assert_eq!(*out.get(&hash(3)).unwrap(), signed(3));
    assert_eq!(*out.get(&hash(1)).unwrap(), signed(1));
    assert!(out.contains_key(&hash(3)));
    assert!(out.contains_key(&hash(1)));
    assert!(!out.contains_key(&hash(2)));
}

#[test]
fn what_recovery_leaves_out_is_ignored() {
    let mut p = pool();
    let b = p
        .insert_new_transactions(vec![good(1), good(2)])
        .on_quota(9)
        .on_recovery(Ok(vec![signed(2)]));
    let b = p.on_outcome(b, Ok(()));
    assert_eq!(b.passed, vec![signed(2)]);
    assert!(failure(&b, 1).is_none());
    assert!(!p.get_to_be_propagated_transactions().contains_key(&hash(1)));
}

#[test]
fn a_transaction_to_be_sent_already_is_kept() {
    let mut p = pool();
    let mut other = (*signed(1)).clone();
    other.sender = Address { bytes: [1; 20] };
    let mut m = p.get_to_be_propagated_transactions();
    m.insert(hash(1), Arc::new(other.clone()));
    p.set_to_be_propagated_transactions(m);
    let b = p.insert_new_transactions(vec![good(1)]).on_quota(1).on_recovery(Ok(vec![signed(1)]));
    let b = p.on_outcome(b, Ok(()));
    assert_eq!(b.passed, vec![signed(1)]);
    let out = p.get_to_be_propagated_transactions();
    assert_eq!(out.get(&hash(1)).unwrap().sender, other.sender);
}

#[test]
fn one_hash_may_both_pass_and_fail() {
    let mut p = pool();
    let b = p
        .insert_new_transactions(vec![good(1), good(1)])
        .on_quota(2)
        .on_recovery(Ok(vec![signed(1), signed(1)]));
    let b = p.on_outcome(b, Ok(()));
    let b = p.on_outcome(b, Err("already there".to_string()));
    assert_eq!(b.passed.len(), 1);
    assert_eq!(failure(&b, 1), Some("already there".to_string()));
    assert!(p.get_to_be_propagated_transactions().contains_key(&hash(1)));
}

#[test]
fn refused_transactions_stay_refused_to_the_end() {
    let mut p = pool();
    let b = p.insert_new_transactions(vec![good(1), bad(2, "two"), good(3), good(4)]).on_quota(2);
    assert_eq!(waiting(&b), vec![hash(1), hash(4)]);
    let b = b.on_recovery(Ok(vec![signed(1), signed(4)]));
    let b = p.on_outcome(b, Ok(()));
    let b = p.on_outcome(b, Err("four".to_string()));
    assert!(matches!(b.stage, InsertionStage::Done));
    assert_eq!(b.passed, vec![signed(1)]);
    assert_eq!(b.failure.len(), 3);
    assert_eq!(failure(&b, 2), Some("two".to_string()));
    assert_eq!(failure(&b, 3), Some("txpool is full".to_string()));
    assert_eq!(failure(&b, 4), Some("four".to_string()));
    assert_eq!(p.to_propagate_trans().len(), 1);
    assert_eq!(p.to_propagate_trans().get(&hash(1)), Some(&signed(1)));
}

#[test]
fn of_two_that_pass_with_one_hash_the_first_is_propagated() {
    let mut p = pool();
    let mut other = (*signed(1)).clone();
    other.sender = Address { bytes: [1; 20] };
    let b = p
        .insert_new_transactions(vec![good(1), good(1)])
        .on_quota(2)
        .on_recovery(Ok(vec![signed(1), Arc::new(other)]));
    let b = p.on_outcome(b, Ok(()));
    let b = p.on_outcome(b, Ok(()));
    assert_eq!(b.passed.len(), 2);
    assert_eq!(p.to_propagate_trans().get(&hash(1)), Some(&signed(1)));
}

#[test]
fn without_a_common_error_the_basic_check_makes_no_difference() {
    let p = pool();
    let tx = with_signature(1, unsigned(U256::from_u64(100_000_001), U256::from_u64(1), 5));
    assert_eq!(
        p.verify_transaction_tx_pool(&tx, true, &fine(), &best(9)),
        p.verify_transaction_tx_pool(&tx, false, &fine(), &best(9))
    );
}
