use std::sync::Arc;

use txpool::block::get_list_of_slot_tx;
use txpool::config::{BestInformation, GasLimitParams, TxPoolConfig, VerificationConfig};
use txpool::hash::{Address, H256};
use txpool::notification::Notification;
use txpool::packing::compute_gas_limit;
use txpool::pool::{PartSizes, PoolCounts, TransactionPool};
use txpool::signal::{global_slot_tx_account_list_address, global_slot_tx_queue_address};
use txpool::text::decimal_u64;
use txpool::transaction::{
    Action, CheckParams, InsertRequest, SignedTransaction, SlotTx, Transaction,
    TransactionWithSignature,
};
use txpool::txmap::TxMap;
use txpool::u256::U256;

fn hash(n: u128) -> H256 {
    H256 { hi: n, lo: 1000 - n }
}

fn signed(n: u128) -> Arc<SignedTransaction> {
    Arc::new(SignedTransaction {
        transaction: TransactionWithSignature {
            unsigned: Transaction {
                nonce: U256::zero(),
                gas_price: U256::from_u64(1),
                gas: U256::from_u64(21000),
                action: Action::Create,
                value: U256::zero(),
                storage_limit: U256::zero(),
                epoch_height: 0,
                chain_id: 2,
                data: vec![1, 2],
                slot_tx: None,
            },
            v: 0,
            r: U256::from_u64(1),
            s: U256::from_u64(2),
            hash: hash(n),
        },
        sender: Address { bytes: [9; 20] },
    })
}

fn pool(transaction_epoch_bound: u64) -> TransactionPool {
    TransactionPool::new(TxPoolConfig::default(), VerificationConfig { transaction_epoch_bound })
}

fn best(best_epoch_number: u64) -> Arc<BestInformation> {
    Arc::new(BestInformation { chain_id: 2, best_block_hash: hash(5), best_epoch_number })
}

fn params(divisor: u64, min: u64) -> GasLimitParams {
    GasLimitParams {
        gas_limit_bound_divisor: U256::from_u64(divisor),
        min_gas_limit: U256::from_u64(min),
    }
}

fn limit(target: u64, parent: u64, divisor: u64, min: u64) -> U256 {
    compute_gas_limit(target, U256::from_u64(parent), &params(divisor, min))
}

fn address(n: u8) -> Address {
    Address { bytes: [n; 20] }
}

#[test]
fn new_pool_knows_nothing() {
    let mut p = pool(3);
    assert_eq!(
        *p.consensus_best_info(),
        BestInformation { chain_id: 0, best_block_hash: H256::zero(), best_epoch_number: 0 }
    );
    assert!(p.set_tx_requests().is_empty());
    assert!(p.recycle_tx_requests().is_empty());
    assert_eq!(p.to_propagate_trans().len(), 0);
    assert_eq!(p.get_to_be_propagated_transactions().len(), 0);
}

#[test]
fn map_keeps_the_order_of_hashes() {
    let mut m: TxMap<u32> = TxMap::new();
    m.insert(H256 { hi: 2, lo: 0 }, 20);
    m.insert(H256 { hi: 1, lo: 7 }, 17);
    m.insert(H256 { hi: 1, lo: 3 }, 13);
    m.insert(H256 { hi: 3, lo: 0 }, 30);
    m.insert(H256 { hi: 1, lo: 7 }, 18);
    assert_eq!(m.len(), 4);
    assert_eq!(m.get(&H256 { hi: 1, lo: 7 }), Some(&18));
    assert_eq!(m.get(&H256 { hi: 1, lo: 4 }), None);
    m.remove(&H256 { hi: 2, lo: 0 });
    m.remove(&H256 { hi: 9, lo: 0 });
    assert!(!m.contains_key(&H256 { hi: 2, lo: 0 }));
    assert_eq!(
        m.into_entries(),
        vec![
            (H256 { hi: 1, lo: 3 }, 13),
            (H256 { hi: 1, lo: 7 }, 18),
            (H256 { hi: 3, lo: 0 }, 30)
        ]
    );
}

#[test]
fn map_extends_with_the_other_values() {
    let mut m: TxMap<u32> = TxMap::new();
    m.insert(hash(1), 1);
    m.insert(hash(2), 2);
    let mut other: TxMap<u32> = TxMap::new();
    other.insert(hash(2), 20);
    other.insert(hash(3), 30);
    m.extend(other);
    assert_eq!(m.into_entries(), vec![(hash(1), 1), (hash(2), 20), (hash(3), 30)]);
}

#[test]
fn handing_out_and_putting_back() {
    let mut p = pool(3);
    let mut m: TxMap<Arc<SignedTransaction>> = TxMap::new();
    m.insert(hash(1), signed(1));
    m.insert(hash(2), signed(2));
    p.set_to_be_propagated_transactions(m);
    p.remove_to_be_propagated_transactions(&hash(2));
    p.remove_to_be_propagated_transactions(&hash(8));
    let out = p.get_to_be_propagated_transactions();
    assert_eq!(out.len(), 1);
    assert!(out.contains_key(&hash(1)));
    assert_eq!(p.get_to_be_propagated_transactions().len(), 0);
    p.set_to_be_propagated_transactions(out);
    let again = p.get_to_be_propagated_transactions();
    assert_eq!(again.len(), 1);
    assert_eq!(*again.get(&hash(1)).unwrap(), signed(1));
}

/// Handles a report to its end; the account reads answer with `reads`.
fn handle_report(
    p: &mut TransactionPool,
    best_info: Arc<BestInformation>,
    reads: Vec<Result<(), u8>>,
) -> (Vec<InsertRequest>, Result<(), u8>) {
    let mut offered = vec![];
    let mut reads = reads.into_iter();
    let mut report = p.notify_new_best_info(best_info);
    loop {
        report = match report {
            Notification::Reading(request) => {
                Notification::Reading(request).on_account_read(reads.next().unwrap())
            }
            Notification::Inserting(request) => {
                offered.push(request.clone());
                p.on_offered(Notification::Inserting(request))
            }
            Notification::Finished(result) => return (offered, result),
        };
    }
}

fn packed(n: u128) -> InsertRequest {
    InsertRequest { transaction: signed(n), packed: true, force: false }
}

fn recycled(n: u128) -> InsertRequest {
    InsertRequest { transaction: signed(n), packed: false, force: true }
}

#[test]
fn remembered_transactions_are_offered_latest_first() {
    let mut p = pool(3);
    p.recycle_transactions(vec![signed(1), signed(2)]);
    p.set_tx_packed(&vec![signed(3), signed(4)]);
    p.set_tx_packed(&vec![]);
    p.recycle_transactions(vec![]);
    p.set_tx_packed(&vec![signed(5)]);
    assert_eq!(*p.set_tx_requests(), vec![signed(3), signed(4), signed(5)]);
    assert_eq!(*p.recycle_tx_requests(), vec![signed(1), signed(2)]);
    let (offered, result) = handle_report(&mut p, best(9), vec![Ok(()), Ok(())]);
    assert_eq!(p.consensus_best_info().best_epoch_number, 9);
    assert_eq!(offered, vec![packed(5), packed(4), packed(3), recycled(2), recycled(1)]);
    assert_eq!(result, Ok(()));
    let (offered, result) = handle_report(&mut p, best(10), vec![]);
    assert!(offered.is_empty());
    assert_eq!(result, Ok(()));
}

#[test]
fn a_failed_account_read_ends_the_report() {
    let mut p = pool(3);
    p.recycle_transactions(vec![signed(1), signed(2), signed(3), signed(4)]);
    p.set_tx_packed(&vec![signed(5)]);
    let (offered, result) = handle_report(&mut p, best(9), vec![Ok(()), Ok(()), Err(77)]);
    assert_eq!(result, Err(77));
    assert_eq!(offered, vec![packed(5), recycled(4), recycled(3)]);
    assert_eq!(p.consensus_best_info().best_epoch_number, 9);
    assert!(p.set_tx_requests().is_empty());
    assert_eq!(*p.recycle_tx_requests(), vec![signed(1)]);
    let (offered, result) = handle_report(&mut p, best(10), vec![Ok(())]);
    assert_eq!(offered, vec![recycled(1)]);
    assert_eq!(result, Ok(()));
}

#[test]
fn outside_checks_use_the_reported_chain() {
    let mut p = pool(33);
    assert_eq!(
        p.check_params(),
        CheckParams { chain_id: 0, best_height: 0, transaction_epoch_bound: 33 }
    );
    let _ = handle_report(&mut p, best(9), vec![]);
    assert_eq!(
        p.check_params(),
        CheckParams { chain_id: 2, best_height: 9, transaction_epoch_bound: 33 }
    );
}

#[test]
fn epoch_window_of_a_block() {
    let r = pool(10).pack_transactions(7, U256::from_u64(30), 200, 100);
    assert_eq!(r.num_txs, 7);
    assert_eq!(r.block_gas_limit, U256::from_u64(30));
    assert_eq!(r.block_size_limit, 200);
    assert_eq!(r.height_lower_bound, 91);
    assert_eq!(r.height_upper_bound, 111);
    let r = pool(10).pack_transactions(7, U256::zero(), 200, 9);
    assert_eq!((r.height_lower_bound, r.height_upper_bound), (0, 20));
    let r = pool(10).pack_transactions(7, U256::zero(), 200, 10);
    assert_eq!((r.height_lower_bound, r.height_upper_bound), (1, 21));
    let r = pool(10).pack_transactions(7, U256::zero(), 200, u64::MAX - 11);
    assert_eq!(r.height_upper_bound, u64::MAX);
}

#[test]
fn gas_limit_is_the_target_within_its_bounds() {
    assert_eq!(limit(30_000_000, 30_000_000, 1024, 5000), U256::from_u64(30_000_000));
    assert_eq!(limit(30_000_000, 30_010_000, 1024, 5000), U256::from_u64(30_000_000));
}

#[test]
fn gas_limit_is_raised_and_cut() {
    assert_eq!(limit(30_000_000, 40_000_000, 1024, 5000), U256::from_u64(39_960_939));
    assert_eq!(limit(30_000_000, 20_000_000, 1024, 5000), U256::from_u64(20_019_530));
    assert_eq!(limit(0, 5000, 1024, 5000), U256::from_u64(5000));
    assert_eq!(limit(0, 5000, 1024, 0), U256::from_u64(4997));
}

#[test]
fn gas_limit_below_one_step_falls_by_one() {
    assert_eq!(limit(30_000_000, 1000, 1024, 1000), U256::from_u64(999));
}

#[test]
fn gas_limit_of_large_numbers() {
    let r = compute_gas_limit(
        17,
        U256 { words: [0, 0, 0, 1] },
        &GasLimitParams {
            gas_limit_bound_divisor: U256 { words: [0, 1, 0, 0] },
            min_gas_limit: U256::zero(),
        },
    );
    assert_eq!(r, U256 { words: [1, 0, u64::MAX, 0] });
}

#[test]
fn larger_and_smaller_numbers() {
    let a = U256 { words: [5, 0, 0, 1] };
    let b = U256 { words: [9, 9, 9, 0] };
    assert_eq!(a.max(b), a);
    assert_eq!(b.max(a), a);
    assert_eq!(a.min(b), b);
    assert_eq!(b.min(a), b);
}

#[test]
fn block_from_draft_to_contents() {
    let mut p = pool(10);
    let _ = handle_report(&mut p, best(100), vec![]);
    let draft = p.get_best_info_with_packed_transactions(
        7,
        200,
        vec![signed(1)],
        U256::from_u64(20_000_000),
        &params(1024, 5000),
    );
    assert_eq!(draft.request.num_txs, 7);
    assert_eq!(draft.request.block_gas_limit, U256::from_u64(20_019_530));
    assert_eq!(draft.request.block_size_limit, 200);
    assert_eq!(draft.request.height_lower_bound, 91);
    assert_eq!(draft.request.height_upper_bound, 111);
    let from_pool: Vec<Arc<SignedTransaction>> = (10..19).map(|n| signed(n)).collect();
    let draft = draft.on_packed(from_pool, Some(vec![address(1), address(2), address(3)]));
    assert_eq!(draft.accounts, vec![address(1), address(2)]);
    let (info, gas, txs) = draft.on_slot_transactions(vec![signed(30), signed(31)]);
    assert_eq!(info.best_epoch_number, 100);
    assert_eq!(gas, U256::from_u64(20_019_530));
    let hashes: Vec<u128> = txs.iter().map(|t| t.transaction.hash.hi).collect();
    assert_eq!(hashes, vec![1, 10, 11, 12, 13, 14, 15, 16, 17, 18, 30, 31]);
}

#[test]
fn slot_accounts_are_at_most_a_quarter() {
    let p = pool(10);
    let draft = || {
        p.get_best_info_with_packed_transactions(
            7,
            200,
            vec![],
            U256::from_u64(30_000_000),
            &params(1024, 5000),
        )
    };
    let txs = |n: u128| -> Vec<Arc<SignedTransaction>> { (0..n).map(|i| signed(i)).collect() };
    assert_eq!(draft().on_packed(txs(3), Some(vec![address(1)])).accounts, vec![]);
    assert_eq!(draft().on_packed(txs(4), Some(vec![address(1)])).accounts, vec![address(1)]);
    assert_eq!(draft().on_packed(txs(40), Some(vec![address(1)])).accounts, vec![address(1)]);
    assert_eq!(draft().on_packed(txs(40), None).accounts, vec![]);
}

#[test]
fn slot_transactions_carry_their_slot() {
    let heads = vec![SlotTx { encoded: vec![1] }, SlotTx { encoded: vec![2, 3] }];
    let txs = get_list_of_slot_tx(heads.clone());
    assert_eq!(txs.len(), 2);
    for (tx, head) in txs.iter().zip(heads.iter()) {
        assert_eq!(tx.nonce, U256::zero());
        assert_eq!(tx.gas_price, U256::zero());
        assert_eq!(tx.gas, U256::zero());
        assert_eq!(tx.action, Action::Create);
        assert_eq!(tx.value, U256::zero());
        assert_eq!(tx.storage_limit, U256::zero());
        assert_eq!((tx.epoch_height, tx.chain_id), (0, 0));
        assert!(tx.data.is_empty());
        assert_eq!(tx.slot_tx.as_ref(), Some(head));
    }
}

#[test]
fn local_account_info_defaults_to_zero() {
    let info = (U256::from_u64(4), U256::from_u64(5));
    assert_eq!(TransactionPool::get_local_account_info(Some(info)), info);
    assert_eq!(TransactionPool::get_local_account_info(None), (U256::zero(), U256::zero()));
}

#[test]
fn counts_and_sizes() {
    let counts = PoolCounts { deferred: 1, ready_accounts: 2, received: 3, unpacked: 4 };
    assert_eq!(TransactionPool::stats(&counts), (2, 1, 3, 4));
    let parts = PartSizes {
        inner: 1,
        to_propagate_trans: 20,
        data_man: 300,
        consensus_best_info: 4000,
        set_tx_requests: 50000,
        recycle_tx_requests: 600000,
    };
    assert_eq!(pool(1).size_of(&parts), 654321);
}

#[test]
fn decimal_text() {
    assert_eq!(decimal_u64(0), "0");
    assert_eq!(decimal_u64(10), "10");
    assert_eq!(decimal_u64(9876543210), "9876543210");
    assert_eq!(decimal_u64(u64::MAX), "18446744073709551615");
}

#[test]
fn slot_transaction_accounts() {
    assert_eq!(
        global_slot_tx_queue_address().bytes,
        [
            0xdb, 0x73, 0xc9, 0xd8, 0xee, 0xaa, 0xc3, 0xe5, 0xde, 0x3f, 0x83, 0xb7, 0x1f, 0xb7,
            0xaa, 0x4e, 0x41, 0x76, 0x4d, 0x09
        ]
    );
    assert_eq!(
        global_slot_tx_account_list_address().bytes,
        [
            0xba, 0xb6, 0x9e, 0xae, 0x9e, 0xa9, 0x58, 0xe5, 0x01, 0xea, 0x40, 0xb8, 0xc6, 0xdc,
            0x27, 0xa9, 0x61, 0x4a, 0x5b, 0x9b
        ]
    );
}
