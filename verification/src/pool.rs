//! The transaction pool.
use std::sync::Arc;
use vstd::prelude::*;

use crate::block::BlockDraft;
use crate::config::{BestInformation, GasLimitParams, TxPoolConfig, VerificationConfig};
use crate::hash::H256;
use crate::insertion::{lemma_texts_insert, texts, Insertion, InsertionStage};
use crate::model::{transactions_of, PoolView};
use crate::notification::Notification;
use crate::packing::{
    compute_gas_limit, gas_limit, gas_limit_defined, lower_height, upper_height, PackRequest,
};
use crate::transaction::{
    CheckParams, CheckedTransaction, InsertRequest, SignedTransaction, TransactionChecks,
    TransactionWithSignature,
};
use crate::txmap::TxMap;
use crate::u256::U256;
use crate::verification::{objection, verify_transaction};

verus! {

/// What the pool keeps beside the deferred pool.
pub struct TransactionPool {
    config: TxPoolConfig,
    verification_config: VerificationConfig,
    to_propagate_trans: TxMap<Arc<SignedTransaction>>,
    consensus_best_info: Arc<BestInformation>,
    set_tx_requests: Vec<Arc<SignedTransaction>>,
    recycle_tx_requests: Vec<Arc<SignedTransaction>>,
}

/// The heap memory of the parts of a pool, as measured.
#[derive(Clone, Copy, Debug, PartialEq, Eq)]
pub struct PartSizes {
    pub inner: usize,
    pub to_propagate_trans: usize,
    pub data_man: usize,
    pub consensus_best_info: usize,
    pub set_tx_requests: usize,
    pub recycle_tx_requests: usize,
}

impl PartSizes {
    /// The memory of all parts together.
    pub open spec fn total(self) -> nat {
        (self.inner + self.to_propagate_trans + self.data_man + self.consensus_best_info
            + self.set_tx_requests + self.recycle_tx_requests) as nat
    }
}

/// The numbers of transactions and accounts in the deferred pool.
#[derive(Clone, Copy, Debug, PartialEq, Eq)]
pub struct PoolCounts {
    pub deferred: usize,
    pub ready_accounts: usize,
    pub received: usize,
    pub unpacked: usize,
}

impl View for TransactionPool {
    type V = PoolView;

    closed spec fn view(&self) -> PoolView {
        PoolView {
            config: self.config,
            verification_config: self.verification_config,
            to_propagate_trans: self.to_propagate_trans@,
            consensus_best_info: self.consensus_best_info,
            set_tx_requests: self.set_tx_requests@,
            recycle_tx_requests: self.recycle_tx_requests@,
        }
    }
}

impl TransactionPool {
    /// A pool that knows nothing of the chain and holds no transaction.
    pub fn new(config: TxPoolConfig, verification_config: VerificationConfig) -> (r: Self)
        ensures
            r@ == (PoolView {
                config,
                verification_config,
                to_propagate_trans: Map::empty(),
                consensus_best_info: Arc::new(
                    BestInformation {
                        chain_id: 0,
                        best_block_hash: H256 { hi: 0, lo: 0 },
                        best_epoch_number: 0,
                    },
                ),
                set_tx_requests: Seq::empty(),
                recycle_tx_requests: Seq::empty(),
            }),
    {
        TransactionPool {
            config,
            verification_config,
            to_propagate_trans: TxMap::new(),
            consensus_best_info: Arc::new(BestInformation::default()),
            set_tx_requests: Vec::new(),
            recycle_tx_requests: Vec::new(),
        }
    }

    /// The settings of the pool.
    pub fn config(&self) -> (r: &TxPoolConfig)
        ensures
            *r == self@.config,
    {
        &self.config
    }

    /// The settings of transaction verification.
    pub fn verification_config(&self) -> (r: &VerificationConfig)
        ensures
            *r == self@.verification_config,
    {
        &self.verification_config
    }

    /// What consensus reported last.
    pub fn consensus_best_info(&self) -> (r: Arc<BestInformation>)
        ensures
            r == self@.consensus_best_info,
    {
        self.consensus_best_info.clone()
    }

    /// The transactions that are to be sent to other nodes.
    pub fn to_propagate_trans(&self) -> (r: &TxMap<Arc<SignedTransaction>>)
        ensures
            r@ == self@.to_propagate_trans,
    {
        &self.to_propagate_trans
    }

    /// The transactions that are to be marked as packed.
    pub fn set_tx_requests(&self) -> (r: &Vec<Arc<SignedTransaction>>)
        ensures
            r@ == self@.set_tx_requests,
    {
        &self.set_tx_requests
    }

    /// The transactions that are to be put back.
    pub fn recycle_tx_requests(&self) -> (r: &Vec<Arc<SignedTransaction>>)
        ensures
            r@ == self@.recycle_tx_requests,
    {
        &self.recycle_tx_requests
    }

    /// What the checks outside of the pool are made with: the chain and its
    /// height that consensus reported last, and the configured bound.
    pub fn check_params(&self) -> (r: CheckParams)
        ensures
            r == (CheckParams {
                chain_id: self@.consensus_best_info.chain_id,
                best_height: self@.consensus_best_info.best_epoch_number,
                transaction_epoch_bound: self@.verification_config.transaction_epoch_bound,
            }),
    {
        CheckParams {
            chain_id: self.consensus_best_info.chain_id,
            best_height: self.consensus_best_info.best_epoch_number,
            transaction_epoch_bound: self.verification_config.transaction_epoch_bound,
        }
    }

    /// The heap memory of the pool. The machine is not counted.
    pub fn size_of(&self, parts: &PartSizes) -> (r: usize)
        requires
            parts.total() <= usize::MAX,
        ensures
            r == parts.total(),
            r == parts.inner + parts.to_propagate_trans + parts.data_man
                + parts.consensus_best_info + parts.set_tx_requests + parts.recycle_tx_requests,
    {
        self.config.size_of() + parts.inner + parts.to_propagate_trans + parts.data_man
            + parts.consensus_best_info + parts.set_tx_requests + parts.recycle_tx_requests
    }

    /// The nonce and the balance of an account that the deferred pool may
    /// know: zero and zero where it does not.
    pub fn get_local_account_info(known: Option<(U256, U256)>) -> (r: (U256, U256))
        ensures
            match known {
                Some(info) => r == info,
                None => r.0@ == 0 && r.1@ == 0,
            },
    {
        match known {
            Some(info) => info,
            None => (U256::zero(), U256::zero()),
        }
    }

    /// The numbers of ready accounts and of deferred, received and unpacked
    /// transactions.
    pub fn stats(counts: &PoolCounts) -> (r: (usize, usize, usize, usize))
        ensures
            r == (counts.ready_accounts, counts.deferred, counts.received, counts.unpacked),
    {
        (counts.ready_accounts, counts.deferred, counts.received, counts.unpacked)
    }

    /// Verifies a transaction by the rules that have nothing to do with
    /// readiness. `checks` is what the common verification and the epoch
    /// window say of it; without `basic_check` the former is left aside.
    pub fn verify_transaction_tx_pool(
        &self,
        transaction: &TransactionWithSignature,
        basic_check: bool,
        checks: &TransactionChecks,
        current_best_info: &BestInformation,
    ) -> (r: Result<(), String>)
        ensures
            match r {
                Ok(()) => objection(
                    self@.config,
                    self@.verification_config,
                    *current_best_info,
                    *transaction,
                    basic_check,
                    *checks,
                ) is None,
                Err(e) => objection(
                    self@.config,
                    self@.verification_config,
                    *current_best_info,
                    *transaction,
                    basic_check,
                    *checks,
                ) == Some(e@),
            },
            r is Ok <==> {
                &&& basic_check ==> checks.common_error is None
                &&& current_best_info.best_epoch_number == 0 || checks.epoch_bound >= 0
                &&& transaction.unsigned.gas@ <= self@.config.max_tx_gas
                &&& transaction.unsigned.gas_price@ >= self@.config.min_tx_price
            },
    {
        verify_transaction(
            &self.config,
            &self.verification_config,
            current_best_info,
            transaction,
            basic_check,
            checks,
        )
    }

    /// Starts to insert a batch of new transactions: those that do not pass
    /// the verification are refused, the others wait for the quota.
    pub fn insert_new_transactions(&self, transactions: Vec<CheckedTransaction>) -> (r: Insertion)
        ensures
            r@ == self@.screened(transactions@),
    {
        let ghost all = transactions@;
        let mut transactions = transactions;
        let mut failure: TxMap<String> = TxMap::new();
        let mut index: usize = 0;
        assert(texts(failure@) =~= Map::<H256, Seq<char>>::empty());
        while index < transactions.len()
            invariant
                index <= transactions@.len(),
                self@.screen(transactions@, index as nat) == self@.screen(all, 0),
                self@.screen_failures(transactions@, index as nat, texts(failure@))
                    == self@.screen_failures(all, 0, Map::empty()),
            decreases transactions@.len() - index,
        {
            let verified = self.verify_transaction_tx_pool(
                &transactions[index].transaction,
                true,
                &transactions[index].checks,
                &self.consensus_best_info,
            );
            match verified {
                Ok(_) => {
                    index = index + 1;
                },
                Err(e) => {
                    let removed = transactions.swap_remove(index);
                    proof {
                        lemma_texts_insert(failure@, removed.transaction.hash, e);
                    }
                    failure.insert(removed.transaction.hash, e);
                },
            }
        }
        let ghost kept = transactions@;
        let mut waiting: Vec<TransactionWithSignature> = Vec::new();
        for c in it: transactions
            invariant
                it.seq() == kept,
                waiting@.len() == it.index(),
                forall|i: int|
                    0 <= i < waiting@.len() ==> #[trigger] waiting@[i] == kept[i].transaction,
        {
            waiting.push(c.transaction);
        }
        assert(waiting@ =~= transactions_of(kept));
        Insertion { stage: InsertionStage::Quota(waiting), passed: Vec::new(), failure }
    }

    /// Goes on with a batch once its current transaction has been inserted, or
    /// refused by the deferred pool.
    pub fn on_outcome(&mut self, insertion: Insertion, outcome: Result<(), String>) -> (r:
        Insertion)
        requires
            insertion.stage is Inserting,
        ensures
            ({
                let refused = match outcome {
                    Ok(()) => None::<Seq<char>>,
                    Err(e) => Some(e@),
                };
                &&& r@ == insertion@.after_outcome(refused)
                &&& final(self)@ == old(self)@.after_outcome(
                    insertion.stage->Inserting_current,
                    refused,
                )
            }),
    {
        let Insertion { stage, passed, failure } = insertion;
        let mut passed = passed;
        let mut failure = failure;
        match stage {
            InsertionStage::Inserting { current, rest } => {
                let mut rest = rest;
                let hash = current.transaction.hash;
                assert((seq![current] + rest@).skip(1) =~= rest@);
                match outcome {
                    Err(e) => {
                        proof {
                            lemma_texts_insert(failure@, hash, e);
                        }
                        failure.insert(hash, e);
                    },
                    Ok(()) => {
                        passed.push(current.clone());
                        if !self.to_propagate_trans.contains_key(&hash) {
                            self.to_propagate_trans.insert(hash, current);
                        }
                    },
                }
                let ghost waiting = rest@;
                let stage = match rest.pop_front() {
                    Some(next) => {
                        assert(seq![next] + rest@ =~= waiting);
                        InsertionStage::Inserting { current: next, rest }
                    },
                    None => InsertionStage::Done,
                };
                Insertion { stage, passed, failure }
            },
            stage => Insertion { stage, passed, failure },
        }
    }

    /// Hands out the transactions that are to be sent to other nodes; none is
    /// left.
    pub fn get_to_be_propagated_transactions(&mut self) -> (r: TxMap<Arc<SignedTransaction>>)
        ensures
            r@ == old(self)@.to_propagate_trans,
            final(self)@ == old(self)@.handed_out(),
    {
        let mut res: TxMap<Arc<SignedTransaction>> = TxMap::new();
        std::mem::swap(&mut self.to_propagate_trans, &mut res);
        res
    }

    /// Adds transactions to those that are to be sent to other nodes.
    pub fn set_to_be_propagated_transactions(
        &mut self,
        transactions: TxMap<Arc<SignedTransaction>>,
    )
        ensures
            final(self)@ == old(self)@.with_propagated(transactions@),
    {
        self.to_propagate_trans.extend(transactions);
    }

    /// Takes a transaction from those that are to be sent to other nodes.
    pub fn remove_to_be_propagated_transactions(&mut self, tx_hash: &H256)
        ensures
            final(self)@ == old(self)@.without_propagated(*tx_hash),
    {
        self.to_propagate_trans.remove(tx_hash);
    }

    /// Remembers transactions that are to be put back, because they failed for
    /// their nonce or because their block has left the chain.
    pub fn recycle_transactions(&mut self, transactions: Vec<Arc<SignedTransaction>>)
        ensures
            final(self)@ == old(self)@.with_recycled(transactions@),
    {
        let mut transactions = transactions;
        self.recycle_tx_requests.append(&mut transactions);
    }

    /// Remembers transactions that are to be marked as packed.
    pub fn set_tx_packed(&mut self, transactions: &Vec<Arc<SignedTransaction>>)
        ensures
            final(self)@ == old(self)@.with_packed(transactions@),
    {
        let mut i: usize = 0;
        assert(self.set_tx_requests@ =~= old(self)@.set_tx_requests + transactions@.take(0));
        while i < transactions.len()
            invariant
                i <= transactions@.len(),
                self@ == old(self)@.with_packed(transactions@.take(i as int)),
            decreases transactions@.len() - i,
        {
            self.set_tx_requests.push(transactions[i].clone());
            assert(self.set_tx_requests@ =~= old(self)@.set_tx_requests + transactions@.take(
                i + 1,
            ));
            i = i + 1;
        }
        assert(transactions@.take(transactions@.len() as int) =~= transactions@);
    }

    /// Takes note of what consensus reports, and starts to carry out the orders
    /// that have come together since the last report.
    pub fn notify_new_best_info<E>(&mut self, best_info: Arc<BestInformation>) -> (r: Notification<
        E,
    >)
        ensures
            r == old(self)@.with_best_info(best_info).next_order::<E>(),
            final(self)@ == old(self)@.with_best_info(best_info).after_request(),
    {
        self.consensus_best_info = best_info;
        self.next_order()
    }

    /// Goes on with the next order once a transaction has been offered to the
    /// deferred pool, whatever became of it there.
    pub fn on_offered<E>(&mut self, notification: Notification<E>) -> (r: Notification<E>)
        requires
            notification is Inserting,
        ensures
            r == old(self)@.next_order::<E>(),
            final(self)@ == old(self)@.after_request(),
    {
        self.next_order()
    }

    /// Takes the next of the orders that have come together.
    fn next_order<E>(&mut self) -> (r: Notification<E>)
        ensures
            r == old(self)@.next_order::<E>(),
            final(self)@ == old(self)@.after_request(),
    {
        match self.set_tx_requests.pop() {
            Some(transaction) => Notification::Inserting(
                InsertRequest { transaction, packed: true, force: false },
            ),
            None => match self.recycle_tx_requests.pop() {
                Some(transaction) => Notification::Reading(
                    InsertRequest { transaction, packed: false, force: true },
                ),
                None => Notification::Finished(Ok(())),
            },
        }
    }

    /// What the deferred pool is asked for a block on top of the given height.
    pub fn pack_transactions(
        &self,
        num_txs: usize,
        block_gas_limit: U256,
        block_size_limit: usize,
        best_epoch_height: u64,
    ) -> (r: PackRequest)
        requires
            upper_height(
                best_epoch_height as nat,
                self@.verification_config.transaction_epoch_bound as nat,
            ) <= u64::MAX,
        ensures
            r.num_txs == num_txs,
            r.block_gas_limit == block_gas_limit,
            r.block_size_limit == block_size_limit,
            r.height_lower_bound == lower_height(
                best_epoch_height as nat,
                self@.verification_config.transaction_epoch_bound as nat,
            ),
            r.height_upper_bound == upper_height(
                best_epoch_height as nat,
                self@.verification_config.transaction_epoch_bound as nat,
            ),
    {
        let height: u64 = best_epoch_height + 1;
        let transaction_epoch_bound: u64 = self.verification_config.transaction_epoch_bound;
        let height_lower_bound: u64 = if height > transaction_epoch_bound {
            height - transaction_epoch_bound
        } else {
            0
        };
        let height_upper_bound: u64 = height + transaction_epoch_bound;
        PackRequest {
            num_txs,
            block_gas_limit,
            block_size_limit,
            height_lower_bound,
            height_upper_bound,
        }
    }

    /// Drafts a block on top of the best chain, given the gas limit of the best
    /// block.
    pub fn get_best_info_with_packed_transactions(
        &self,
        num_txs: usize,
        block_size_limit: usize,
        additional_transactions: Vec<Arc<SignedTransaction>>,
        parent_block_gas_limit: U256,
        params: &GasLimitParams,
    ) -> (r: BlockDraft)
        requires
            gas_limit_defined(parent_block_gas_limit@, *params),
            upper_height(
                self@.consensus_best_info.best_epoch_number as nat,
                self@.verification_config.transaction_epoch_bound as nat,
            ) <= u64::MAX,
        ensures
            r.best_info == self@.consensus_best_info,
            r.additional_transactions == additional_transactions,
            r.request.num_txs == num_txs,
            r.request.block_gas_limit@ == gas_limit(
                self@.config.target_block_gas_limit as nat,
                parent_block_gas_limit@,
                params.gas_limit_bound_divisor@,
                params.min_gas_limit@,
            ),
            r.request.block_size_limit == block_size_limit,
            r.request.height_lower_bound == lower_height(
                self@.consensus_best_info.best_epoch_number as nat,
                self@.verification_config.transaction_epoch_bound as nat,
            ),
            r.request.height_upper_bound == upper_height(
                self@.consensus_best_info.best_epoch_number as nat,
                self@.verification_config.transaction_epoch_bound as nat,
            ),
    {
        let self_gas_limit = compute_gas_limit(
            self.config.target_block_gas_limit,
            parent_block_gas_limit,
            params,
        );
        let request = self.pack_transactions(
            num_txs,
            self_gas_limit,
            block_size_limit,
            self.consensus_best_info.best_epoch_number,
        );
        BlockDraft { best_info: self.consensus_best_info.clone(), request, additional_transactions }
    }
}

} // verus!
