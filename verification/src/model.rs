//! The pool without its representation, and what its operations do to it.
use std::sync::Arc;
use vstd::prelude::*;

use crate::config::{BestInformation, TxPoolConfig, VerificationConfig};
use crate::hash::H256;
use crate::insertion::{InsertionView, StageView};
use crate::notification::Notification;
use crate::transaction::{
    CheckedTransaction, InsertRequest, SignedTransaction, TransactionWithSignature,
};
use crate::verification::objection;

verus! {

/// The state of a pool.
#[verifier::ext_equal]
pub struct PoolView {
    pub config: TxPoolConfig,
    pub verification_config: VerificationConfig,
    /// The transactions that are to be sent to other nodes.
    pub to_propagate_trans: Map<H256, Arc<SignedTransaction>>,
    /// What consensus reported last.
    pub consensus_best_info: Arc<BestInformation>,
    /// The transactions that are to be marked as packed.
    pub set_tx_requests: Seq<Arc<SignedTransaction>>,
    /// The transactions that are to be put back.
    pub recycle_tx_requests: Seq<Arc<SignedTransaction>>,
}

/// The sequence with its last item moved to the given place.
pub open spec fn swap_removed<T>(s: Seq<T>, i: int) -> Seq<T> {
    s.update(i, s.last()).drop_last()
}

/// The transactions of checked transactions, in their order.
pub open spec fn transactions_of(s: Seq<CheckedTransaction>) -> Seq<TransactionWithSignature> {
    Seq::new(s.len(), |i: int| s[i].transaction)
}

impl PoolView {
    /// Why a new transaction is not taken, or `None` where it passes.
    pub open spec fn objection_to(self, c: CheckedTransaction) -> Option<Seq<char>> {
        objection(
            self.config,
            self.verification_config,
            *self.consensus_best_info,
            c.transaction,
            true,
            c.checks,
        )
    }

    /// What is left of a batch whose first `i` transactions pass: the place of
    /// one that does not pass is taken by the last.
    pub open spec fn screen(self, s: Seq<CheckedTransaction>, i: nat) -> Seq<CheckedTransaction>
        decreases s.len() - i,
    {
        if i >= s.len() {
            s
        } else if self.objection_to(s[i as int]) is None {
            self.screen(s, i + 1)
        } else {
            self.screen(swap_removed(s, i as int), i)
        }
    }

    /// The reasons for which transactions are dropped on the way, put into
    /// the map; of two with one hash the one that is dropped later stands.
    pub open spec fn screen_failures(
        self,
        s: Seq<CheckedTransaction>,
        i: nat,
        m: Map<H256, Seq<char>>,
    ) -> Map<H256, Seq<char>>
        decreases s.len() - i,
    {
        if i >= s.len() {
            m
        } else {
            match self.objection_to(s[i as int]) {
                None => self.screen_failures(s, i + 1, m),
                Some(text) => self.screen_failures(
                    swap_removed(s, i as int),
                    i,
                    m.insert(s[i as int].transaction.hash, text),
                ),
            }
        }
    }

    /// A batch of new transactions once it is screened.
    pub open spec fn screened(self, s: Seq<CheckedTransaction>) -> InsertionView {
        InsertionView {
            stage: StageView::Quota(transactions_of(self.screen(s, 0))),
            passed: Seq::empty(),
            failure: self.screen_failures(s, 0, Map::empty()),
        }
    }

    /// The pool once a new transaction has been inserted, or refused for the
    /// reason given: an inserted one is to be sent to other nodes.
    pub open spec fn after_outcome(
        self,
        tx: Arc<SignedTransaction>,
        refused: Option<Seq<char>>,
    ) -> PoolView {
        let hash = tx.transaction.hash;
        if refused is Some || self.to_propagate_trans.contains_key(hash) {
            self
        } else {
            PoolView { to_propagate_trans: self.to_propagate_trans.insert(hash, tx), ..self }
        }
    }

    /// The pool once it has handed out what is to be sent to other nodes.
    pub open spec fn handed_out(self) -> PoolView {
        PoolView { to_propagate_trans: Map::empty(), ..self }
    }

    /// The pool with transactions added to what is to be sent to other nodes.
    pub open spec fn with_propagated(self, m: Map<H256, Arc<SignedTransaction>>) -> PoolView {
        PoolView { to_propagate_trans: self.to_propagate_trans.union_prefer_right(m), ..self }
    }

    /// The pool with a transaction taken from what is to be sent to other nodes.
    pub open spec fn without_propagated(self, hash: H256) -> PoolView {
        PoolView { to_propagate_trans: self.to_propagate_trans.remove(hash), ..self }
    }

    /// The pool with transactions added to those that are to be put back.
    pub open spec fn with_recycled(self, txs: Seq<Arc<SignedTransaction>>) -> PoolView {
        PoolView { recycle_tx_requests: self.recycle_tx_requests + txs, ..self }
    }

    /// The pool with transactions added to those that are to be marked as packed.
    pub open spec fn with_packed(self, txs: Seq<Arc<SignedTransaction>>) -> PoolView {
        PoolView { set_tx_requests: self.set_tx_requests + txs, ..self }
    }

    /// The pool once consensus has reported.
    pub open spec fn with_best_info(self, best_info: Arc<BestInformation>) -> PoolView {
        PoolView { consensus_best_info: best_info, ..self }
    }

    /// The order that the deferred pool is to carry out next: the latest of
    /// the transactions to be marked as packed, and once there is none the
    /// latest of those to be put back.
    pub open spec fn next_request(self) -> Option<InsertRequest> {
        if self.set_tx_requests.len() > 0 {
            Some(
                InsertRequest {
                    transaction: self.set_tx_requests.last(),
                    packed: true,
                    force: false,
                },
            )
        } else if self.recycle_tx_requests.len() > 0 {
            Some(
                InsertRequest {
                    transaction: self.recycle_tx_requests.last(),
                    packed: false,
                    force: true,
                },
            )
        } else {
            None
        }
    }

    /// What the handling of a report waits for once the next order is taken: a
    /// transaction is put back only after the account of its sender is read.
    pub open spec fn next_order<E>(self) -> Notification<E> {
        match self.next_request() {
            Some(request) => if request.packed {
                Notification::Inserting(request)
            } else {
                Notification::Reading(request)
            },
            None => Notification::Finished(Ok(())),
        }
    }

    /// The pool once that order has been given.
    pub open spec fn after_request(self) -> PoolView {
        if self.set_tx_requests.len() > 0 {
            PoolView { set_tx_requests: self.set_tx_requests.drop_last(), ..self }
        } else if self.recycle_tx_requests.len() > 0 {
            PoolView { recycle_tx_requests: self.recycle_tx_requests.drop_last(), ..self }
        } else {
            self
        }
    }
}

} // verus!
