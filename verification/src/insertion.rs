//! The course of a batch of new transactions through the pool.
//!
//! A batch is screened by the rules on single transactions, cut to the room
//! that the deferred pool has left, handed over to have its senders recovered,
//! and inserted one by one. Between these stages the batch waits for what the
//! deferred pool and the signature recovery answer.
use std::collections::VecDeque;
use std::sync::Arc;
use vstd::prelude::*;

use crate::hash::H256;
use crate::transaction::{InsertRequest, SignedTransaction, TransactionWithSignature};
use crate::txmap::TxMap;

verus! {

/// What a batch waits for.
pub enum InsertionStage {
    /// For the number of transactions that the deferred pool has room for.
    Quota(Vec<TransactionWithSignature>),
    /// For the senders of the transactions.
    Recovery(Vec<TransactionWithSignature>),
    /// For the outcome of inserting the current transaction.
    Inserting { current: Arc<SignedTransaction>, rest: VecDeque<Arc<SignedTransaction>> },
    /// For nothing: the batch is answered.
    Done,
}

/// A batch on its way, and its answer so far.
pub struct Insertion {
    pub stage: InsertionStage,
    /// The transactions that were inserted.
    pub passed: Vec<Arc<SignedTransaction>>,
    /// For the hash of each transaction that was not taken, the reason.
    pub failure: TxMap<String>,
}

/// A stage without its representation.
#[verifier::ext_equal]
pub enum StageView {
    Quota(Seq<TransactionWithSignature>),
    Recovery(Seq<TransactionWithSignature>),
    Inserting(Seq<Arc<SignedTransaction>>),
    Done,
}

/// A batch without its representation.
#[verifier::ext_equal]
pub struct InsertionView {
    pub stage: StageView,
    pub passed: Seq<Arc<SignedTransaction>>,
    pub failure: Map<H256, Seq<char>>,
}

/// The map of texts that a map of strings stands for.
pub open spec fn texts(m: Map<H256, String>) -> Map<H256, Seq<char>> {
    m.map_values(|s: String| s@)
}

/// The map with the same text put under each of the hashes.
pub open spec fn record_each(
    m: Map<H256, Seq<char>>,
    hashes: Seq<H256>,
    text: Seq<char>,
) -> Map<H256, Seq<char>> {
    Map::new(
        |h: H256| m.contains_key(h) || hashes.contains(h),
        |h: H256|
            if hashes.contains(h) {
                text
            } else {
                m[h]
            },
    )
}

/// The hashes of the transactions, in their order.
pub open spec fn hashes_of(txs: Seq<TransactionWithSignature>) -> Seq<H256> {
    Seq::new(txs.len(), |i: int| txs[i].hash)
}

/// The reason given to transactions that the deferred pool has no room for.
pub open spec fn full_message() -> Seq<char> {
    "txpool is full"@
}

impl View for InsertionStage {
    type V = StageView;

    open spec fn view(&self) -> StageView {
        match *self {
            InsertionStage::Quota(txs) => StageView::Quota(txs@),
            InsertionStage::Recovery(txs) => StageView::Recovery(txs@),
            InsertionStage::Inserting { current, rest } => StageView::Inserting(
                seq![current] + rest@,
            ),
            InsertionStage::Done => StageView::Done,
        }
    }
}

impl View for Insertion {
    type V = InsertionView;

    open spec fn view(&self) -> InsertionView {
        InsertionView {
            stage: self.stage@,
            passed: self.passed@,
            failure: texts(self.failure@),
        }
    }
}

impl InsertionView {
    /// How many of the waiting transactions the quota lets through.
    pub open spec fn admitted(self, quota: nat) -> nat
        recommends
            self.stage is Quota,
    {
        let n = self.stage->Quota_0.len();
        if quota < n {
            quota
        } else {
            n
        }
    }

    /// The batch once the room in the deferred pool is known: the first
    /// transactions go on, the others are refused.
    pub open spec fn after_quota(self, quota: nat) -> InsertionView
        recommends
            self.stage is Quota,
    {
        let txs = self.stage->Quota_0;
        let n = self.admitted(quota) as int;
        InsertionView {
            stage: if n == 0 {
                StageView::Done
            } else {
                StageView::Recovery(txs.take(n))
            },
            passed: self.passed,
            failure: record_each(self.failure, hashes_of(txs.skip(n)), full_message()),
        }
    }

    /// The batch once its senders are recovered, or could not be.
    pub open spec fn after_recovery(
        self,
        recovered: Result<Seq<Arc<SignedTransaction>>, Seq<char>>,
    ) -> InsertionView
        recommends
            self.stage is Recovery,
    {
        match recovered {
            Ok(signed) => InsertionView {
                stage: if signed.len() == 0 {
                    StageView::Done
                } else {
                    StageView::Inserting(signed)
                },
                ..self
            },
            Err(text) => InsertionView {
                stage: StageView::Done,
                passed: self.passed,
                failure: record_each(self.failure, hashes_of(self.stage->Recovery_0), text),
            },
        }
    }

    /// The batch once its current transaction has been inserted, or refused
    /// for the reason given.
    pub open spec fn after_outcome(self, refused: Option<Seq<char>>) -> InsertionView
        recommends
            self.stage is Inserting,
            self.stage->Inserting_0.len() > 0,
    {
        let queue = self.stage->Inserting_0;
        let stage = if queue.len() == 1 {
            StageView::Done
        } else {
            StageView::Inserting(queue.skip(1))
        };
        match refused {
            Some(text) => InsertionView {
                stage,
                passed: self.passed,
                failure: self.failure.insert(queue[0].transaction.hash, text),
            },
            None => InsertionView { stage, passed: self.passed.push(queue[0]), ..self },
        }
    }
}

/// Putting a string into a map puts its text into the map of texts.
pub proof fn lemma_texts_insert(m: Map<H256, String>, h: H256, s: String)
    ensures
        texts(m.insert(h, s)) == texts(m).insert(h, s@),
{
    assert(texts(m.insert(h, s)) =~= texts(m).insert(h, s@));
}

/// Puts the same text under the hash of each of the transactions.
fn record_all(failure: &mut TxMap<String>, txs: &Vec<TransactionWithSignature>, text: &String)
    ensures
        texts(final(failure)@) == record_each(texts(old(failure)@), hashes_of(txs@), text@),
{
    let mut i: usize = 0;
    assert(texts(failure@) =~= record_each(
        texts(old(failure)@),
        hashes_of(txs@).take(0),
        text@,
    ));
    while i < txs.len()
        invariant
            i <= txs@.len(),
            texts(failure@) == record_each(
                texts(old(failure)@),
                hashes_of(txs@).take(i as int),
                text@,
            ),
        decreases txs@.len() - i,
    {
        let ghost before = failure@;
        failure.insert(txs[i].hash, text.clone());
        proof {
            lemma_texts_insert(before, txs@[i as int].hash, *text);
            let done = hashes_of(txs@).take(i as int);
            let next = hashes_of(txs@).take(i + 1);
            assert(next =~= done.push(txs@[i as int].hash));
            assert forall|h: H256| next.contains(h) == (done.contains(h) || h
                == txs@[i as int].hash) by {
                if done.contains(h) {
                    let k = choose|k: int| 0 <= k < done.len() && done[k] == h;
                    assert(next[k] == h);
                }
                assert(next[i as int] == txs@[i as int].hash);
            }
            assert(texts(failure@) =~= record_each(texts(old(failure)@), next, text@));
        }
        i = i + 1;
    }
    assert(hashes_of(txs@).take(txs@.len() as int) =~= hashes_of(txs@));
}

impl Insertion {
    /// Goes on once the room in the deferred pool is known.
    pub fn on_quota(self, quota: usize) -> (r: Insertion)
        requires
            self.stage is Quota,
        ensures
            r@ == self@.after_quota(quota as nat),
    {
        let Insertion { stage, passed, failure } = self;
        let mut failure = failure;
        let mut transactions = match stage {
            InsertionStage::Quota(txs) => txs,
            _ => Vec::new(),
        };
        let ghost txs = transactions@;
        if quota < transactions.len() {
            let dropped = transactions.split_off(quota);
            record_all(&mut failure, &dropped, &"txpool is full".to_owned());
        } else {
            assert(txs.skip(txs.len() as int) =~= Seq::<TransactionWithSignature>::empty());
            assert(texts(failure@) =~= record_each(
                texts(failure@),
                hashes_of(txs.skip(txs.len() as int)),
                full_message(),
            ));
        }
        assert(transactions@ =~= txs.take(self@.admitted(quota as nat) as int));
        let stage = if transactions.is_empty() {
            InsertionStage::Done
        } else {
            InsertionStage::Recovery(transactions)
        };
        Insertion { stage, passed, failure }
    }

    /// Goes on once the senders are recovered, or could not be.
    pub fn on_recovery(self, recovered: Result<Vec<Arc<SignedTransaction>>, String>) -> (r:
        Insertion)
        requires
            self.stage is Recovery,
        ensures
            r@ == self@.after_recovery(
                match recovered {
                    Ok(signed) => Ok(signed@),
                    Err(text) => Err(text@),
                },
            ),
    {
        let Insertion { stage, passed, failure } = self;
        let mut failure = failure;
        match recovered {
            Ok(signed) => {
                let mut rest: VecDeque<Arc<SignedTransaction>> = VecDeque::new();
                for tx in it: signed
                    invariant
                        it.seq() == signed@,
                        rest@ == signed@.take(it.index()),
                {
                    rest.push_back(tx);
                    assert(rest@ =~= signed@.take(it.index() + 1));
                }
                assert(rest@ =~= signed@);
                let stage = match rest.pop_front() {
                    Some(current) => {
                        assert(seq![current] + rest@ =~= signed@);
                        InsertionStage::Inserting { current, rest }
                    },
                    None => InsertionStage::Done,
                };
                Insertion { stage, passed, failure }
            },
            Err(text) => {
                let transactions = match stage {
                    InsertionStage::Recovery(txs) => txs,
                    _ => Vec::new(),
                };
                record_all(&mut failure, &transactions, &text);
                Insertion { stage: InsertionStage::Done, passed, failure }
            },
        }
    }

    /// The order that the deferred pool is to carry out next, if the batch
    /// waits for an insertion.
    pub fn request(&self) -> (r: Option<InsertRequest>)
        ensures
            r == match self.stage {
                InsertionStage::Inserting { current, rest } => Some(
                    InsertRequest { transaction: current, packed: false, force: false },
                ),
                _ => None,
            },
    {
        match &self.stage {
            InsertionStage::Inserting { current, rest } => Some(
                InsertRequest { transaction: current.clone(), packed: false, force: false },
            ),
            _ => None,
        }
    }
}

} // verus!
