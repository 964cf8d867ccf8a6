//! What the pool promises over more than one call.
use std::sync::Arc;
use vstd::prelude::*;

use crate::block::slot_tx_accounts;
use crate::config::{BestInformation, TxPoolConfig, VerificationConfig};
use crate::hash::{Address, H256};
use crate::insertion::{hashes_of, InsertionView, StageView};
use crate::model::{swap_removed, transactions_of, PoolView};
use crate::notification::Notification;
use crate::packing::{gas_limit, gas_lower, gas_upper, lower_height, upper_height};
use crate::transaction::{
    CheckedTransaction, InsertRequest, SignedTransaction, TransactionChecks,
    TransactionWithSignature,
};
use crate::verification::objection;

verus! {

/// Removing an item by moving the last one to its place takes just that item out.
proof fn lemma_swap_removed<T>(s: Seq<T>, i: int)
    requires
        0 <= i < s.len(),
    ensures
        swap_removed(s, i).len() == s.len() - 1,
        forall|j: int| 0 <= j < i ==> swap_removed(s, i)[j] == s[j],
        swap_removed(s, i).to_multiset() == s.to_multiset().remove(s[i]),
{
    broadcast use vstd::multiset::group_multiset_axioms;

    let n = s.len() - 1;
    let u = s.update(i, s.last());
    vstd::seq_lib::to_multiset_update(s, i, s.last());
    vstd::seq_lib::to_multiset_remove(u, n);
    assert(u.remove(n) =~= swap_removed(s, i));
    assert(u[n] == s.last());
    s.to_multiset_ensures();
    assert(s.contains(s[i]));
    assert(swap_removed(s, i).to_multiset() =~= s.to_multiset().remove(s[i]));
}

/// Screening a batch whose first `i` transactions pass keeps a transaction
/// that passes as often as it occurs, and no other.
proof fn lemma_screen(p: PoolView, s: Seq<CheckedTransaction>, i: nat, c: CheckedTransaction)
    requires
        i <= s.len(),
        forall|j: int| 0 <= j < i ==> p.objection_to(#[trigger] s[j]) is None,
    ensures
        p.screen(s, i).to_multiset().count(c) == if p.objection_to(c) is None {
            s.to_multiset().count(c)
        } else {
            0
        },
    decreases s.len() - i,
{
    broadcast use vstd::multiset::group_multiset_axioms;

    if i >= s.len() {
        if p.objection_to(c) is Some {
            s.to_multiset_ensures();
            if s.contains(c) {
                let j = choose|j: int| 0 <= j < s.len() && s[j] == c;
                assert(p.objection_to(s[j]) is None);
            }
        }
    } else if p.objection_to(s[i as int]) is None {
        lemma_screen(p, s, i + 1, c);
    } else {
        let t = swap_removed(s, i as int);
        lemma_swap_removed(s, i as int);
        lemma_screen(p, t, i, c);
        assert(p.screen(s, i) == p.screen(t, i));
        if c != s[i as int] {
            assert(t.to_multiset().count(c) == s.to_multiset().count(c));
        }
    }
}

/// Screening a batch keeps each transaction that passes the verification as
/// often as it was handed in, and none that does not pass.
pub proof fn law_screening_keeps_what_passes(
    p: PoolView,
    s: Seq<CheckedTransaction>,
    c: CheckedTransaction,
)
    ensures
        p.screen(s, 0).to_multiset().count(c) == if p.objection_to(c) is None {
            s.to_multiset().count(c)
        } else {
            0
        },
{
    lemma_screen(p, s, 0, c);
}

/// Whether a transaction from place `i` on has the hash and does not pass.
pub open spec fn refused_from(
    p: PoolView,
    s: Seq<CheckedTransaction>,
    i: int,
    h: H256,
) -> bool {
    exists|j: int|
        i <= j < s.len() && (#[trigger] s[j]).transaction.hash == h && p.objection_to(
            s[j],
        ) is Some
}

/// Whether the text is the reason for which one of the transactions with the
/// hash does not pass.
pub open spec fn is_reason(
    p: PoolView,
    s: Seq<CheckedTransaction>,
    h: H256,
    text: Seq<char>,
) -> bool {
    exists|j: int|
        0 <= j < s.len() && (#[trigger] s[j]).transaction.hash == h && p.objection_to(s[j])
            == Some(text)
}

/// Moving the last item to the place of another keeps every other item.
proof fn lemma_swap_removed_items<T>(s: Seq<T>, i: int)
    requires
        0 <= i < s.len(),
    ensures
        forall|j: int|
            i <= j < s.len() - 1 ==> (#[trigger] swap_removed(s, i)[j] == s[j] || swap_removed(
                s,
                i,
            )[j] == s.last()),
        forall|j: int|
            i < j < s.len() ==> exists|k: int|
                i <= k < s.len() - 1 && swap_removed(s, i)[k] == #[trigger] s[j],
{
    let t = swap_removed(s, i);
    assert forall|j: int| i < j < s.len() implies exists|k: int|
        i <= k < s.len() - 1 && t[k] == #[trigger] s[j] by {
        if j == s.len() - 1 {
            assert(t[i] == s[j]);
        } else {
            assert(t[j] == s[j]);
        }
    }
}

/// The reason under a hash after screening from place `i` on.
proof fn lemma_screen_failures(
    p: PoolView,
    s: Seq<CheckedTransaction>,
    i: nat,
    m: Map<H256, Seq<char>>,
    h: H256,
)
    requires
        i <= s.len(),
    ensures
        p.screen_failures(s, i, m).contains_key(h) == (m.contains_key(h) || refused_from(
            p,
            s,
            i as int,
            h,
        )),
        refused_from(p, s, i as int, h) ==> is_reason(p, s, h, p.screen_failures(s, i, m)[h]),
        m.contains_key(h) && !refused_from(p, s, i as int, h) ==> p.screen_failures(s, i, m)[h]
            == m[h],
    decreases s.len() - i,
{
    let f = p.screen_failures(s, i, m);
    if i >= s.len() {
    } else if p.objection_to(s[i as int]) is None {
        lemma_screen_failures(p, s, i + 1, m, h);
        assert(f == p.screen_failures(s, i + 1, m));
        assert(refused_from(p, s, i as int, h) == refused_from(p, s, i as int + 1, h));
    } else {
        let t = swap_removed(s, i as int);
        let hash = s[i as int].transaction.hash;
        let text = p.objection_to(s[i as int])->0;
        let n = m.insert(hash, text);
        lemma_screen_failures(p, t, i, n, h);
        assert(f == p.screen_failures(t, i, n));
        lemma_swap_removed(s, i as int);
        lemma_swap_removed_items(s, i as int);
        assert(s[i as int].transaction.hash == hash);
        if refused_from(p, s, i as int, h) && h != hash {
            let j = choose|j: int|
                i <= j < s.len() && (#[trigger] s[j]).transaction.hash == h && p.objection_to(
                    s[j],
                ) is Some;
            let k = choose|k: int| i <= k < s.len() - 1 && t[k] == s[j];
            assert(t[k].transaction.hash == h);
        }
        if refused_from(p, t, i as int, h) {
            let k = choose|k: int|
                0 <= k < t.len() && (#[trigger] t[k]).transaction.hash == h && p.objection_to(t[k])
                    == Some(f[h]);
            assert(t[k] == s[k] || t[k] == s[s.len() - 1]);
            let l = choose|l: int|
                i <= l < t.len() && (#[trigger] t[l]).transaction.hash == h && p.objection_to(
                    t[l],
                ) is Some;
            assert(t[l] == s[l] || t[l] == s[s.len() - 1]);
        }
    }
}

/// Screening a batch gives a reason for just the hashes of the transactions
/// that do not pass, and the reason is why such a transaction does not pass.
pub proof fn law_screening_says_why(p: PoolView, s: Seq<CheckedTransaction>, h: H256)
    ensures
        p.screened(s).failure.contains_key(h) == refused_from(p, s, 0, h),
        p.screened(s).failure.contains_key(h) ==> is_reason(p, s, h, p.screened(s).failure[h]),
{
    lemma_screen_failures(p, s, 0, Map::empty(), h);
}

/// Every transaction of a batch either goes on to have its sender recovered,
/// or a reason stands under its hash.
pub proof fn law_no_transaction_is_lost(
    p: PoolView,
    s: Seq<CheckedTransaction>,
    quota: nat,
    i: int,
)
    requires
        0 <= i < s.len(),
    ensures
        ({
            let b = p.screened(s).after_quota(quota);
            ||| b.failure.contains_key(s[i].transaction.hash)
            ||| b.stage is Recovery && b.stage->Recovery_0.contains(s[i].transaction)
        }),
{
    let kept = p.screen(s, 0);
    let txs = transactions_of(kept);
    let n = p.screened(s).admitted(quota) as int;
    if p.objection_to(s[i]) is Some {
        law_screening_says_why(p, s, s[i].transaction.hash);
        assert(refused_from(p, s, 0, s[i].transaction.hash));
    } else {
        law_screening_keeps_what_passes(p, s, s[i]);
        s.to_multiset_ensures();
        kept.to_multiset_ensures();
        assert(s.contains(s[i]));
        assert(kept.contains(s[i]));
        let k = choose|k: int| 0 <= k < kept.len() && kept[k] == s[i];
        assert(txs[k] == s[i].transaction);
        if k < n {
            assert(txs.take(n)[k] == s[i].transaction);
        } else {
            assert(txs.skip(n)[k - n] == s[i].transaction);
            assert(hashes_of(txs.skip(n))[k - n] == s[i].transaction.hash);
        }
    }
}

/// No more transactions of a batch go on than the deferred pool has room for,
/// and each of them was handed in and passes the verification.
pub proof fn law_only_what_passes_goes_on(p: PoolView, s: Seq<CheckedTransaction>, quota: nat)
    ensures
        ({
            let b = p.screened(s).after_quota(quota);
            b.stage is Recovery ==> {
                &&& 0 < b.stage->Recovery_0.len() <= quota
                &&& forall|k: int|
                    0 <= k < b.stage->Recovery_0.len() ==> exists|i: int|
                        0 <= i < s.len() && (#[trigger] s[i]).transaction == #[trigger]
                            b.stage->Recovery_0[k] && p.objection_to(s[i]) is None
            }
        }),
{
    let b = p.screened(s).after_quota(quota);
    if b.stage is Recovery {
        let kept = p.screen(s, 0);
        let go = b.stage->Recovery_0;
        assert forall|k: int| 0 <= k < go.len() implies exists|i: int|
            0 <= i < s.len() && (#[trigger] s[i]).transaction == #[trigger] go[k]
                && p.objection_to(s[i]) is None by {
            let i = lemma_kept(p, s, k);
            assert(go[k] == kept[k].transaction);
            assert(s[i].transaction == go[k]);
        }
    }
}

/// Transactions that pass but for which there is no room are told that the
/// pool is full.
pub proof fn law_surplus_is_told_that_the_pool_is_full(b: InsertionView, quota: nat, k: int)
    requires
        b.stage is Quota,
        quota <= k < b.stage->Quota_0.len(),
    ensures
        b.after_quota(quota).failure.contains_key(b.stage->Quota_0[k].hash),
        b.after_quota(quota).failure[b.stage->Quota_0[k].hash] == "txpool is full"@,
{
    let txs = b.stage->Quota_0;
    let n = quota as int;
    assert(hashes_of(txs.skip(n))[k - n] == txs[k].hash);
}

/// Where the senders cannot be recovered no transaction passes, and the reason
/// stands under the hash of each.
pub proof fn law_failed_recovery_refuses_all(b: InsertionView, text: Seq<char>, k: int)
    requires
        b.stage is Recovery,
        0 <= k < b.stage->Recovery_0.len(),
    ensures
        ({
            let c = b.after_recovery(Err(text));
            &&& c.stage is Done
            &&& c.passed == b.passed
            &&& c.failure.contains_key(b.stage->Recovery_0[k].hash)
            &&& c.failure[b.stage->Recovery_0[k].hash] == text
        }),
{
    assert(hashes_of(b.stage->Recovery_0)[k] == b.stage->Recovery_0[k].hash);
}

/// The pool and a batch that inserts transactions, once the outcomes of the
/// first of them are known: a reason for each that was refused.
pub open spec fn run(
    p: PoolView,
    b: InsertionView,
    outcomes: Seq<Option<Seq<char>>>,
) -> (PoolView, InsertionView)
    decreases outcomes.len(),
{
    if outcomes.len() == 0 {
        (p, b)
    } else {
        let (q, c) = run(p, b, outcomes.drop_last());
        (
            q.after_outcome(c.stage->Inserting_0[0], outcomes.last()),
            c.after_outcome(outcomes.last()),
        )
    }
}

/// Those of the transactions that were not refused, in their order.
pub open spec fn accepted(
    signed: Seq<Arc<SignedTransaction>>,
    outcomes: Seq<Option<Seq<char>>>,
) -> Seq<Arc<SignedTransaction>>
    decreases outcomes.len(),
{
    if outcomes.len() == 0 {
        Seq::empty()
    } else {
        let before = accepted(signed, outcomes.drop_last());
        if outcomes.last() is None {
            before.push(signed[outcomes.len() - 1])
        } else {
            before
        }
    }
}

/// Whether a transaction with the hash was accepted.
pub open spec fn some_accepted(
    signed: Seq<Arc<SignedTransaction>>,
    outcomes: Seq<Option<Seq<char>>>,
    h: H256,
) -> bool {
    exists|j: int|
        0 <= j < outcomes.len() && (#[trigger] signed[j]).transaction.hash == h
            && outcomes[j] is None
}

/// Whether a transaction with the hash was refused.
pub open spec fn some_refused(
    signed: Seq<Arc<SignedTransaction>>,
    outcomes: Seq<Option<Seq<char>>>,
    h: H256,
) -> bool {
    exists|j: int|
        0 <= j < outcomes.len() && (#[trigger] signed[j]).transaction.hash == h
            && outcomes[j] is Some
}

/// Whether a transaction with the hash was refused for the reason.
pub open spec fn refused_for(
    signed: Seq<Arc<SignedTransaction>>,
    outcomes: Seq<Option<Seq<char>>>,
    h: H256,
    text: Seq<char>,
) -> bool {
    exists|j: int|
        0 <= j < outcomes.len() && (#[trigger] signed[j]).transaction.hash == h && outcomes[j]
            == Some(text)
}

/// Whether a transaction was accepted and none with its hash before it was.
pub open spec fn first_accepted(
    signed: Seq<Arc<SignedTransaction>>,
    outcomes: Seq<Option<Seq<char>>>,
    j: int,
) -> bool {
    &&& 0 <= j < outcomes.len()
    &&& outcomes[j] is None
    &&& forall|k: int|
        0 <= k < j && (#[trigger] signed[k]).transaction.hash == signed[j].transaction.hash
            ==> outcomes[k] is Some
}

/// What stands under a hash after the outcomes of the first transactions.
proof fn lemma_run(
    p: PoolView,
    b: InsertionView,
    signed: Seq<Arc<SignedTransaction>>,
    outcomes: Seq<Option<Seq<char>>>,
    h: H256,
)
    requires
        b.stage == StageView::Inserting(signed),
        outcomes.len() <= signed.len(),
        0 < signed.len(),
    ensures
        ({
            let (q, c) = run(p, b, outcomes);
            &&& c.stage == if outcomes.len() == signed.len() {
                StageView::Done
            } else {
                StageView::Inserting(signed.skip(outcomes.len() as int))
            }
            &&& c.passed == b.passed + accepted(signed, outcomes)
            &&& c.failure.contains_key(h) == (b.failure.contains_key(h) || some_refused(
                signed,
                outcomes,
                h,
            ))
            &&& some_refused(signed, outcomes, h) ==> refused_for(
                signed,
                outcomes,
                h,
                c.failure[h],
            )
            &&& b.failure.contains_key(h) && !some_refused(signed, outcomes, h) ==> c.failure[h]
                == b.failure[h]
            &&& q == PoolView { to_propagate_trans: q.to_propagate_trans, ..p }
            &&& q.to_propagate_trans.contains_key(h) == (p.to_propagate_trans.contains_key(h)
                || some_accepted(signed, outcomes, h))
            &&& p.to_propagate_trans.contains_key(h) ==> q.to_propagate_trans[h]
                == p.to_propagate_trans[h]
            &&& !p.to_propagate_trans.contains_key(h) ==> forall|j: int| #[trigger]
                first_accepted(signed, outcomes, j) && signed[j].transaction.hash == h
                    ==> q.to_propagate_trans[h] == signed[j]
        }),
    decreases outcomes.len(),
{
    if outcomes.len() == 0 {
        assert(signed.skip(0) =~= signed);
        assert(b.passed + accepted(signed, outcomes) =~= b.passed);
    } else {
        let before = outcomes.drop_last();
        let n = before.len() as int;
        let (r, d) = run(p, b, before);
        let (q, c) = run(p, b, outcomes);
        lemma_run(p, b, signed, before, h);
        let tx = signed[n];
        assert(d.stage->Inserting_0[0] == tx);
        assert(signed.skip(n).skip(1) =~= signed.skip(n + 1));
        assert(outcomes[n] == outcomes.last());
        assert(c.passed =~= b.passed + accepted(signed, outcomes));
        assert(forall|j: int| 0 <= j < n ==> outcomes[j] == before[j]);
        if some_refused(signed, before, h) {
            assert(some_refused(signed, outcomes, h));
            let j = choose|j: int|
                0 <= j < before.len() && (#[trigger] signed[j]).transaction.hash == h && before[j]
                    == Some(d.failure[h]);
            assert(signed[j].transaction.hash == h && outcomes[j] == Some(d.failure[h]));
        }
        if some_accepted(signed, before, h) {
            assert(some_accepted(signed, outcomes, h));
        }
        if tx.transaction.hash == h {
            assert(signed[n].transaction.hash == h);
        } else {
            assert(some_refused(signed, outcomes, h) == some_refused(signed, before, h));
            assert(some_accepted(signed, outcomes, h) == some_accepted(signed, before, h));
        }
        assert forall|j: int|
            !p.to_propagate_trans.contains_key(h) && #[trigger] first_accepted(signed, outcomes, j)
                && signed[j].transaction.hash == h implies q.to_propagate_trans[h] == signed[j] by {
            if j < n {
                assert(first_accepted(signed, before, j));
            } else {
                assert(!some_accepted(signed, before, h));
            }
        }
    }
}

/// The accepted transactions are those with the outcomes that refuse nothing.
proof fn lemma_accepted(
    signed: Seq<Arc<SignedTransaction>>,
    outcomes: Seq<Option<Seq<char>>>,
    tx: Arc<SignedTransaction>,
)
    ensures
        accepted(signed, outcomes).contains(tx) == (exists|j: int|
            0 <= j < outcomes.len() && #[trigger] signed[j] == tx && outcomes[j] is None),
    decreases outcomes.len(),
{
    if outcomes.len() > 0 {
        let before = outcomes.drop_last();
        let n = before.len() as int;
        let a = accepted(signed, before);
        let e = accepted(signed, outcomes);
        lemma_accepted(signed, before, tx);
        if a.contains(tx) {
            let k = choose|k: int| 0 <= k < a.len() && a[k] == tx;
            assert(e[k] == tx);
            let j = choose|j: int|
                0 <= j < before.len() && #[trigger] signed[j] == tx && before[j] is None;
            assert(signed[j] == tx && outcomes[j] is None);
        }
        if e.contains(tx) && !a.contains(tx) {
            let k = choose|k: int| 0 <= k < e.len() && e[k] == tx;
            assert(k == a.len());
            assert(signed[n] == tx && outcomes[n] is None);
        }
        if exists|j: int|
            0 <= j < outcomes.len() && #[trigger] signed[j] == tx && outcomes[j] is None {
            let j = choose|j: int|
                0 <= j < outcomes.len() && #[trigger] signed[j] == tx && outcomes[j] is None;
            if j == n {
                assert(e.last() == tx);
                assert(e[a.len() as int] == tx);
            } else {
                assert(signed[j] == tx && before[j] is None);
            }
        }
    }
}

/// Once the outcome of every insertion is known the batch is answered: it
/// names as passed just the transactions that were not refused, in their
/// order, and gives a reason for each that was.
pub proof fn law_every_insertion_is_answered(
    p: PoolView,
    b: InsertionView,
    signed: Seq<Arc<SignedTransaction>>,
    outcomes: Seq<Option<Seq<char>>>,
    j: int,
)
    requires
        b.stage == StageView::Inserting(signed),
        outcomes.len() == signed.len(),
        0 <= j < signed.len(),
    ensures
        ({
            let (q, c) = run(p, b, outcomes);
            &&& c.stage is Done
            &&& c.passed == b.passed + accepted(signed, outcomes)
            &&& outcomes[j] is None ==> c.passed.contains(signed[j])
            &&& outcomes[j] is Some ==> c.failure.contains_key(signed[j].transaction.hash)
                && refused_for(
                signed,
                outcomes,
                signed[j].transaction.hash,
                c.failure[signed[j].transaction.hash],
            )
        }),
{
    let (q, c) = run(p, b, outcomes);
    lemma_run(p, b, signed, outcomes, signed[j].transaction.hash);
    if outcomes[j] is None {
        lemma_accepted(signed, outcomes, signed[j]);
        let a = accepted(signed, outcomes);
        let k = choose|k: int| 0 <= k < a.len() && a[k] == signed[j];
        assert(c.passed[b.passed.len() + k] == signed[j]);
    } else {
        assert(some_refused(signed, outcomes, signed[j].transaction.hash));
    }
}

/// After a batch just those transactions are newly to be sent to other nodes
/// that passed, of several with one hash the first. What was to be sent before
/// still is, unchanged, and nothing else in the pool has changed.
pub proof fn law_what_passes_is_propagated(
    p: PoolView,
    b: InsertionView,
    signed: Seq<Arc<SignedTransaction>>,
    outcomes: Seq<Option<Seq<char>>>,
    h: H256,
)
    requires
        b.stage == StageView::Inserting(signed),
        outcomes.len() == signed.len(),
        0 < signed.len(),
    ensures
        ({
            let (q, c) = run(p, b, outcomes);
            &&& q.to_propagate_trans.contains_key(h) == (p.to_propagate_trans.contains_key(h)
                || some_accepted(signed, outcomes, h))
            &&& p.to_propagate_trans.contains_key(h) ==> q.to_propagate_trans[h]
                == p.to_propagate_trans[h]
            &&& !p.to_propagate_trans.contains_key(h) ==> forall|j: int| #[trigger]
                first_accepted(signed, outcomes, j) && signed[j].transaction.hash == h
                    ==> q.to_propagate_trans[h] == signed[j]
            &&& q == PoolView { to_propagate_trans: q.to_propagate_trans, ..p }
        }),
{
    lemma_run(p, b, signed, outcomes, h);
}

/// In a batch without a repeated hash a transaction that passes, and was not
/// to be sent to other nodes before, is the one that is sent under its hash.
pub proof fn law_what_passes_is_what_is_propagated(
    p: PoolView,
    b: InsertionView,
    signed: Seq<Arc<SignedTransaction>>,
    outcomes: Seq<Option<Seq<char>>>,
    j: int,
)
    requires
        b.stage == StageView::Inserting(signed),
        outcomes.len() == signed.len(),
        0 <= j < signed.len(),
        outcomes[j] is None,
        forall|k: int|
            0 <= k < signed.len() && k != j ==> (#[trigger] signed[k]).transaction.hash
                != signed[j].transaction.hash,
        !p.to_propagate_trans.contains_key(signed[j].transaction.hash),
    ensures
        ({
            let (q, c) = run(p, b, outcomes);
            &&& q.to_propagate_trans.contains_key(signed[j].transaction.hash)
            &&& q.to_propagate_trans[signed[j].transaction.hash] == signed[j]
        }),
{
    lemma_run(p, b, signed, outcomes, signed[j].transaction.hash);
    assert(first_accepted(signed, outcomes, j));
    assert(some_accepted(signed, outcomes, signed[j].transaction.hash));
}

/// A transaction that the recovery of the senders leaves out, because it is
/// known already, is ignored: a batch says nothing new of its hash.
pub proof fn law_what_recovery_leaves_out_is_ignored(
    p: PoolView,
    b: InsertionView,
    signed: Seq<Arc<SignedTransaction>>,
    outcomes: Seq<Option<Seq<char>>>,
    h: H256,
)
    requires
        b.stage is Recovery,
        outcomes.len() == signed.len(),
        forall|k: int| 0 <= k < signed.len() ==> (#[trigger] signed[k]).transaction.hash != h,
        forall|k: int|
            0 <= k < b.passed.len() ==> (#[trigger] b.passed[k]).transaction.hash != h,
    ensures
        ({
            let (q, c) = run(p, b.after_recovery(Ok(signed)), outcomes);
            &&& c.failure.contains_key(h) == b.failure.contains_key(h)
            &&& b.failure.contains_key(h) ==> c.failure[h] == b.failure[h]
            &&& forall|k: int|
                0 <= k < c.passed.len() ==> (#[trigger] c.passed[k]).transaction.hash != h
            &&& q.to_propagate_trans.contains_key(h) == p.to_propagate_trans.contains_key(h)
            &&& p.to_propagate_trans.contains_key(h) ==> q.to_propagate_trans[h]
                == p.to_propagate_trans[h]
        }),
{
    let d = b.after_recovery(Ok(signed));
    let (q, c) = run(p, d, outcomes);
    if signed.len() > 0 {
        lemma_run(p, d, signed, outcomes, h);
        let a = accepted(signed, outcomes);
        assert forall|k: int| 0 <= k < c.passed.len() implies (#[trigger]
        c.passed[k]).transaction.hash != h by {
            if k >= b.passed.len() {
                let tx = a[k - b.passed.len()];
                assert(c.passed[k] == tx);
                assert(a.contains(tx));
                lemma_accepted(signed, outcomes, tx);
            }
        }
    }
}

/// In a batch without a repeated hash, and with no reason given for any of
/// them before, no transaction both passes and is given a reason.
pub proof fn law_nothing_both_passes_and_fails(
    p: PoolView,
    b: InsertionView,
    signed: Seq<Arc<SignedTransaction>>,
    outcomes: Seq<Option<Seq<char>>>,
    j: int,
)
    requires
        b.stage == StageView::Inserting(signed),
        outcomes.len() == signed.len(),
        0 <= j < signed.len(),
        outcomes[j] is None,
        forall|k: int|
            0 <= k < signed.len() && k != j ==> (#[trigger] signed[k]).transaction.hash
                != signed[j].transaction.hash,
        !b.failure.contains_key(signed[j].transaction.hash),
    ensures
        !run(p, b, outcomes).1.failure.contains_key(signed[j].transaction.hash),
{
    lemma_run(p, b, signed, outcomes, signed[j].transaction.hash);
}

/// The pool and a batch at the batch's end, given the room in the deferred
/// pool, what the recovery of the senders says, and the outcomes of the
/// insertions. The latter two are asked for only where transactions go on.
pub open spec fn answer(
    p: PoolView,
    s: Seq<CheckedTransaction>,
    quota: nat,
    recovered: Result<Seq<Arc<SignedTransaction>>, Seq<char>>,
    outcomes: Seq<Option<Seq<char>>>,
) -> (PoolView, InsertionView) {
    let b = p.screened(s).after_quota(quota);
    if b.stage is Recovery {
        run(p, b.after_recovery(recovered), outcomes)
    } else {
        (p, b)
    }
}

/// Whether there is one outcome for each insertion.
pub open spec fn outcomes_fit(
    recovered: Result<Seq<Arc<SignedTransaction>>, Seq<char>>,
    outcomes: Seq<Option<Seq<char>>>,
) -> bool {
    match recovered {
        Ok(signed) => outcomes.len() == signed.len(),
        Err(_) => outcomes.len() == 0,
    }
}

/// Whether the recovery of the senders gives no transaction with the hash.
pub open spec fn not_recovered(
    recovered: Result<Seq<Arc<SignedTransaction>>, Seq<char>>,
    h: H256,
) -> bool {
    recovered matches Ok(signed) ==> forall|k: int|
        0 <= k < signed.len() ==> (#[trigger] signed[k]).transaction.hash != h
}

/// Whether no two transactions of a batch have one hash.
pub open spec fn hashes_differ(s: Seq<CheckedTransaction>) -> bool {
    forall|i: int, j: int|
        0 <= i < j < s.len() ==> (#[trigger] s[i]).transaction.hash != (#[trigger]
        s[j]).transaction.hash
}

/// Whether a batch refused the hash for the reason: the reason is given, no
/// transaction with the hash passed, and what is to be sent to other nodes
/// under it has not changed.
pub open spec fn refused_at_last(
    p: PoolView,
    end: (PoolView, InsertionView),
    h: H256,
    text: Seq<char>,
) -> bool {
    let (q, c) = end;
    &&& c.stage is Done
    &&& c.failure.contains_key(h)
    &&& c.failure[h] == text
    &&& forall|k: int| 0 <= k < c.passed.len() ==> (#[trigger] c.passed[k]).transaction.hash != h
    &&& q.to_propagate_trans.contains_key(h) == p.to_propagate_trans.contains_key(h)
    &&& p.to_propagate_trans.contains_key(h) ==> q.to_propagate_trans[h]
        == p.to_propagate_trans[h]
}

/// A transaction that the deferred pool refuses, and whose hash no other one of
/// the batch has, is in the end named with the reason; it has not passed, and
/// nothing changes in what is to be sent to other nodes under its hash.
pub proof fn law_a_transaction_that_cannot_be_inserted_is_refused(
    p: PoolView,
    b: InsertionView,
    signed: Seq<Arc<SignedTransaction>>,
    outcomes: Seq<Option<Seq<char>>>,
    j: int,
    text: Seq<char>,
)
    requires
        b.stage == StageView::Inserting(signed),
        outcomes.len() == signed.len(),
        0 <= j < signed.len(),
        outcomes[j] == Some(text),
        forall|k: int|
            0 <= k < signed.len() && k != j ==> (#[trigger] signed[k]).transaction.hash
                != signed[j].transaction.hash,
        forall|k: int|
            0 <= k < b.passed.len() ==> (#[trigger] b.passed[k]).transaction.hash
                != signed[j].transaction.hash,
    ensures
        refused_at_last(p, run(p, b, outcomes), signed[j].transaction.hash, text),
{
    let h = signed[j].transaction.hash;
    let c = run(p, b, outcomes).1;
    let a = accepted(signed, outcomes);
    lemma_run(p, b, signed, outcomes, h);
    assert(some_refused(signed, outcomes, h));
    assert forall|k: int| 0 <= k < c.passed.len() implies (#[trigger] c.passed[k]).transaction.hash
        != h by {
        if k >= b.passed.len() {
            let tx = a[k - b.passed.len()];
            assert(c.passed[k] == tx);
            assert(a.contains(tx));
            lemma_accepted(signed, outcomes, tx);
        }
    }
}

/// Every transaction that is kept was handed in and passes.
proof fn lemma_kept(p: PoolView, s: Seq<CheckedTransaction>, k: int) -> (i: int)
    requires
        0 <= k < p.screen(s, 0).len(),
    ensures
        0 <= i < s.len(),
        s[i] == p.screen(s, 0)[k],
        p.objection_to(s[i]) is None,
{
    let kept = p.screen(s, 0);
    let c = kept[k];
    law_screening_keeps_what_passes(p, s, c);
    kept.to_multiset_ensures();
    s.to_multiset_ensures();
    assert(kept.contains(c));
    assert(s.contains(c));
    choose|i: int| 0 <= i < s.len() && s[i] == c
}

/// Where no hash is handed in twice, none is kept twice.
proof fn lemma_kept_hashes_differ(p: PoolView, s: Seq<CheckedTransaction>, k: int, l: int)
    requires
        hashes_differ(s),
        0 <= k < l < p.screen(s, 0).len(),
    ensures
        p.screen(s, 0)[k].transaction.hash != p.screen(s, 0)[l].transaction.hash,
{
    let kept = p.screen(s, 0);
    let i = lemma_kept(p, s, k);
    let j = lemma_kept(p, s, l);
    if i == j {
        assert(s.no_duplicates());
        s.lemma_multiset_has_no_duplicates();
        assert forall|c: CheckedTransaction|
            kept.to_multiset().contains(c) implies kept.to_multiset().count(c) == 1 by {
            law_screening_keeps_what_passes(p, s, c);
        }
        kept.lemma_multiset_has_no_duplicates_conv();
        assert(kept[k] != kept[l]);
    } else if i < j {
        assert(s[i].transaction.hash != s[j].transaction.hash);
    } else {
        assert(s[j].transaction.hash != s[i].transaction.hash);
    }
}

/// A reason that stands when the quota is known stands at the end, where
/// nothing later concerns its hash.
proof fn lemma_reason_stays(
    p: PoolView,
    s: Seq<CheckedTransaction>,
    quota: nat,
    recovered: Result<Seq<Arc<SignedTransaction>>, Seq<char>>,
    outcomes: Seq<Option<Seq<char>>>,
    h: H256,
)
    requires
        outcomes_fit(recovered, outcomes),
        not_recovered(recovered, h),
        ({
            let b = p.screened(s).after_quota(quota);
            &&& b.failure.contains_key(h)
            &&& b.stage is Recovery ==> forall|k: int|
                0 <= k < b.stage->Recovery_0.len() ==> (#[trigger] b.stage->Recovery_0[k]).hash
                    != h
        }),
    ensures
        refused_at_last(
            p,
            answer(p, s, quota, recovered, outcomes),
            h,
            p.screened(s).after_quota(quota).failure[h],
        ),
{
    let b = p.screened(s).after_quota(quota);
    if b.stage is Recovery {
        match recovered {
            Ok(signed) => {
                law_what_recovery_leaves_out_is_ignored(p, b, signed, outcomes, h);
                let d = b.after_recovery(recovered);
                if signed.len() > 0 {
                    lemma_run(p, d, signed, outcomes, h);
                }
            },
            Err(_) => {
                let hashes = hashes_of(b.stage->Recovery_0);
                if hashes.contains(h) {
                    let k = choose|k: int| 0 <= k < hashes.len() && hashes[k] == h;
                    assert(b.stage->Recovery_0[k].hash == h);
                }
            },
        }
    }
}

/// In a batch without a repeated hash, a transaction that does not pass the
/// verification, and which the recovery of the senders therefore does not
/// give, is in the end named with the reason for which it does not pass; it
/// has not passed, and nothing changes in what is to be sent to other nodes
/// under its hash.
pub proof fn law_an_invalid_transaction_is_refused(
    p: PoolView,
    s: Seq<CheckedTransaction>,
    quota: nat,
    recovered: Result<Seq<Arc<SignedTransaction>>, Seq<char>>,
    outcomes: Seq<Option<Seq<char>>>,
    i: int,
    text: Seq<char>,
)
    requires
        hashes_differ(s),
        0 <= i < s.len(),
        p.objection_to(s[i]) == Some(text),
        outcomes_fit(recovered, outcomes),
        not_recovered(recovered, s[i].transaction.hash),
    ensures
        refused_at_last(
            p,
            answer(p, s, quota, recovered, outcomes),
            s[i].transaction.hash,
            text,
        ),
{
    let h = s[i].transaction.hash;
    let a = p.screened(s);
    let b = a.after_quota(quota);
    let kept = p.screen(s, 0);
    let txs = transactions_of(kept);
    let n = a.admitted(quota) as int;
    law_screening_says_why(p, s, h);
    assert(refused_from(p, s, 0, h));
    let j = choose|j: int|
        0 <= j < s.len() && (#[trigger] s[j]).transaction.hash == h && p.objection_to(s[j])
            == Some(a.failure[h]);
    assert(j == i);
    assert forall|k: int| 0 <= k < kept.len() implies (#[trigger] txs[k]).hash != h by {
        let l = lemma_kept(p, s, k);
        if l < i {
            assert(s[l].transaction.hash != s[i].transaction.hash);
        } else {
            assert(s[i].transaction.hash != s[l].transaction.hash);
        }
    }
    let dropped = hashes_of(txs.skip(n));
    if dropped.contains(h) {
        let k = choose|k: int| 0 <= k < dropped.len() && dropped[k] == h;
        assert(txs[n + k].hash == h);
    }
    assert(b.failure[h] == text);
    if b.stage is Recovery {
        assert forall|k: int| 0 <= k < b.stage->Recovery_0.len() implies (#[trigger]
        b.stage->Recovery_0[k]).hash != h by {
            assert(b.stage->Recovery_0[k] == txs[k]);
        }
    }
    lemma_reason_stays(p, s, quota, recovered, outcomes, h);
}

/// In a batch without a repeated hash, a transaction that passes the
/// verification but comes after as many as the deferred pool has room for, and
/// which the recovery of the senders therefore does not give, is in the end
/// told that the pool is full; it has not passed, and nothing changes in what
/// is to be sent to other nodes under its hash.
pub proof fn law_a_surplus_transaction_is_refused(
    p: PoolView,
    s: Seq<CheckedTransaction>,
    quota: nat,
    recovered: Result<Seq<Arc<SignedTransaction>>, Seq<char>>,
    outcomes: Seq<Option<Seq<char>>>,
    k: int,
)
    requires
        hashes_differ(s),
        quota <= k < p.screen(s, 0).len(),
        outcomes_fit(recovered, outcomes),
        not_recovered(recovered, p.screen(s, 0)[k].transaction.hash),
    ensures
        refused_at_last(
            p,
            answer(p, s, quota, recovered, outcomes),
            p.screen(s, 0)[k].transaction.hash,
            "txpool is full"@,
        ),
{
    let kept = p.screen(s, 0);
    let txs = transactions_of(kept);
    let h = kept[k].transaction.hash;
    let a = p.screened(s);
    let b = a.after_quota(quota);
    assert(txs[k].hash == h);
    law_surplus_is_told_that_the_pool_is_full(a, quota, k);
    if b.stage is Recovery {
        assert forall|l: int| 0 <= l < b.stage->Recovery_0.len() implies (#[trigger]
        b.stage->Recovery_0[l]).hash != h by {
            assert(b.stage->Recovery_0[l] == txs[l]);
            lemma_kept_hashes_differ(p, s, l, k);
        }
    }
    lemma_reason_stays(p, s, quota, recovered, outcomes, h);
}

/// A batch leaves no transaction without an answer: in the end a reason stands
/// under its hash, or it has passed, or it is one that the recovery of the
/// senders left out.
pub proof fn law_every_transaction_is_answered(
    p: PoolView,
    s: Seq<CheckedTransaction>,
    quota: nat,
    recovered: Result<Seq<Arc<SignedTransaction>>, Seq<char>>,
    outcomes: Seq<Option<Seq<char>>>,
    i: int,
)
    requires
        0 <= i < s.len(),
        outcomes_fit(recovered, outcomes),
    ensures
        ({
            let tx = s[i].transaction;
            let c = answer(p, s, quota, recovered, outcomes).1;
            &&& c.stage is Done
            &&& {
                ||| c.failure.contains_key(tx.hash)
                ||| exists|k: int|
                    0 <= k < c.passed.len() && (#[trigger] c.passed[k]).transaction == tx
                ||| recovered matches Ok(signed) && forall|k: int|
                    0 <= k < signed.len() ==> (#[trigger] signed[k]).transaction != tx
            }
        }),
{
    let tx = s[i].transaction;
    let b = p.screened(s).after_quota(quota);
    let d = b.after_recovery(recovered);
    let c = answer(p, s, quota, recovered, outcomes).1;
    law_no_transaction_is_lost(p, s, quota, i);
    if b.stage is Recovery {
        match recovered {
            Err(text) => {
                if !b.failure.contains_key(tx.hash) {
                    let txs = b.stage->Recovery_0;
                    let k = choose|k: int| 0 <= k < txs.len() && txs[k] == tx;
                    law_failed_recovery_refuses_all(b, text, k);
                }
            },
            Ok(signed) => {
                if signed.len() > 0 {
                    lemma_run(p, d, signed, outcomes, tx.hash);
                }
                if exists|k: int|
                    0 <= k < signed.len() && (#[trigger] signed[k]).transaction == tx {
                    let k = choose|k: int|
                        0 <= k < signed.len() && (#[trigger] signed[k]).transaction == tx;
                    law_every_insertion_is_answered(p, d, signed, outcomes, k);
                    if outcomes[k] is None {
                        let l = choose|l: int| 0 <= l < c.passed.len() && c.passed[l] == signed[k];
                        assert(c.passed[l].transaction == tx);
                    }
                }
            },
        }
    }
}

/// Putting back all that was handed out restores the pool.
pub proof fn law_put_back_restores(p: PoolView)
    ensures
        p.handed_out().with_propagated(p.to_propagate_trans) == p,
{
    assert(p.handed_out().with_propagated(p.to_propagate_trans).to_propagate_trans
        =~= p.to_propagate_trans);
}

/// How much is left to do of a report.
pub open spec fn work_left<E>(p: PoolView, n: Notification<E>) -> nat {
    3 * (p.set_tx_requests.len() + p.recycle_tx_requests.len()) + match n {
        Notification::Reading(_) => 2nat,
        Notification::Inserting(_) => 1,
        Notification::Finished(_) => 0,
    }
}

/// The handling of a report to its end, given what the account reads say one
/// after the other: the pool after it, the orders whose transactions were
/// offered to the deferred pool, and the result.
pub open spec fn carry_out<E>(
    p: PoolView,
    n: Notification<E>,
    reads: Seq<Result<(), E>>,
) -> (PoolView, Seq<InsertRequest>, Result<(), E>)
    decreases work_left(p, n),
{
    match n {
        Notification::Finished(result) => (p, Seq::empty(), result),
        Notification::Inserting(request) => {
            let (q, offered, result) = carry_out(p.after_request(), p.next_order::<E>(), reads);
            (q, seq![request] + offered, result)
        },
        Notification::Reading(_) => carry_out(p, n.after_read(reads[0]), reads.skip(1)),
    }
}

/// The handling of a report from its start.
pub open spec fn handle_report<E>(
    p: PoolView,
    best_info: Arc<BestInformation>,
    reads: Seq<Result<(), E>>,
) -> (PoolView, Seq<InsertRequest>, Result<(), E>) {
    let noted = p.with_best_info(best_info);
    carry_out(noted.after_request(), noted.next_order::<E>(), reads)
}

/// An order for each remembered transaction: those to be marked as packed, the
/// latest first, then those to be put back, the latest first.
pub open spec fn all_requests(p: PoolView) -> Seq<InsertRequest> {
    let s = p.set_tx_requests;
    let r = p.recycle_tx_requests;
    Seq::new(
        s.len(),
        |i: int|
            InsertRequest { transaction: s[s.len() - 1 - i], packed: true, force: false },
    ) + Seq::new(
        r.len(),
        |i: int|
            InsertRequest { transaction: r[r.len() - 1 - i], packed: false, force: true },
    )
}

/// The orders from the next one on, where `m` account reads succeed and the
/// one after them, if it comes to that, fails.
proof fn lemma_carry_out<E>(p: PoolView, reads: Seq<Result<(), E>>, m: nat)
    requires
        m <= p.recycle_tx_requests.len(),
        m <= reads.len(),
        forall|i: int| 0 <= i < m ==> (#[trigger] reads[i]) is Ok,
        m < p.recycle_tx_requests.len() ==> m < reads.len() && reads[m as int] is Err,
    ensures
        ({
            let left = p.recycle_tx_requests.len() - m;
            let (q, offered, result) = carry_out(p.after_request(), p.next_order::<E>(), reads);
            &&& offered == all_requests(p).take((p.set_tx_requests.len() + m) as int)
            &&& result == if left == 0 {
                Ok(())
            } else {
                reads[m as int]
            }
            &&& q == PoolView {
                set_tx_requests: Seq::empty(),
                recycle_tx_requests: if left == 0 {
                    Seq::empty()
                } else {
                    p.recycle_tx_requests.take(left - 1)
                },
                ..p
            }
        }),
    decreases p.set_tx_requests.len() + p.recycle_tx_requests.len(),
{
    let s = p.set_tx_requests;
    let r = p.recycle_tx_requests;
    let next = p.after_request();
    let (q, offered, result) = carry_out(next, p.next_order::<E>(), reads);
    if s.len() > 0 {
        let request = p.next_request()->0;
        lemma_carry_out(next, reads, m);
        assert(all_requests(p) =~= seq![request] + all_requests(next));
        assert(offered =~= all_requests(p).take((s.len() + m) as int));
    } else if r.len() > 0 {
        let request = p.next_request()->0;
        let order = p.next_order::<E>();
        assert(order == Notification::<E>::Reading(request));
        let after = order.after_read(reads[0]);
        assert((q, offered, result) == carry_out(next, after, reads.skip(1)));
        assert(s =~= Seq::<Arc<SignedTransaction>>::empty());
        if m == 0 {
            assert(after == Notification::<E>::Finished(reads[0]));
            assert(offered =~= all_requests(p).take(0));
            assert(r.drop_last() =~= r.take(r.len() - 1));
        } else {
            assert(after == Notification::<E>::Inserting(request));
            let rest = reads.skip(1);
            let k = (m - 1) as nat;
            assert forall|i: int| 0 <= i < k implies (#[trigger] rest[i]) is Ok by {
                assert(reads[i + 1] is Ok);
            }
            lemma_carry_out(next, rest, k);
            assert(all_requests(p) =~= seq![request] + all_requests(next));
            assert(offered =~= all_requests(p).take(m as int));
            if m < r.len() {
                assert(r.drop_last().take(r.len() - m - 1) =~= r.take(r.len() - m - 1));
            }
        }
    } else {
        assert(offered =~= all_requests(p).take(0));
        assert(s =~= Seq::<Arc<SignedTransaction>>::empty());
        assert(r =~= Seq::<Arc<SignedTransaction>>::empty());
    }
}

/// Where every account can be read, a report ends well. Each remembered
/// transaction is offered just once, those to be marked as packed first. After
/// that none is left, and but for what was reported nothing else in the pool
/// has changed.
pub proof fn law_each_remembered_transaction_is_offered_once<E>(
    p: PoolView,
    best_info: Arc<BestInformation>,
    reads: Seq<Result<(), E>>,
)
    requires
        reads.len() == p.recycle_tx_requests.len(),
        forall|i: int| 0 <= i < reads.len() ==> (#[trigger] reads[i]) is Ok,
    ensures
        ({
            let (q, offered, result) = handle_report(p, best_info, reads);
            &&& result == Ok::<(), E>(())
            &&& offered == all_requests(p)
            &&& offered.len() == p.set_tx_requests.len() + p.recycle_tx_requests.len()
            &&& forall|i: int|
                0 <= i < p.set_tx_requests.len() ==> #[trigger] offered[i] == (InsertRequest {
                    transaction: p.set_tx_requests[p.set_tx_requests.len() - 1 - i],
                    packed: true,
                    force: false,
                })
            &&& forall|i: int|
                p.set_tx_requests.len() <= i < offered.len() ==> #[trigger] offered[i] == (
                InsertRequest {
                    transaction: p.recycle_tx_requests[offered.len() - 1 - i],
                    packed: false,
                    force: true,
                })
            &&& q == PoolView {
                consensus_best_info: best_info,
                set_tx_requests: Seq::empty(),
                recycle_tx_requests: Seq::empty(),
                ..p
            }
        }),
{
    let noted = p.with_best_info(best_info);
    lemma_carry_out(noted, reads, reads.len());
    assert(all_requests(noted) == all_requests(p));
    assert(all_requests(p).take(all_requests(p).len() as int) =~= all_requests(p));
}

/// Where the account for one of the transactions to be put back cannot be
/// read, a report ends with that error. What was reported is noted all the
/// same, all transactions to be marked as packed and those to be put back
/// after that one were offered, the latest first, that one is dropped without
/// being offered, and those before it are kept.
pub proof fn law_a_failed_account_read_ends_the_report<E>(
    p: PoolView,
    best_info: Arc<BestInformation>,
    reads: Seq<Result<(), E>>,
    k: int,
    e: E,
)
    requires
        0 <= k < p.recycle_tx_requests.len(),
        reads.len() == p.recycle_tx_requests.len() - k,
        reads.last() == Err::<(), E>(e),
        forall|i: int| 0 <= i < reads.len() - 1 ==> (#[trigger] reads[i]) is Ok,
    ensures
        ({
            let (q, offered, result) = handle_report(p, best_info, reads);
            &&& result == Err::<(), E>(e)
            &&& offered == all_requests(p).take(all_requests(p).len() - 1 - k)
            &&& q == PoolView {
                consensus_best_info: best_info,
                set_tx_requests: Seq::empty(),
                recycle_tx_requests: p.recycle_tx_requests.take(k),
                ..p
            }
        }),
{
    let noted = p.with_best_info(best_info);
    lemma_carry_out(noted, reads, (reads.len() - 1) as nat);
    assert(all_requests(noted) == all_requests(p));
}

/// A block takes just the transactions whose epoch height lies no further from
/// the block's own height than the bound.
pub proof fn law_epoch_window(best_epoch_height: nat, bound: nat, height: nat)
    ensures
        (lower_height(best_epoch_height, bound) <= height <= upper_height(
            best_epoch_height,
            bound,
        )) == (height <= best_epoch_height + 1 + bound && best_epoch_height + 1 <= height + bound),
{
}

/// Where the gas limit may move at all, it stays within the step that the
/// divisor allows around that of the parent and does not fall below the
/// minimum; and it is the target where the target lies within these bounds.
pub proof fn law_gas_limit_moves_within_its_step(
    target: nat,
    parent: nat,
    divisor: nat,
    min_gas_limit: nat,
)
    requires
        0 < divisor <= parent,
        min_gas_limit <= parent,
    ensures
        ({
            let limit = gas_limit(target, parent, divisor, min_gas_limit);
            let step = parent / divisor;
            &&& parent - step < limit < parent + step
            &&& min_gas_limit <= limit
            &&& gas_lower(parent, divisor, min_gas_limit) <= limit <= gas_upper(parent, divisor)
            &&& gas_lower(parent, divisor, min_gas_limit) <= target <= gas_upper(parent, divisor)
                ==> limit == target
        }),
{
    let step = parent as int / divisor as int;
    vstd::arithmetic::div_mod::lemma_div_non_zero(parent as int, divisor as int);
    vstd::arithmetic::div_mod::lemma_div_nonincreasing(parent as int, divisor as int);
    assert(1 <= step <= parent);
}

/// At most one slot transaction goes into a block for every four from the
/// pool, just that many where enough are ready and else all that are, and the
/// accounts that are listed first come first.
pub proof fn law_slot_transactions_are_a_quarter(from_pool: nat, ready: Seq<Address>)
    ensures
        ({
            let accounts = slot_tx_accounts(from_pool, Some(ready));
            &&& 4 * accounts.len() <= from_pool
            &&& from_pool / 4 <= ready.len() ==> accounts.len() == from_pool / 4
            &&& ready.len() <= from_pool / 4 ==> accounts == ready
            &&& accounts.is_prefix_of(ready)
        }),
{
}

/// A transaction that passes with the basic check also passes without it, and
/// where the common verification finds no error the check makes no difference.
pub proof fn law_basic_check_only_adds(
    config: TxPoolConfig,
    verification: VerificationConfig,
    best: BestInformation,
    tx: TransactionWithSignature,
    checks: TransactionChecks,
)
    ensures
        objection(config, verification, best, tx, true, checks) is None ==> objection(
            config,
            verification,
            best,
            tx,
            false,
            checks,
        ) is None,
        checks.common_error is None ==> objection(config, verification, best, tx, true, checks)
            == objection(config, verification, best, tx, false, checks),
{
}

/// Remembering an empty list of transactions changes nothing.
pub proof fn law_empty_lists_change_nothing(p: PoolView)
    ensures
        p.with_recycled(Seq::empty()) == p,
        p.with_packed(Seq::empty()) == p,
{
    assert(p.with_recycled(Seq::empty()).recycle_tx_requests =~= p.recycle_tx_requests);
    assert(p.with_packed(Seq::empty()).set_tx_requests =~= p.set_tx_requests);
}

} // verus!
