//! What each single operation of the pool promises, said of its inputs and its
//! result.
use std::sync::Arc;
use vstd::prelude::*;

use crate::block::{carries, slot_tx_accounts};
use crate::config::{BestInformation, GasLimitParams, TxPoolConfig, VerificationConfig};
use crate::hash::{address_bytes, hex_value, is_address_text, is_hex_digit, Address, H256};
use crate::insertion::{hashes_of, Insertion, InsertionStage, InsertionView, StageView};
use crate::laws::law_screening_says_why;
use crate::model::{swap_removed, transactions_of, PoolView};
use crate::notification::Notification;
use crate::packing::{gas_limit, gas_limit_defined, lower_height, upper_height};
use crate::text::decimal;
use crate::transaction::{
    CheckedTransaction, InsertRequest, SignedTransaction, SlotTx, Transaction, TransactionChecks,
    TransactionWithSignature,
};
use crate::u256::{u256_limit, U256};
use crate::verification::objection;

verus! {

// Verification of a single transaction.

/// A transaction passes exactly when it breaks none of the four rules: the
/// common verification found no error, or was left aside; its epoch height is
/// not too far behind, or no chain is known; its gas is at most the maximum;
/// and its gas price is at least the minimum.
pub proof fn law_passes_exactly_when_no_rule_is_broken(
    config: TxPoolConfig,
    verification: VerificationConfig,
    best: BestInformation,
    tx: TransactionWithSignature,
    basic_check: bool,
    checks: TransactionChecks,
)
    ensures
        objection(config, verification, best, tx, basic_check, checks) is None <==> {
            &&& !(basic_check && checks.common_error is Some)
            &&& !(best.best_epoch_number != 0 && checks.epoch_bound < 0)
            &&& tx.unsigned.gas@ <= config.max_tx_gas
            &&& tx.unsigned.gas_price@ >= config.min_tx_price
        },
{
}

/// The pool screens a new transaction by the same four rules, with the basic
/// check, its own settings and what consensus reported last.
pub proof fn law_screening_uses_the_settings_of_the_pool(p: PoolView, c: CheckedTransaction)
    ensures
        p.objection_to(c) is None <==> {
            &&& c.checks.common_error is None
            &&& p.consensus_best_info.best_epoch_number == 0 || c.checks.epoch_bound >= 0
            &&& c.transaction.unsigned.gas@ <= p.config.max_tx_gas
            &&& c.transaction.unsigned.gas_price@ >= p.config.min_tx_price
        },
        p.objection_to(c) == objection(
            p.config,
            p.verification_config,
            *p.consensus_best_info,
            c.transaction,
            true,
            c.checks,
        ),
{
}

/// Of the rules that a transaction breaks the first gives the message, in the
/// order of common verification, epoch height, gas and gas price.
pub proof fn law_the_first_broken_rule_gives_the_message(
    config: TxPoolConfig,
    verification: VerificationConfig,
    best: BestInformation,
    tx: TransactionWithSignature,
    basic_check: bool,
    checks: TransactionChecks,
)
    ensures
        ({
            let said = objection(config, verification, best, tx, basic_check, checks);
            let common = basic_check && checks.common_error is Some;
            let epoch = best.best_epoch_number != 0 && checks.epoch_bound < 0;
            let gas = tx.unsigned.gas@ > config.max_tx_gas;
            let price = tx.unsigned.gas_price@ < config.min_tx_price;
            &&& common ==> said == Some(checks.common_error->0@)
            &&& !common && epoch ==> said == Some(
                "transaction epoch height "@ + decimal(tx.unsigned.epoch_height as nat)
                    + " is out side the range of the current pivot height ("@ + decimal(
                    best.best_epoch_number as nat,
                ) + ") bound, only "@ + decimal(verification.transaction_epoch_bound as nat)
                    + " drift allowed!"@,
            )
            &&& !common && !epoch && gas ==> said == Some(
                "transaction gas "@ + decimal(tx.unsigned.gas@) + " exceeds the maximum value "@
                    + decimal(config.max_tx_gas as nat),
            )
            &&& !common && !epoch && !gas && price ==> said == Some(
                "transaction gas price "@ + decimal(tx.unsigned.gas_price@)
                    + " less than the minimum value "@ + decimal(config.min_tx_price as nat),
            )
        }),
{
}

/// What is said of a transaction depends on nothing of it but its gas, its gas
/// price and its epoch height.
pub proof fn law_nothing_else_of_a_transaction_is_looked_at(
    config: TxPoolConfig,
    verification: VerificationConfig,
    best: BestInformation,
    tx: TransactionWithSignature,
    other: TransactionWithSignature,
    basic_check: bool,
    checks: TransactionChecks,
)
    requires
        tx.unsigned.gas@ == other.unsigned.gas@,
        tx.unsigned.gas_price@ == other.unsigned.gas_price@,
        tx.unsigned.epoch_height == other.unsigned.epoch_height,
    ensures
        objection(config, verification, best, tx, basic_check, checks) == objection(
            config,
            verification,
            best,
            other,
            basic_check,
            checks,
        ),
{
}

/// A decimal text ends in the character of the last digit. The text before it
/// is that of the number without that digit, and a single digit has none.
pub proof fn law_decimal_digits(n: nat)
    ensures
        decimal(n).len() > 0,
        decimal(n).last() as nat == '0' as nat + n % 10,
        n < 10 ==> decimal(n).len() == 1,
        n >= 10 ==> decimal(n).drop_last() == decimal(n / 10),
{
    if n >= 10 {
        assert(decimal(n).drop_last() =~= decimal(n / 10));
    }
}

/// Different numbers have different decimal texts.
pub proof fn law_decimal_tells_numbers_apart(m: nat, n: nat)
    requires
        decimal(m) == decimal(n),
    ensures
        m == n,
    decreases m,
{
    law_decimal_digits(m);
    law_decimal_digits(n);
    if m >= 10 && n >= 10 {
        law_decimal_tells_numbers_apart(m / 10, n / 10);
    } else if m >= 10 {
        law_decimal_digits(m / 10);
    } else if n >= 10 {
        law_decimal_digits(n / 10);
    }
}

// The stages of a batch.

/// A batch is seen as it is held: its lists, its queue with the current
/// transaction first, and the texts of its reasons.
pub proof fn law_a_batch_is_seen_as_it_is_held(b: Insertion)
    ensures
        b@.passed == b.passed@,
        forall|h: H256| #[trigger] b@.failure.contains_key(h) == b.failure@.contains_key(h),
        forall|h: H256|
            b.failure@.contains_key(h) ==> #[trigger] b@.failure[h] == b.failure@[h]@,
        match b.stage {
            InsertionStage::Quota(txs) => b@.stage == StageView::Quota(txs@),
            InsertionStage::Recovery(txs) => b@.stage == StageView::Recovery(txs@),
            InsertionStage::Inserting { current, rest } => {
                &&& b@.stage is Inserting
                &&& b@.stage->Inserting_0.len() == rest@.len() + 1
                &&& b@.stage->Inserting_0[0] == current
                &&& b@.stage->Inserting_0.skip(1) == rest@
            },
            InsertionStage::Done => b@.stage == StageView::Done,
        },
{
    if let InsertionStage::Inserting { current, rest } = b.stage {
        assert((seq![current] + rest@).skip(1) =~= rest@);
    }
}

/// A new batch waits for the quota and has not passed anything. An empty one
/// has nothing to wait for and gives no reason.
pub proof fn law_a_new_batch_waits_for_the_quota(p: PoolView, s: Seq<CheckedTransaction>)
    ensures
        p.screened(s).stage is Quota,
        p.screened(s).passed.len() == 0,
        s.len() == 0 ==> p.screened(s).stage->Quota_0.len() == 0 && forall|h: H256|
            !(#[trigger] p.screened(s).failure.contains_key(h)),
{
}

/// Screening with a passing transaction in front goes the same way as without.
proof fn lemma_screen_behind(
    p: PoolView,
    c: CheckedTransaction,
    t: Seq<CheckedTransaction>,
    i: nat,
    m: Map<H256, Seq<char>>,
)
    requires
        i <= t.len(),
    ensures
        p.screen(seq![c] + t, i + 1) == seq![c] + p.screen(t, i),
        p.screen_failures(seq![c] + t, i + 1, m) == p.screen_failures(t, i, m),
    decreases t.len() - i,
{
    let s = seq![c] + t;
    if i < t.len() {
        assert(s[i as int + 1] == t[i as int]);
        if p.objection_to(t[i as int]) is None {
            lemma_screen_behind(p, c, t, i + 1, m);
        } else {
            let u = swap_removed(t, i as int);
            let n = m.insert(t[i as int].transaction.hash, p.objection_to(t[i as int])->0);
            assert(swap_removed(s, i as int + 1) =~= seq![c] + u);
            lemma_screen_behind(p, c, u, i, n);
        }
    }
}

/// Reasons that are there before screening stay where screening gives none.
proof fn lemma_screen_failures_over(
    p: PoolView,
    t: Seq<CheckedTransaction>,
    i: nat,
    m: Map<H256, Seq<char>>,
    n: Map<H256, Seq<char>>,
)
    ensures
        p.screen_failures(t, i, m.union_prefer_right(n)) == m.union_prefer_right(
            p.screen_failures(t, i, n),
        ),
    decreases t.len() - i,
{
    if i < t.len() {
        match p.objection_to(t[i as int]) {
            None => {
                lemma_screen_failures_over(p, t, i + 1, m, n);
            },
            Some(text) => {
                let h = t[i as int].transaction.hash;
                assert(m.union_prefer_right(n).insert(h, text) =~= m.union_prefer_right(
                    n.insert(h, text),
                ));
                lemma_screen_failures_over(
                    p,
                    swap_removed(t, i as int),
                    i,
                    m,
                    n.insert(h, text),
                );
            },
        }
    }
}

/// A first transaction that passes stays in front, and the others are screened
/// as if they were alone.
pub proof fn law_a_passing_transaction_stays_in_front(p: PoolView, s: Seq<CheckedTransaction>)
    requires
        s.len() > 0,
        p.objection_to(s[0]) is None,
    ensures
        p.screened(s).stage->Quota_0 == seq![s[0].transaction] + p.screened(
            s.skip(1),
        ).stage->Quota_0,
        p.screened(s).failure == p.screened(s.skip(1)).failure,
{
    let t = s.skip(1);
    assert(s =~= seq![s[0]] + t);
    lemma_screen_behind(p, s[0], t, 0, Map::empty());
    assert(transactions_of(p.screen(s, 0)) =~= seq![s[0].transaction] + transactions_of(
        p.screen(t, 0),
    ));
}

/// A first transaction that does not pass gives its place to the last, and the
/// batch is screened as if it had come so. The reason for the first one stands
/// unless a later one with its hash gets one too.
pub proof fn law_a_failing_transaction_gives_its_place_to_the_last(
    p: PoolView,
    s: Seq<CheckedTransaction>,
    text: Seq<char>,
)
    requires
        s.len() > 0,
        p.objection_to(s[0]) == Some(text),
    ensures
        ({
            let t = s.update(0, s.last()).drop_last();
            let h = s[0].transaction.hash;
            let after = p.screened(t).failure;
            &&& p.screened(s).stage->Quota_0 == p.screened(t).stage->Quota_0
            &&& p.screened(s).failure == if after.contains_key(h) {
                after
            } else {
                after.insert(h, text)
            }
        }),
{
    let t = s.update(0, s.last()).drop_last();
    let h = s[0].transaction.hash;
    let one = Map::<H256, Seq<char>>::empty().insert(h, text);
    let after = p.screened(t).failure;
    assert(t == swap_removed(s, 0));
    lemma_screen_failures_over(p, t, 0, one, Map::empty());
    assert(one.union_prefer_right(Map::empty()) =~= one);
    assert(p.screened(s).failure == one.union_prefer_right(after));
    assert(p.screened(s).failure =~= if after.contains_key(h) {
        after
    } else {
        after.insert(h, text)
    });
}

/// A transaction whose hash no other one of the batch has gets a reason just
/// if it does not pass, and then the one for which it does not. A hash that none
/// has gets no reason.
pub proof fn law_each_reason_is_that_of_its_transaction(
    p: PoolView,
    s: Seq<CheckedTransaction>,
    h: H256,
)
    requires
        forall|i: int, j: int|
            0 <= i < j < s.len() && (#[trigger] s[i]).transaction.hash == h ==> (
            #[trigger] s[j]).transaction.hash != h,
    ensures
        forall|k: int|
            0 <= k < s.len() && (#[trigger] s[k]).transaction.hash == h ==> {
                &&& p.screened(s).failure.contains_key(h) <==> p.objection_to(s[k]) is Some
                &&& p.objection_to(s[k]) is Some ==> p.objection_to(s[k]) == Some(
                    p.screened(s).failure[h],
                )
            },
        (forall|k: int| 0 <= k < s.len() ==> (#[trigger] s[k]).transaction.hash != h)
            ==> !p.screened(s).failure.contains_key(h),
{
    law_screening_says_why(p, s, h);
}

/// Where each of the transactions that are kept comes from.
proof fn lemma_screen_order(p: PoolView, s: Seq<CheckedTransaction>, i: nat) -> (from: Seq<int>)
    requires
        i <= s.len(),
        forall|j: int| 0 <= j < i ==> p.objection_to(#[trigger] s[j]) is None,
    ensures
        from.len() == p.screen(s, i).len(),
        i <= from.len() <= s.len(),
        forall|k: int|
            0 <= k < from.len() ==> 0 <= #[trigger] from[k] < s.len() && p.screen(s, i)[k]
                == s[from[k]] && p.objection_to(s[from[k]]) is None,
        forall|k: int|
            0 <= k < from.len() && p.objection_to(s[k]) is None ==> #[trigger] from[k] == k,
        forall|k: int|
            0 <= k < from.len() && p.objection_to(s[k]) is Some ==> #[trigger] from[k]
                >= from.len(),
        forall|k: int, l: int|
            0 <= k < l < from.len() && p.objection_to(s[k]) is Some && p.objection_to(s[l]) is Some
                ==> #[trigger] from[k] > #[trigger] from[l],
    decreases s.len() - i,
{
    if i >= s.len() {
        Seq::new(s.len(), |k: int| k)
    } else if p.objection_to(s[i as int]) is None {
        lemma_screen_order(p, s, i + 1)
    } else {
        let t = swap_removed(s, i as int);
        let last = s.len() - 1;
        assert forall|j: int| 0 <= j < i implies p.objection_to(#[trigger] t[j]) is None by {
            assert(t[j] == s[j]);
        }
        let f = lemma_screen_order(p, t, i);
        let from = Seq::new(
            f.len(),
            |k: int|
                if f[k] == i {
                    last
                } else {
                    f[k]
                },
        );
        assert(p.screen(s, i) == p.screen(t, i));
        assert forall|j: int| 0 <= j < t.len() && j != i implies t[j] == s[j] by {}
        assert(i < last ==> t[i as int] == s[last]);
        assert forall|k: int| 0 <= k < from.len() implies 0 <= #[trigger] from[k] < s.len()
            && p.screen(s, i)[k] == s[from[k]] && p.objection_to(s[from[k]]) is None by {
            assert(p.screen(t, i)[k] == t[f[k]]);
        }
        assert forall|k: int| 0 <= k < from.len() && p.objection_to(s[k]) is None implies
            #[trigger] from[k] == k by {
            assert(k != i);
            assert(f[k] == k);
        }
        assert forall|k: int| 0 <= k < from.len() && p.objection_to(s[k]) is Some implies
            #[trigger] from[k] >= from.len() by {
            if k != i {
                assert(f[k] >= f.len());
            } else if p.objection_to(t[i as int]) is None {
                assert(f[k] == i);
            } else {
                assert(f[k] >= f.len());
            }
        }
        assert forall|k: int, l: int|
            0 <= k < l < from.len() && p.objection_to(s[k]) is Some && p.objection_to(
                s[l],
            ) is Some implies #[trigger] from[k] > #[trigger] from[l] by {
            assert(k >= i);
            assert(f[l] >= f.len() && f[l] < t.len());
            assert(from[l] == f[l]);
            if k == i && p.objection_to(t[i as int]) is None {
                assert(f[k] == i);
            } else {
                assert(f[k] > f[l]);
            }
        }
        from
    }
}

/// The transactions that are kept stand so: each that passes keeps its place,
/// if that is among the places left; the places of those that do not pass are
/// taken, from the first on, by the passing ones behind, from the last on.
pub proof fn law_screening_order(p: PoolView, s: Seq<CheckedTransaction>)
    ensures
        ({
            let kept = p.screened(s).stage->Quota_0;
            exists|from: Seq<int>| #[trigger]
                from.len() == kept.len() && kept.len() <= s.len() && (forall|k: int|
                    0 <= k < kept.len() ==> 0 <= #[trigger] from[k] < s.len() && kept[k]
                        == s[from[k]].transaction && p.objection_to(s[from[k]]) is None && (
                    p.objection_to(s[k]) is None ==> from[k] == k) && (p.objection_to(
                        s[k],
                    ) is Some ==> from[k] >= kept.len())) && (forall|k: int, l: int|
                    0 <= k < l < kept.len() && p.objection_to(s[k]) is Some && p.objection_to(
                        s[l],
                    ) is Some ==> #[trigger] from[k] > #[trigger] from[l])
        }),
{
    let kept = p.screened(s).stage->Quota_0;
    let from = lemma_screen_order(p, s, 0);
    assert(from.len() == kept.len());
    assert forall|k: int| 0 <= k < kept.len() implies 0 <= #[trigger] from[k] < s.len() && kept[k]
        == s[from[k]].transaction && p.objection_to(s[from[k]]) is None && (p.objection_to(
        s[k],
    ) is None ==> from[k] == k) && (p.objection_to(s[k]) is Some ==> from[k] >= kept.len()) by {
        assert(p.screen(s, 0)[k] == s[from[k]]);
    }
}

/// As many of the waiting transactions go on as there is room for, from the
/// first on; where none does the batch is done. What has passed stays.
pub proof fn law_the_first_go_on_as_far_as_there_is_room(
    txs: Seq<TransactionWithSignature>,
    passed: Seq<Arc<SignedTransaction>>,
    failure: Map<H256, Seq<char>>,
    quota: nat,
)
    ensures
        ({
            let b = InsertionView { stage: StageView::Quota(txs), passed, failure };
            let c = b.after_quota(quota);
            &&& c.passed == passed
            &&& quota == 0 || txs.len() == 0 ==> c.stage == StageView::Done
            &&& 0 < quota < txs.len() ==> c.stage == StageView::Recovery(txs.take(quota as int))
            &&& 0 < txs.len() <= quota ==> c.stage == StageView::Recovery(txs)
        }),
{
    if txs.len() <= quota {
        assert(txs.take(txs.len() as int) =~= txs);
    }
}

/// Once the room is known, just the hashes of the transactions beyond it have
/// the reason that the pool is full; every other hash has the reason that it
/// had before, or none if it had none.
pub proof fn law_only_the_surplus_is_refused(
    txs: Seq<TransactionWithSignature>,
    passed: Seq<Arc<SignedTransaction>>,
    failure: Map<H256, Seq<char>>,
    quota: nat,
    h: H256,
)
    ensures
        ({
            let b = InsertionView { stage: StageView::Quota(txs), passed, failure };
            let c = b.after_quota(quota);
            let surplus = exists|k: int| quota <= k < txs.len() && (#[trigger] txs[k]).hash == h;
            &&& surplus ==> c.failure.contains_key(h) && c.failure[h] == "txpool is full"@
            &&& !surplus ==> c.failure.contains_key(h) == failure.contains_key(h)
            &&& !surplus && failure.contains_key(h) ==> c.failure[h] == failure[h]
        }),
{
    let b = InsertionView { stage: StageView::Quota(txs), passed, failure };
    let n = if quota < txs.len() {
        quota as int
    } else {
        txs.len() as int
    };
    let dropped = hashes_of(txs.skip(n));
    if exists|k: int| quota <= k < txs.len() && (#[trigger] txs[k]).hash == h {
        let k = choose|k: int| quota <= k < txs.len() && (#[trigger] txs[k]).hash == h;
        assert(dropped[k - n] == h);
    }
    if dropped.contains(h) {
        let k = choose|k: int| 0 <= k < dropped.len() && dropped[k] == h;
        assert(txs[n + k].hash == h);
    }
}

/// A transaction for which there is room, whose hash no other one has and for
/// which no reason was given, goes on and still has no reason.
pub proof fn law_there_is_room_for_the_first(
    txs: Seq<TransactionWithSignature>,
    passed: Seq<Arc<SignedTransaction>>,
    failure: Map<H256, Seq<char>>,
    quota: nat,
    k: int,
)
    requires
        0 <= k < txs.len(),
        k < quota,
        forall|l: int| 0 <= l < txs.len() && l != k ==> (#[trigger] txs[l]).hash != txs[k].hash,
        !failure.contains_key(txs[k].hash),
    ensures
        ({
            let b = InsertionView { stage: StageView::Quota(txs), passed, failure };
            let c = b.after_quota(quota);
            &&& c.stage is Recovery
            &&& k < c.stage->Recovery_0.len()
            &&& c.stage->Recovery_0[k] == txs[k]
            &&& !c.failure.contains_key(txs[k].hash)
        }),
{
    law_the_first_go_on_as_far_as_there_is_room(txs, passed, failure, quota);
    law_only_the_surplus_is_refused(txs, passed, failure, quota, txs[k].hash);
}

/// Recovered transactions are inserted, all of them and in their order; with
/// none the batch is done. No reason is added.
pub proof fn law_what_is_recovered_is_inserted(
    b: InsertionView,
    signed: Seq<Arc<SignedTransaction>>,
)
    requires
        b.stage is Recovery,
    ensures
        signed.len() > 0 ==> b.after_recovery(Ok(signed)).stage == StageView::Inserting(signed),
        signed.len() == 0 ==> b.after_recovery(Ok(signed)).stage == StageView::Done,
        b.after_recovery(Ok(signed)).passed == b.passed,
        b.after_recovery(Ok(signed)).failure == b.failure,
{
}

/// A failed recovery ends the batch. Just the hashes of the waiting
/// transactions have the error as their reason; every other hash has the reason
/// that it had before, or none if it had none. What has passed stays.
pub proof fn law_a_failed_recovery_refuses_just_what_waits(
    txs: Seq<TransactionWithSignature>,
    passed: Seq<Arc<SignedTransaction>>,
    failure: Map<H256, Seq<char>>,
    text: Seq<char>,
    h: H256,
)
    ensures
        ({
            let b = InsertionView { stage: StageView::Recovery(txs), passed, failure };
            let c = b.after_recovery(Err(text));
            let waits = exists|k: int| 0 <= k < txs.len() && (#[trigger] txs[k]).hash == h;
            &&& c.stage == StageView::Done
            &&& c.passed == passed
            &&& waits ==> c.failure.contains_key(h) && c.failure[h] == text
            &&& !waits ==> c.failure.contains_key(h) == failure.contains_key(h)
            &&& !waits && failure.contains_key(h) ==> c.failure[h] == failure[h]
        }),
{
    let hashes = hashes_of(txs);
    if exists|k: int| 0 <= k < txs.len() && (#[trigger] txs[k]).hash == h {
        let k = choose|k: int| 0 <= k < txs.len() && (#[trigger] txs[k]).hash == h;
        assert(hashes[k] == h);
    }
    if hashes.contains(h) {
        let k = choose|k: int| 0 <= k < hashes.len() && hashes[k] == h;
        assert(txs[k].hash == h);
    }
}

/// An outcome concerns the first transaction of the queue alone. Inserted, it
/// is added to those that passed; refused, its hash has the reason. The others
/// wait on, in their order, and after the last the batch is done.
pub proof fn law_an_outcome_concerns_the_current_transaction(
    tx: Arc<SignedTransaction>,
    rest: Seq<Arc<SignedTransaction>>,
    passed: Seq<Arc<SignedTransaction>>,
    failure: Map<H256, Seq<char>>,
    text: Seq<char>,
)
    ensures
        ({
            let b = InsertionView {
                stage: StageView::Inserting(seq![tx] + rest),
                passed,
                failure,
            };
            let inserted = b.after_outcome(None);
            let refused = b.after_outcome(Some(text));
            &&& inserted.passed == passed.push(tx)
            &&& inserted.failure == failure
            &&& refused.passed == passed
            &&& refused.failure == failure.insert(tx.transaction.hash, text)
            &&& inserted.stage == refused.stage
            &&& rest.len() == 0 ==> inserted.stage == StageView::Done
            &&& rest.len() > 0 ==> inserted.stage == StageView::Inserting(rest)
        }),
{
    assert((seq![tx] + rest).skip(1) =~= rest);
}

/// A refused transaction leaves the pool as it is. An inserted one is to be
/// sent to other nodes: under its hash there is the transaction that was there
/// before, if there was one, and else the new one. Nothing else changes.
pub proof fn law_an_inserted_transaction_is_to_be_sent(
    p: PoolView,
    tx: Arc<SignedTransaction>,
    text: Seq<char>,
)
    ensures
        p.after_outcome(tx, Some(text)) == p,
        ({
            let q = p.after_outcome(tx, None);
            let hash = tx.transaction.hash;
            &&& q.to_propagate_trans.contains_key(hash)
            &&& p.to_propagate_trans.contains_key(hash) ==> q.to_propagate_trans
                == p.to_propagate_trans
            &&& !p.to_propagate_trans.contains_key(hash) ==> q.to_propagate_trans[hash] == tx
            &&& forall|h: H256|
                h != hash ==> (#[trigger] q.to_propagate_trans.contains_key(h))
                    == p.to_propagate_trans.contains_key(h)
            &&& forall|h: H256|
                h != hash && p.to_propagate_trans.contains_key(h) ==> #[trigger]
                q.to_propagate_trans[h] == p.to_propagate_trans[h]
            &&& q.config == p.config
            &&& q.verification_config == p.verification_config
            &&& q.consensus_best_info == p.consensus_best_info
            &&& q.set_tx_requests == p.set_tx_requests
            &&& q.recycle_tx_requests == p.recycle_tx_requests
        }),
{
}

// What is to be sent to other nodes.

/// After transactions are added every hash that was to be sent still is. One
/// that was handed in has the transaction handed in, every other one keeps its
/// own. Nothing else in the pool changes.
pub proof fn law_adding_keeps_what_was_to_be_sent(
    p: PoolView,
    m: Map<H256, Arc<SignedTransaction>>,
)
    ensures
        ({
            let q = p.with_propagated(m);
            &&& forall|h: H256| #[trigger]
                q.to_propagate_trans.contains_key(h) <==> p.to_propagate_trans.contains_key(h)
                    || m.contains_key(h)
            &&& forall|h: H256|
                m.contains_key(h) ==> #[trigger] q.to_propagate_trans[h] == m[h]
            &&& forall|h: H256|
                p.to_propagate_trans.contains_key(h) && !m.contains_key(h) ==> #[trigger]
                q.to_propagate_trans[h] == p.to_propagate_trans[h]
            &&& q.config == p.config
            &&& q.verification_config == p.verification_config
            &&& q.consensus_best_info == p.consensus_best_info
            &&& q.set_tx_requests == p.set_tx_requests
            &&& q.recycle_tx_requests == p.recycle_tx_requests
        }),
{
}

/// After the handing out nothing is to be sent, and nothing else in the pool
/// changes.
pub proof fn law_handing_out_leaves_nothing(p: PoolView)
    ensures
        ({
            let q = p.handed_out();
            &&& forall|h: H256| !(#[trigger] q.to_propagate_trans.contains_key(h))
            &&& q.config == p.config
            &&& q.verification_config == p.verification_config
            &&& q.consensus_best_info == p.consensus_best_info
            &&& q.set_tx_requests == p.set_tx_requests
            &&& q.recycle_tx_requests == p.recycle_tx_requests
        }),
{
}

/// After a transaction is taken out its hash is not to be sent, and every other
/// one is as before. Nothing else in the pool changes.
pub proof fn law_taking_out_concerns_one_hash(p: PoolView, hash: H256)
    ensures
        ({
            let q = p.without_propagated(hash);
            &&& !q.to_propagate_trans.contains_key(hash)
            &&& forall|h: H256|
                h != hash ==> (#[trigger] q.to_propagate_trans.contains_key(h))
                    == p.to_propagate_trans.contains_key(h)
            &&& forall|h: H256|
                h != hash && p.to_propagate_trans.contains_key(h) ==> #[trigger]
                q.to_propagate_trans[h] == p.to_propagate_trans[h]
            &&& q.config == p.config
            &&& q.verification_config == p.verification_config
            &&& q.consensus_best_info == p.consensus_best_info
            &&& q.set_tx_requests == p.set_tx_requests
            &&& q.recycle_tx_requests == p.recycle_tx_requests
        }),
{
}

// Transactions that are remembered.

/// Transactions to be put back follow those that are remembered already, which
/// all stay at their places. Nothing else in the pool changes.
pub proof fn law_recycling_forgets_nothing(p: PoolView, txs: Seq<Arc<SignedTransaction>>)
    ensures
        ({
            let q = p.with_recycled(txs);
            let n = p.recycle_tx_requests.len() as int;
            &&& q.recycle_tx_requests.len() == n + txs.len()
            &&& forall|i: int|
                0 <= i < n ==> #[trigger] q.recycle_tx_requests[i] == p.recycle_tx_requests[i]
            &&& forall|j: int|
                0 <= j < txs.len() ==> q.recycle_tx_requests[n + j] == #[trigger] txs[j]
            &&& q.config == p.config
            &&& q.verification_config == p.verification_config
            &&& q.to_propagate_trans == p.to_propagate_trans
            &&& q.consensus_best_info == p.consensus_best_info
            &&& q.set_tx_requests == p.set_tx_requests
        }),
{
}

/// Transactions to be marked as packed follow those that are remembered
/// already, which all stay at their places. Nothing else in the pool changes.
pub proof fn law_marking_forgets_nothing(p: PoolView, txs: Seq<Arc<SignedTransaction>>)
    ensures
        ({
            let q = p.with_packed(txs);
            let n = p.set_tx_requests.len() as int;
            &&& q.set_tx_requests.len() == n + txs.len()
            &&& forall|i: int|
                0 <= i < n ==> #[trigger] q.set_tx_requests[i] == p.set_tx_requests[i]
            &&& forall|j: int|
                0 <= j < txs.len() ==> q.set_tx_requests[n + j] == #[trigger] txs[j]
            &&& q.config == p.config
            &&& q.verification_config == p.verification_config
            &&& q.to_propagate_trans == p.to_propagate_trans
            &&& q.consensus_best_info == p.consensus_best_info
            &&& q.recycle_tx_requests == p.recycle_tx_requests
        }),
{
}

/// Remembering one list after another is remembering both at once.
pub proof fn law_lists_add_up(
    p: PoolView,
    a: Seq<Arc<SignedTransaction>>,
    b: Seq<Arc<SignedTransaction>>,
)
    ensures
        p.with_recycled(a).with_recycled(b) == p.with_recycled(a + b),
        p.with_packed(a).with_packed(b) == p.with_packed(a + b),
        p.with_recycled(a).with_packed(b) == p.with_packed(b).with_recycled(a),
{
    assert(p.with_recycled(a).with_recycled(b).recycle_tx_requests =~= p.with_recycled(
        a + b,
    ).recycle_tx_requests);
    assert(p.with_packed(a).with_packed(b).set_tx_requests =~= p.with_packed(
        a + b,
    ).set_tx_requests);
}

/// What consensus reports takes the place of what it reported before, and
/// nothing else in the pool changes.
pub proof fn law_a_report_is_noted(p: PoolView, best_info: Arc<BestInformation>)
    ensures
        ({
            let q = p.with_best_info(best_info);
            &&& q.consensus_best_info == best_info
            &&& q.config == p.config
            &&& q.verification_config == p.verification_config
            &&& q.to_propagate_trans == p.to_propagate_trans
            &&& q.set_tx_requests == p.set_tx_requests
            &&& q.recycle_tx_requests == p.recycle_tx_requests
        }),
{
}

/// The transaction that was remembered last to be marked as packed is offered
/// next, as packed and without force, and is then forgotten. It does not matter
/// what is to be put back.
pub proof fn law_the_latest_to_be_marked_comes_first<E>(p: PoolView, tx: Arc<SignedTransaction>)
    ensures
        ({
            let q = p.with_packed(seq![tx]);
            &&& q.next_order::<E>() == Notification::<E>::Inserting(
                InsertRequest { transaction: tx, packed: true, force: false },
            )
            &&& q.after_request() == p
        }),
{
    let q = p.with_packed(seq![tx]);
    assert(q.set_tx_requests.last() == tx);
    assert(q.set_tx_requests.drop_last() =~= p.set_tx_requests);
}

/// Where none is to be marked as packed, the transaction that was remembered
/// last to be put back comes next, not as packed and with force, once the
/// account of its sender is read, and is then forgotten.
pub proof fn law_the_latest_to_be_put_back_comes_next<E>(p: PoolView, tx: Arc<SignedTransaction>)
    requires
        p.set_tx_requests.len() == 0,
    ensures
        ({
            let q = p.with_recycled(seq![tx]);
            &&& q.next_order::<E>() == Notification::<E>::Reading(
                InsertRequest { transaction: tx, packed: false, force: true },
            )
            &&& q.after_request() == p
        }),
{
    let q = p.with_recycled(seq![tx]);
    assert(q.recycle_tx_requests.last() == tx);
    assert(q.recycle_tx_requests.drop_last() =~= p.recycle_tx_requests);
}

/// Where no transaction is remembered a report ends well and changes nothing.
pub proof fn law_nothing_remembered_is_nothing_to_do<E>(p: PoolView)
    requires
        p.set_tx_requests.len() == 0,
        p.recycle_tx_requests.len() == 0,
    ensures
        p.next_order::<E>() == Notification::<E>::Finished(Ok(())),
        p.after_request() == p,
{
}

/// Once the account is read the order is carried out as it was given; where the
/// reading fails everything ends with its error.
pub proof fn law_an_account_read_decides<E>(request: InsertRequest, e: E)
    ensures
        Notification::<E>::Reading(request).after_read(Ok(())) == Notification::<E>::Inserting(
            request,
        ),
        Notification::<E>::Reading(request).after_read(Err(e)) == Notification::<E>::Finished(
            Err(e),
        ),
{
}

// The limits of a block.

/// The epoch heights of a block reach as far down and up from its own height as
/// the bound, but not below zero.
pub proof fn law_epoch_bounds(best_epoch_height: nat, bound: nat)
    ensures
        upper_height(best_epoch_height, bound) == best_epoch_height + 1 + bound,
        bound <= best_epoch_height + 1 ==> lower_height(best_epoch_height, bound) + bound
            == best_epoch_height + 1,
        bound > best_epoch_height + 1 ==> lower_height(best_epoch_height, bound) == 0,
{
}

/// Where the divisor allows a step, the gas limit is the target if that lies
/// less than a step from the parent's and not below the minimum. A larger
/// target gives the largest such limit, a smaller one the smallest.
pub proof fn law_gas_limit_is_the_nearest_to_the_target(
    target: nat,
    parent: nat,
    divisor: nat,
    min_gas_limit: nat,
)
    requires
        0 < divisor <= parent,
        min_gas_limit <= parent,
    ensures
        ({
            let limit = gas_limit(target, parent, divisor, min_gas_limit);
            let step = parent / divisor;
            let low = if parent - step + 1 >= min_gas_limit {
                parent - step + 1
            } else {
                min_gas_limit as int
            };
            let high = parent + step - 1;
            &&& low <= high
            &&& target < low ==> limit == low
            &&& low <= target <= high ==> limit == target
            &&& high < target ==> limit == high
        }),
{
    vstd::arithmetic::div_mod::lemma_div_non_zero(parent as int, divisor as int);
    vstd::arithmetic::div_mod::lemma_div_nonincreasing(parent as int, divisor as int);
}

/// Where the divisor is larger than the parent's gas limit there is no step,
/// and the limit is one below the parent's, whatever the target.
pub proof fn law_gas_limit_without_a_step(
    target: nat,
    parent: nat,
    divisor: nat,
    min_gas_limit: nat,
)
    requires
        0 < parent < divisor,
    ensures
        gas_limit(target, parent, divisor, min_gas_limit) == parent - 1,
{
    vstd::arithmetic::div_mod::lemma_basic_div(parent as int, divisor as int);
}

/// The gas limit grows with the target: a larger target never gives a smaller
/// limit.
pub proof fn law_gas_limit_follows_the_target(
    target: nat,
    larger: nat,
    parent: nat,
    divisor: nat,
    min_gas_limit: nat,
)
    requires
        target <= larger,
    ensures
        gas_limit(target, parent, divisor, min_gas_limit) <= gas_limit(
            larger,
            parent,
            divisor,
            min_gas_limit,
        ),
{
}

/// The gas limit can be computed exactly when the divisor is not zero, the
/// parent's limit is neither zero nor below the minimum, and the largest limit
/// fits into 256 bits.
pub proof fn law_gas_limit_is_defined(parent: nat, params: GasLimitParams)
    ensures
        gas_limit_defined(parent, params) <==> {
            &&& params.gas_limit_bound_divisor@ > 0
            &&& parent > 0
            &&& parent >= params.min_gas_limit@
            &&& parent + parent / params.gas_limit_bound_divisor@
                <= 0xffff_ffff_ffff_ffff_ffff_ffff_ffff_ffff_ffff_ffff_ffff_ffff_ffff_ffff_ffff_ffffnat
        },
{
}

/// The words of a number are its digits to the base of two to the power of
/// sixty-four, the least significant first.
pub proof fn law_words_of_a_number(x: U256)
    ensures
        x@ == x.words[0] + 0x1_0000_0000_0000_0000 * (x.words[1] + 0x1_0000_0000_0000_0000 * (
        x.words[2] + 0x1_0000_0000_0000_0000 * x.words[3])),
        x@ < u256_limit(),
        (forall|i: int| 0 <= i < 4 ==> #[trigger] x.words[i] == u64::MAX) ==> x@ + 1
            == u256_limit(),
{
    if forall|i: int| 0 <= i < 4 ==> #[trigger] x.words[i] == u64::MAX {
        assert(x.words[0] == u64::MAX && x.words[1] == u64::MAX && x.words[2] == u64::MAX
            && x.words[3] == u64::MAX);
    }
}

// The contents of a block.

/// As many ready accounts are taken as there are, but at most one for every
/// four transactions from the pool, and from the first on. Where no account is
/// known to be ready none is taken.
pub proof fn law_ready_accounts_are_taken_from_the_first_on(from_pool: nat, ready: Seq<Address>)
    ensures
        ({
            let accounts = slot_tx_accounts(from_pool, Some(ready));
            &&& 4 * ready.len() <= from_pool ==> accounts == ready
            &&& 4 * ready.len() > from_pool ==> 4 * accounts.len() <= from_pool < 4 * (
            accounts.len() + 1)
            &&& accounts.len() <= ready.len()
            &&& forall|i: int| 0 <= i < accounts.len() ==> #[trigger] accounts[i] == ready[i]
        }),
        slot_tx_accounts(from_pool, None).len() == 0,
{
}

/// A further ready account at the end of the list changes nothing but that it
/// may be taken too.
pub proof fn law_a_further_ready_account(from_pool: nat, ready: Seq<Address>, a: Address)
    ensures
        ({
            let before = slot_tx_accounts(from_pool, Some(ready));
            let after = slot_tx_accounts(from_pool, Some(ready.push(a)));
            &&& 4 * (ready.len() + 1) <= from_pool ==> after == before.push(a)
            &&& 4 * (ready.len() + 1) > from_pool ==> after == before
        }),
{
    let before = slot_tx_accounts(from_pool, Some(ready));
    let after = slot_tx_accounts(from_pool, Some(ready.push(a)));
    law_ready_accounts_are_taken_from_the_first_on(from_pool, ready);
    law_ready_accounts_are_taken_from_the_first_on(from_pool, ready.push(a));
    if 4 * (ready.len() + 1) <= from_pool {
        assert(after =~= before.push(a));
    } else {
        assert(after =~= before);
    }
}

/// A transaction that carries a slot transaction creates nothing of its own:
/// its numbers are zero, its data is empty, and it holds the slot transaction.
pub proof fn law_a_carrier_holds_its_slot_transaction(tx: Transaction, slot_tx: SlotTx)
    ensures
        carries(tx, slot_tx) <==> {
            &&& tx.nonce@ == 0 && tx.gas_price@ == 0 && tx.gas@ == 0
            &&& tx.action is Create
            &&& tx.value@ == 0 && tx.storage_limit@ == 0
            &&& tx.epoch_height == 0 && tx.chain_id == 0
            &&& tx.data@ == Seq::<u8>::empty()
            &&& tx.slot_tx is Some && tx.slot_tx->0 == slot_tx
        },
{
    assert(tx.data@.len() == 0 ==> tx.data@ =~= Seq::<u8>::empty());
}

// Hashes and addresses.

/// Hashes are put in a strict order: of two different ones just one is before
/// the other, and what is before is before all that comes after.
pub proof fn law_hashes_are_ordered(a: H256, b: H256, c: H256)
    ensures
        !a.before(a),
        a != b ==> a.before(b) != b.before(a),
        a.before(b) && b.before(c) ==> a.before(c),
        a.hi < b.hi ==> a.before(b),
        a.hi == b.hi && a.lo < b.lo ==> a.before(b),
{
}

/// The bytes of an address are read from pairs of hexadecimal digits, the first
/// of a pair for the upper half of the byte.
pub proof fn law_address_bytes(s: Seq<char>, i: int)
    requires
        is_address_text(s),
        0 <= i < 20,
    ensures
        address_bytes(s).len() == 20,
        address_bytes(s)[i] / 16 == hex_value(s[2 * i]),
        address_bytes(s)[i] % 16 == hex_value(s[2 * i + 1]),
{
    assert(is_hex_digit(s[2 * i]) && is_hex_digit(s[2 * i + 1]));
}

/// The digits and the letters up to `f`, of either case, are the hexadecimal
/// digits of the values in their order.
pub proof fn law_hex_digits(c: char)
    ensures
        is_hex_digit(c) <==> 48 <= c as int <= 57 || 65 <= c as int <= 70 || 97 <= c as int <= 102,
        48 <= c as int <= 57 ==> hex_value(c) == c as int - 48,
        65 <= c as int <= 70 ==> hex_value(c) == c as int - 55,
        97 <= c as int <= 102 ==> hex_value(c) == c as int - 87,
{
}

} // verus!
