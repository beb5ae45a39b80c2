//! The withdraw operation: full liquidation of a user's position.
//!
//! The chain reports each configured validator's currently bonded amount;
//! the host passes those reports in, in validator order. The payout spreads
//! any slashing proportionally over all currently staked users. The user's
//! record is deleted, a withdrawal record and an unbond queue entry are
//! created, and when the queue head is old enough the batch drain of the
//! whole queue runs inline as part of the same atomic operation.

use vstd::prelude::*;
use crate::error::Error;
use crate::msg::Instruction;
use crate::queue::{
    copy_unbonds,
    copy_withdrawals,
    drain_core,
    spec_batch_aborts,
    spec_dmap,
    spec_drain_records,
    spec_queue_total_for,
    spec_undelegate_msgs,
    spec_wmap,
};
use crate::state::spec_queue_total;
use crate::state::{
    find_user,
    find_withdrawals,
    has_user,
    has_withdrawals,
    spec_records_of,
    spec_total_staked,
    spec_user_of,
    user_index,
    withdrawals_index,
    withdrawals_unique,
    State,
    UserInfo,
    UserUnbond,
    UserWithdrawal,
    WithdrawalsEntry,
};
use crate::{BATCH_PERIOD, MAX_UNIX_TIMESTAMP};
use vstd::pervasive::VecAdditionalExecFns;

verus! {

/// The scan of the chain-reported bonded amounts, in validator order: the
/// first validator reporting no delegation fails the operation fatally, and
/// the running sum must not overflow.
pub open spec fn spec_bonded_scan(b: Seq<Option<u128>>) -> Result<int, Error>
    decreases b.len(),
{
    if b.len() == 0 {
        Ok(0)
    } else {
        match spec_bonded_scan(b.drop_last()) {
            Err(e) => Err(e),
            Ok(s) => match b.last() {
                None => Err(Error::MissingDelegation),
                Some(x) => if s + x > u128::MAX {
                    Err(Error::ArithmeticError)
                } else {
                    Ok(s + x)
                },
            },
        }
    }
}

/// A scan error in a prefix is the error of the whole scan.
proof fn lemma_scan_err_extends(b: Seq<Option<u128>>, k: int)
    requires
        0 <= k <= b.len(),
        spec_bonded_scan(b.take(k)) is Err,
    ensures
        spec_bonded_scan(b) == spec_bonded_scan(b.take(k)),
    decreases b.len() - k,
{
    if k < b.len() {
        assert(b.take(k + 1).drop_last() =~= b.take(k));
        lemma_scan_err_extends(b, k + 1);
    } else {
        assert(b.take(k) =~= b);
    }
}

/// One more delegation entry in the staked total.
proof fn lemma_total_staked_take_step(s: Seq<crate::state::DelegatedEntry>, k: int)
    requires
        0 <= k < s.len(),
    ensures
        spec_total_staked(s.take(k + 1)) == spec_total_staked(s.take(k)) + s[k].amount,
{
    assert(s.take(k + 1).drop_last() =~= s.take(k));
}

/// A prefix of the ledger never sums to more than the whole ledger.
proof fn lemma_total_staked_prefix_le(s: Seq<crate::state::DelegatedEntry>, k: int)
    requires
        0 <= k <= s.len(),
    ensures
        spec_total_staked(s.take(k)) <= spec_total_staked(s),
    decreases s.len() - k,
{
    if k < s.len() {
        lemma_total_staked_take_step(s, k);
        lemma_total_staked_prefix_le(s, k + 1);
    } else {
        assert(s.take(k) =~= s);
    }
}

/// The withdrawal ledger by address after the sender's new record has been
/// appended.
pub open spec fn spec_wmap_after_push(
    pre: Seq<WithdrawalsEntry>,
    sender: Seq<char>,
    rec: UserWithdrawal,
) -> Map<Seq<char>, Seq<UserWithdrawal>> {
    spec_wmap(pre).insert(sender, spec_records_of(pre, sender).push(rec))
}

/// Appending one record to one address turns the ledger map into the
/// corresponding insert.
proof fn lemma_wmap_push(
    pre: Seq<WithdrawalsEntry>,
    ws2: Seq<WithdrawalsEntry>,
    sender: Seq<char>,
    rec: UserWithdrawal,
)
    requires
        withdrawals_unique(pre),
        has_withdrawals(pre, sender) ==> ws2.len() == pre.len() && (forall|i: int|
            0 <= i < pre.len() && i != withdrawals_index(pre, sender)
                ==> (#[trigger] ws2[i]).address@ == pre[i].address@ && ws2[i].records@
                == pre[i].records@) && ws2[withdrawals_index(pre, sender)].address@ == sender
            && ws2[withdrawals_index(pre, sender)].records@ == pre[withdrawals_index(
            pre,
            sender,
        )].records@.push(rec),
        !has_withdrawals(pre, sender) ==> ws2.len() == pre.len() + 1 && (forall|i: int|
            0 <= i < pre.len() ==> (#[trigger] ws2[i]).address@ == pre[i].address@
                && ws2[i].records@ == pre[i].records@) && ws2[pre.len() as int].address@ == sender
            && ws2[pre.len() as int].records@ == Seq::<UserWithdrawal>::empty().push(rec),
    ensures
        withdrawals_unique(ws2),
        spec_wmap(ws2) == spec_wmap_after_push(pre, sender, rec),
{
    if has_withdrawals(pre, sender) {
        let si = withdrawals_index(pre, sender);
        assert(pre[si].address@ == sender);
        assert(forall|i: int| 0 <= i < ws2.len() ==> (#[trigger] ws2[i]).address@
            == pre[i].address@);
        assert(withdrawals_unique(ws2));
        assert forall|a: Seq<char>| has_withdrawals(ws2, a) implies has_withdrawals(pre, a) by {
            let i = choose|i: int| 0 <= i < ws2.len() && ws2[i].address@ == a;
            assert(pre[i].address@ == a);
        }
        assert forall|a: Seq<char>| has_withdrawals(pre, a) implies has_withdrawals(ws2, a) by {
            let i = choose|i: int| 0 <= i < pre.len() && pre[i].address@ == a;
            assert(ws2[i].address@ == a);
        }
        assert forall|a: Seq<char>|
            has_withdrawals(ws2, a) implies spec_records_of(ws2, a) == (if a == sender {
            spec_records_of(pre, sender).push(rec)
        } else {
            spec_records_of(pre, a)
        }) by {
            let i2 = withdrawals_index(ws2, a);
            let i1 = withdrawals_index(pre, a);
            assert(ws2[i2].address@ == a);
            assert(pre[i1].address@ == a);
            assert(pre[i2].address@ == a);
            if i1 != i2 {
                assert(pre[i1].address@ != pre[i2].address@);
            }
            if a == sender {
                if i1 != si {
                    assert(pre[i1].address@ != pre[si].address@);
                }
            }
        }
        assert(spec_wmap(ws2) =~= spec_wmap_after_push(pre, sender, rec));
    } else {
        assert(forall|i: int| 0 <= i < pre.len() ==> (#[trigger] pre[i]).address@ != sender);
        assert forall|i: int, j: int| 0 <= i < j < ws2.len() implies ws2[i].address@
            != ws2[j].address@ by {
            if j < pre.len() {
                assert(ws2[i].address@ == pre[i].address@);
                assert(ws2[j].address@ == pre[j].address@);
            } else {
                assert(ws2[i].address@ == pre[i].address@);
                assert(ws2[j].address@ == sender);
            }
        }
        assert forall|a: Seq<char>|
            has_withdrawals(ws2, a) implies has_withdrawals(pre, a) || a == sender by {
            let i = choose|i: int| 0 <= i < ws2.len() && ws2[i].address@ == a;
            if i < pre.len() {
                assert(pre[i].address@ == a);
            }
        }
        assert forall|a: Seq<char>|
            has_withdrawals(pre, a) implies has_withdrawals(ws2, a) by {
            let i = choose|i: int| 0 <= i < pre.len() && pre[i].address@ == a;
            assert(ws2[i].address@ == a);
        }
        assert(ws2[pre.len() as int].address@ == sender);
        assert(has_withdrawals(ws2, sender));
        assert forall|a: Seq<char>|
            has_withdrawals(ws2, a) implies spec_records_of(ws2, a) == (if a == sender {
            spec_records_of(pre, sender).push(rec)
        } else {
            spec_records_of(pre, a)
        }) by {
            let i2 = withdrawals_index(ws2, a);
            assert(ws2[i2].address@ == a);
            if a == sender {
                if i2 != pre.len() {
                    assert(ws2[i2].address@ == pre[i2].address@);
                }
                assert(spec_records_of(pre, sender) =~= Seq::<UserWithdrawal>::empty());
            } else {
                assert(i2 < pre.len());
                assert(pre[i2].address@ == a);
                let i1 = withdrawals_index(pre, a);
                if i1 != i2 {
                    assert(pre[i1].address@ != pre[i2].address@);
                }
            }
        }
        assert(spec_wmap(ws2) =~= spec_wmap_after_push(pre, sender, rec));
    }
}

/// Liquidates the sender's whole position. `bonded` holds, per configured
/// validator in order, the amount the chain reports as currently bonded, or
/// `None` when the validator reports no delegation, which is fatal.
///
/// The payout is `orai_deposit * (sum of bonded) / (sum of the delegation
/// ledger)`, floored, so slashing is spread over all staked users. The
/// sender's record is deleted whole; a withdrawal record with the sentinel
/// claim time and a queue entry are created. If the queue head (including a
/// fresh first entry) is at least `BATCH_PERIOD` old, the whole queue is
/// drained inline exactly as by the standalone batch trigger, and the
/// weighted undelegate instructions are returned; otherwise no instruction
/// is emitted. On any error the state is untouched.
#[verifier::loop_isolation(false)]
#[verifier::rlimit(100)]
pub fn try_withdraw(
    state: &mut State,
    sender: &String,
    now: u64,
    bonded: &Vec<Option<u128>>,
) -> (r: Result<Vec<Instruction>, Error>)
    requires
        old(state).wf(),
        bonded@.len() == old(state).config.validators@.len(),
    ensures
        r is Err ==> *final(state) == *old(state),
        ({
            let pre = *old(state);
            let u = spec_user_of(pre.users@, sender@, pre.config.spec_min_tier());
            let amount = u.orai_deposit;
            let staked = spec_total_staked(pre.delegations@);
            let scan = spec_bonded_scan(bonded@);
            if !(pre.config.status is Active) {
                r == Err::<Vec<Instruction>, Error>(Error::NotActive)
            } else if staked > u128::MAX {
                r == Err::<Vec<Instruction>, Error>(Error::ArithmeticError)
            } else if scan is Err {
                r == Err::<Vec<Instruction>, Error>(scan->Err_0)
            } else if amount * scan->Ok_0 > u128::MAX || staked == 0 {
                r == Err::<Vec<Instruction>, Error>(Error::ArithmeticError)
            } else {
                let payout = ((amount * scan->Ok_0) / staked) as u128;
                let rec = UserWithdrawal {
                    amount: payout,
                    claim_time: MAX_UNIX_TIMESTAMP,
                    timestamp: now,
                };
                let entry = UserUnbond { address: *sender, amount: payout, timestamp: now };
                let q2 = pre.unbonds@.push(entry);
                let post = *final(state);
                if q2[0].timestamp > now {
                    r == Err::<Vec<Instruction>, Error>(Error::ArithmeticError)
                } else {
                    let users_ok = if has_user(pre.users@, sender@) {
                        post.users@ == pre.users@.remove(user_index(pre.users@, sender@))
                    } else {
                        post.users@ == pre.users@
                    };
                    let ws_pushed_ok = if has_withdrawals(pre.withdrawals@, sender@) {
                        post.withdrawals@.len() == pre.withdrawals@.len() && (forall|i: int|
                            0 <= i < pre.withdrawals@.len()
                                ==> (#[trigger] post.withdrawals@[i]).address@
                                == pre.withdrawals@[i].address@) && (forall|i: int|
                            0 <= i < pre.withdrawals@.len() && i != withdrawals_index(
                                pre.withdrawals@,
                                sender@,
                            ) ==> (#[trigger] post.withdrawals@[i]).records@
                                == pre.withdrawals@[i].records@)
                            && post.withdrawals@[withdrawals_index(
                            pre.withdrawals@,
                            sender@,
                        )].records@ == pre.withdrawals@[withdrawals_index(
                            pre.withdrawals@,
                            sender@,
                        )].records@.push(rec)
                    } else {
                        post.withdrawals@.len() == pre.withdrawals@.len() + 1 && (forall|i: int|
                            0 <= i < pre.withdrawals@.len()
                                ==> (#[trigger] post.withdrawals@[i]).address@
                                == pre.withdrawals@[i].address@ && post.withdrawals@[i].records@
                                == pre.withdrawals@[i].records@) && post.withdrawals@.last().address@
                            == sender@ && post.withdrawals@.last().records@ == Seq::<
                            UserWithdrawal,
                        >::empty().push(rec)
                    };
                    if now - q2[0].timestamp < BATCH_PERIOD {
                        &&& r is Ok
                        &&& r->Ok_0@ == Seq::<Instruction>::empty()
                        &&& post.wf()
                        &&& post.config == pre.config
                        &&& post.delegations == pre.delegations
                        &&& users_ok
                        &&& ws_pushed_ok
                        &&& post.unbonds@ == q2
                    } else if spec_batch_aborts(
                        spec_dmap(pre.delegations@),
                        spec_wmap_after_push(pre.withdrawals@, sender@, rec),
                        q2,
                        now,
                    ) {
                        r == Err::<Vec<Instruction>, Error>(Error::ArithmeticError)
                    } else {
                        let drained_ws = |recs: Seq<UserWithdrawal>, a: Seq<char>|
                            spec_drain_records(recs, q2, a, now);
                        &&& r is Ok
                        &&& post.wf()
                        &&& post.config == pre.config
                        &&& users_ok
                        &&& post.unbonds@.len() == 0
                        &&& post.delegations@.len() == pre.delegations@.len()
                        &&& (forall|i: int|
                            0 <= i < pre.delegations@.len()
                                ==> (#[trigger] post.delegations@[i]).address@
                                == pre.delegations@[i].address@ && post.delegations@[i].amount
                                == pre.delegations@[i].amount - spec_queue_total_for(
                                q2,
                                pre.delegations@[i].address@,
                            ))
                        &&& (if has_withdrawals(pre.withdrawals@, sender@) {
                            post.withdrawals@.len() == pre.withdrawals@.len() && (forall|i: int|
                                0 <= i < pre.withdrawals@.len()
                                    ==> (#[trigger] post.withdrawals@[i]).address@
                                    == pre.withdrawals@[i].address@) && (forall|i: int|
                                0 <= i < pre.withdrawals@.len() && i != withdrawals_index(
                                    pre.withdrawals@,
                                    sender@,
                                ) ==> (#[trigger] post.withdrawals@[i]).records@
                                    == spec_drain_records(
                                    pre.withdrawals@[i].records@,
                                    q2,
                                    pre.withdrawals@[i].address@,
                                    now,
                                )) && post.withdrawals@[withdrawals_index(
                                pre.withdrawals@,
                                sender@,
                            )].records@ == spec_drain_records(
                                pre.withdrawals@[withdrawals_index(
                                    pre.withdrawals@,
                                    sender@,
                                )].records@.push(rec),
                                q2,
                                sender@,
                                now,
                            )
                        } else {
                            post.withdrawals@.len() == pre.withdrawals@.len() + 1 && (forall|i: int|
                                0 <= i < pre.withdrawals@.len()
                                    ==> (#[trigger] post.withdrawals@[i]).address@
                                    == pre.withdrawals@[i].address@
                                    && post.withdrawals@[i].records@ == spec_drain_records(
                                    pre.withdrawals@[i].records@,
                                    q2,
                                    pre.withdrawals@[i].address@,
                                    now,
                                )) && post.withdrawals@.last().address@ == sender@
                                && post.withdrawals@.last().records@ == spec_drain_records(
                                Seq::<UserWithdrawal>::empty().push(rec),
                                q2,
                                sender@,
                                now,
                            )
                        })
                        &&& r->Ok_0@ == spec_undelegate_msgs(
                            pre.config.validators@,
                            (spec_queue_total(q2) - 4) as u128,
                        )
                    }
                }
            }
        }),
{
    if state.config.assert_contract_active().is_err() {
        return Err(Error::NotActive);
    }
    let min_tier: u8 = state.config.min_tier();
    let uidx = find_user(&state.users, sender);
    let u: UserInfo = match uidx {
        Some(i) => state.users[i].info,
        None => UserInfo { tier: min_tier, timestamp: 0, usd_deposit: 0, orai_deposit: 0 },
    };
    proof {
        assert(u == spec_user_of(state.users@, sender@, state.config.spec_min_tier()));
    }
    let amount: u128 = u.orai_deposit;

    let nd: usize = state.delegations.len();
    let mut total_staked: u128 = 0;
    let mut i: usize = 0;
    while i < nd
        invariant
            0 <= i <= nd,
            total_staked == spec_total_staked(state.delegations@.take(i as int)),
        decreases nd - i,
    {
        let x: u128 = state.delegations[i].amount;
        proof {
            lemma_total_staked_take_step(state.delegations@, i as int);
            lemma_total_staked_prefix_le(state.delegations@, i + 1);
        }
        if x > u128::MAX - total_staked {
            return Err(Error::ArithmeticError);
        }
        total_staked = total_staked + x;
        i = i + 1;
    }
    proof {
        assert(state.delegations@.take(nd as int) =~= state.delegations@);
    }

    let nv: usize = bonded.len();
    let mut slashed: u128 = 0;
    let mut i: usize = 0;
    while i < nv
        invariant
            0 <= i <= nv,
            spec_bonded_scan(bonded@.take(i as int)) == Ok::<int, Error>(slashed as int),
        decreases nv - i,
    {
        proof {
            assert(bonded@.take(i + 1).drop_last() =~= bonded@.take(i as int));
        }
        match bonded[i] {
            None => {
                proof {
                    lemma_scan_err_extends(bonded@, i + 1);
                }
                return Err(Error::MissingDelegation);
            },
            Some(x) => {
                if x > u128::MAX - slashed {
                    proof {
                        lemma_scan_err_extends(bonded@, i + 1);
                    }
                    return Err(Error::ArithmeticError);
                }
                slashed = slashed + x;
            },
        }
        i = i + 1;
    }
    proof {
        assert(bonded@.take(nv as int) =~= bonded@);
    }

    let product: u128 = match amount.checked_mul(slashed) {
        Some(p) => p,
        None => {
            return Err(Error::ArithmeticError);
        },
    };
    if total_staked == 0 {
        return Err(Error::ArithmeticError);
    }
    let payout: u128 = product / total_staked;

    let rec = UserWithdrawal { amount: payout, claim_time: MAX_UNIX_TIMESTAMP, timestamp: now };
    let widx = find_withdrawals(&state.withdrawals, sender);
    let mut ws2 = copy_withdrawals(&state.withdrawals);
    match widx {
        Some(wi) => {
            let m: usize = ws2[wi].records.len();
            let mut recs: Vec<UserWithdrawal> = Vec::new();
            let mut j: usize = 0;
            while j < m
                invariant
                    0 <= j <= m,
                    wi < ws2@.len(),
                    m == ws2@[wi as int].records@.len(),
                    recs@ =~= ws2@[wi as int].records@.take(j as int),
                decreases m - j,
            {
                recs.push(ws2[wi].records[j]);
                proof {
                    assert(recs@ =~= ws2@[wi as int].records@.take(j + 1));
                }
                j = j + 1;
            }
            proof {
                assert(ws2@[wi as int].records@.take(m as int) =~= ws2@[wi as int].records@);
            }
            recs.push(rec);
            let addr: String = ws2[wi].address.clone();
            ws2.set(wi, WithdrawalsEntry { address: addr, records: recs });
        },
        None => {
            let mut recs: Vec<UserWithdrawal> = Vec::new();
            recs.push(rec);
            ws2.push(WithdrawalsEntry { address: sender.clone(), records: recs });
        },
    }
    proof {
        lemma_wmap_push(state.withdrawals@, ws2@, sender@, rec);
    }

    let mut q2 = copy_unbonds(&state.unbonds);
    q2.push(UserUnbond { address: sender.clone(), amount: payout, timestamp: now });
    proof {
        assert(q2@ == state.unbonds@.push(
            (UserUnbond { address: *sender, amount: payout, timestamp: now }),
        ));
    }

    let head_timestamp: u64 = q2[0].timestamp;
    if head_timestamp > now {
        return Err(Error::ArithmeticError);
    }
    if now - head_timestamp >= BATCH_PERIOD {
        match drain_core(&state.config, &state.delegations, &ws2, &q2, now) {
            Err(e) => {
                return Err(e);
            },
            Ok((new_dels, new_ws, msgs)) => {
                match uidx {
                    Some(i) => {
                        state.users.remove(i);
                    },
                    None => {},
                }
                state.delegations = new_dels;
                state.withdrawals = new_ws;
                state.unbonds = Vec::new();
                return Ok(msgs);
            },
        }
    } else {
        match uidx {
            Some(i) => {
                state.users.remove(i);
            },
            None => {},
        }
        state.withdrawals = ws2;
        state.unbonds = q2;
        return Ok(Vec::new());
    }
}

} // verus!
