//! Batch unbonding: draining the FIFO queue of withdrawal requests.
//!
//! Once the oldest queued request has aged past `BATCH_PERIOD`, the whole
//! queue is drained front to back in one atomic operation: every entry's
//! amount leaves its address's total delegation, the matching unscheduled
//! withdrawal records get their claim time, and the corrected total is
//! split across the validators by weight as undelegate instructions.

use vstd::prelude::*;
use crate::config::{lemma_weight_le_sum, Config, ValidatorWithWeight};
use crate::error::Error;
use crate::math::{lemma_ratio_le, multiply_ratio};
use crate::msg::Instruction;
use crate::state::{
    delegation_index,
    delegations_unique,
    find_delegation,
    find_withdrawals,
    has_delegation,
    has_withdrawals,
    spec_delegated_of,
    spec_queue_total,
    spec_records_of,
    withdrawals_index,
    withdrawals_unique,
    DelegatedEntry,
    State,
    UserUnbond,
    UserWithdrawal,
    WithdrawalsEntry,
};
use crate::{BATCH_PERIOD, MAX_UNIX_TIMESTAMP, UNBOUND_TIME};
use vstd::pervasive::VecAdditionalExecFns;

verus! {

/// An unscheduled withdrawal record that a queue entry pairs with: same
/// amount, same creation time, claim time still the sentinel.
pub open spec fn spec_matches(r: UserWithdrawal, amount: u128, timestamp: u64) -> bool {
    r.claim_time == MAX_UNIX_TIMESTAMP && r.amount == amount && r.timestamp == timestamp
}

/// Sets `claim_time` to `now + UNBOUND_TIME` on every record that pairs
/// with the drained entry, and leaves all others unchanged.
pub open spec fn spec_schedule_records(
    recs: Seq<UserWithdrawal>,
    amount: u128,
    timestamp: u64,
    now: u64,
) -> Seq<UserWithdrawal> {
    recs.map(
        |k: int, r: UserWithdrawal|
            if spec_matches(r, amount, timestamp) {
                UserWithdrawal {
                    amount: r.amount,
                    claim_time: (now + UNBOUND_TIME) as u64,
                    timestamp: r.timestamp,
                }
            } else {
                r
            },
    )
}

/// The withdrawal records of address `a` after the whole queue `q` has been
/// drained, front to back.
pub open spec fn spec_drain_records(
    recs: Seq<UserWithdrawal>,
    q: Seq<UserUnbond>,
    a: Seq<char>,
    now: u64,
) -> Seq<UserWithdrawal>
    decreases q.len(),
{
    if q.len() == 0 {
        recs
    } else {
        let r1 = if q[0].address@ == a {
            spec_schedule_records(recs, q[0].amount, q[0].timestamp, now)
        } else {
            recs
        };
        spec_drain_records(r1, q.drop_first(), a, now)
    }
}

/// Sum of the queued amounts that belong to address `a`.
pub open spec fn spec_queue_total_for(q: Seq<UserUnbond>, a: Seq<char>) -> int
    decreases q.len(),
{
    if q.len() == 0 {
        0
    } else {
        spec_queue_total_for(q.drop_last(), a) + if q.last().address@ == a {
            q.last().amount as int
        } else {
            0
        }
    }
}

/// Draining one more entry at the tail.
pub proof fn lemma_drain_records_push(
    recs: Seq<UserWithdrawal>,
    q: Seq<UserUnbond>,
    e: UserUnbond,
    a: Seq<char>,
    now: u64,
)
    ensures
        spec_drain_records(recs, q.push(e), a, now) == (if e.address@ == a {
            spec_schedule_records(
                spec_drain_records(recs, q, a, now),
                e.amount,
                e.timestamp,
                now,
            )
        } else {
            spec_drain_records(recs, q, a, now)
        }),
    decreases q.len(),
{
    if q.len() == 0 {
        let r1 = if e.address@ == a {
            spec_schedule_records(recs, e.amount, e.timestamp, now)
        } else {
            recs
        };
        assert(q.push(e)[0] == e);
        assert(q.push(e).drop_first() =~= Seq::<UserUnbond>::empty());
        assert(spec_drain_records(r1, Seq::<UserUnbond>::empty(), a, now) == r1);
    } else {
        assert(q.push(e)[0] == q[0]);
        assert(q.push(e).drop_first() =~= q.drop_first().push(e));
        let r1 = if q[0].address@ == a {
            spec_schedule_records(recs, q[0].amount, q[0].timestamp, now)
        } else {
            recs
        };
        lemma_drain_records_push(r1, q.drop_first(), e, a, now);
    }
}

/// Draining a one-longer prefix of the queue.
pub proof fn lemma_drain_records_take_step(
    recs: Seq<UserWithdrawal>,
    q: Seq<UserUnbond>,
    k: int,
    a: Seq<char>,
    now: u64,
)
    requires
        0 <= k < q.len(),
    ensures
        spec_drain_records(recs, q.take(k + 1), a, now) == (if q[k].address@ == a {
            spec_schedule_records(
                spec_drain_records(recs, q.take(k), a, now),
                q[k].amount,
                q[k].timestamp,
                now,
            )
        } else {
            spec_drain_records(recs, q.take(k), a, now)
        }),
{
    assert(q.take(k + 1) =~= q.take(k).push(q[k]));
    lemma_drain_records_push(recs, q.take(k), q[k], a, now);
}

/// One more queue prefix entry in the per-address total.
pub proof fn lemma_total_for_take_step(q: Seq<UserUnbond>, k: int, a: Seq<char>)
    requires
        0 <= k < q.len(),
    ensures
        spec_queue_total_for(q.take(k + 1), a) == spec_queue_total_for(q.take(k), a) + (if q[k].address@
            == a {
            q[k].amount as int
        } else {
            0
        }),
{
    assert(q.take(k + 1).drop_last() =~= q.take(k));
}

/// One more queue prefix entry in the full total.
pub proof fn lemma_queue_total_take_step(q: Seq<UserUnbond>, k: int)
    requires
        0 <= k < q.len(),
    ensures
        spec_queue_total(q.take(k + 1)) == spec_queue_total(q.take(k)) + q[k].amount,
{
    assert(q.take(k + 1).drop_last() =~= q.take(k));
}

/// A prefix of the queue never sums to more than the whole queue.
pub proof fn lemma_queue_total_prefix_le(q: Seq<UserUnbond>, k: int)
    requires
        0 <= k <= q.len(),
    ensures
        spec_queue_total(q.take(k)) <= spec_queue_total(q),
    decreases q.len() - k,
{
    if k < q.len() {
        lemma_queue_total_take_step(q, k);
        lemma_queue_total_prefix_le(q, k + 1);
    } else {
        assert(q.take(k) =~= q);
    }
}

/// Draining never changes how many records an address holds.
pub proof fn lemma_drain_records_len(
    recs: Seq<UserWithdrawal>,
    q: Seq<UserUnbond>,
    a: Seq<char>,
    now: u64,
)
    ensures
        spec_drain_records(recs, q, a, now).len() == recs.len(),
    decreases q.len(),
{
    if q.len() > 0 {
        let r1 = if q[0].address@ == a {
            spec_schedule_records(recs, q[0].amount, q[0].timestamp, now)
        } else {
            recs
        };
        lemma_drain_records_len(r1, q.drop_first(), a, now);
    }
}

/// An address with no delegation entry has nothing queued in any prefix
/// whose steps all pass the delegation check.
pub proof fn lemma_absent_total_zero(
    dmap: Map<Seq<char>, u128>,
    q: Seq<UserUnbond>,
    a: Seq<char>,
    k: int,
)
    requires
        0 <= k <= q.len(),
        !dmap.dom().contains(a),
        forall|j: int| 0 <= j < k ==> !spec_step_td_aborts(dmap, q, j),
    ensures
        spec_queue_total_for(q.take(k), a) == 0,
    decreases k,
{
    if k == 0 {
        assert(q.take(0) =~= Seq::<UserUnbond>::empty());
    } else {
        lemma_absent_total_zero(dmap, q, a, k - 1);
        lemma_total_for_take_step(q, k - 1, a);
        if q[k - 1].address@ == a {
            assert(!spec_step_td_aborts(dmap, q, k - 1));
        }
    }
}

/// Draining entry `k` aborts: its address's remaining delegation cannot
/// cover the amount, or scheduling a matching record would overflow the
/// clock. `dmap` and `wmap` are the delegation and withdrawal ledgers by
/// address at the start of the drain.
pub open spec fn spec_step_td_aborts(dmap: Map<Seq<char>, u128>, q: Seq<UserUnbond>, k: int) -> bool {
    let a = q[k].address@;
    let td = if dmap.dom().contains(a) {
        dmap[a] as int
    } else {
        0
    };
    td - spec_queue_total_for(q.take(k), a) < q[k].amount
}

/// Some record in `recs` pairs with a drained entry of this amount and
/// creation time.
pub open spec fn spec_clock_match(recs: Seq<UserWithdrawal>, amount: u128, timestamp: u64) -> bool {
    exists|j: int| 0 <= j < recs.len() && spec_matches(#[trigger] recs[j], amount, timestamp)
}

/// Scheduling entry `k`'s matching records would overflow the clock.
pub open spec fn spec_step_clock_aborts(
    wmap: Map<Seq<char>, Seq<UserWithdrawal>>,
    q: Seq<UserUnbond>,
    now: u64,
    k: int,
) -> bool {
    let a = q[k].address@;
    let recs0 = if wmap.dom().contains(a) {
        wmap[a]
    } else {
        Seq::<UserWithdrawal>::empty()
    };
    let recs = spec_drain_records(recs0, q.take(k), a, now);
    now + UNBOUND_TIME > u64::MAX && spec_clock_match(recs, q[k].amount, q[k].timestamp)
}

pub open spec fn spec_step_aborts(
    dmap: Map<Seq<char>, u128>,
    wmap: Map<Seq<char>, Seq<UserWithdrawal>>,
    q: Seq<UserUnbond>,
    now: u64,
    k: int,
) -> bool {
    spec_step_td_aborts(dmap, q, k) || spec_step_clock_aborts(wmap, q, now, k)
}

/// The whole drain aborts with an arithmetic error: the queued amounts
/// overflow, fall short of the dust correction, or some entry aborts.
pub open spec fn spec_batch_aborts(
    dmap: Map<Seq<char>, u128>,
    wmap: Map<Seq<char>, Seq<UserWithdrawal>>,
    q: Seq<UserUnbond>,
    now: u64,
) -> bool {
    ||| spec_queue_total(q) > u128::MAX
    ||| spec_queue_total(q) < 4
    ||| exists|k: int| 0 <= k < q.len() && spec_step_aborts(dmap, wmap, q, now, k)
}

/// The delegation ledger as a map from address to amount.
pub open spec fn spec_dmap(s: Seq<DelegatedEntry>) -> Map<Seq<char>, u128> {
    Map::new(|a: Seq<char>| has_delegation(s, a), |a: Seq<char>| spec_delegated_of(s, a))
}

/// The withdrawal ledger as a map from address to its records.
pub open spec fn spec_wmap(s: Seq<WithdrawalsEntry>) -> Map<Seq<char>, Seq<UserWithdrawal>> {
    Map::new(|a: Seq<char>| has_withdrawals(s, a), |a: Seq<char>| spec_records_of(s, a))
}

/// The undelegate instruction for each validator: the corrected total split
/// by weight with the wide multiply-then-divide, floored.
pub open spec fn spec_undelegate_msgs(vs: Seq<ValidatorWithWeight>, confirmed: u128) -> Seq<
    Instruction,
> {
    Seq::new(
        vs.len(),
        |i: int|
            Instruction::Undelegate {
                validator: vs[i].address,
                amount: ((confirmed * vs[i].weight) / 100) as u128,
            },
    )
}

/// Schedules every record pairing with a drained entry of this `amount` and
/// `timestamp`: their claim time becomes `now + UNBOUND_TIME`. Fails with
/// the arithmetic error when a record pairs but the new claim time would
/// not fit the clock.
fn schedule_records(recs: &Vec<UserWithdrawal>, amount: u128, timestamp: u64, now: u64) -> (r:
    Result<Vec<UserWithdrawal>, Error>)
    ensures
        ({
            let has_match = spec_clock_match(recs@, amount, timestamp);
            if has_match && now + UNBOUND_TIME > u64::MAX {
                r == Err::<Vec<UserWithdrawal>, Error>(Error::ArithmeticError)
            } else {
                &&& r is Ok
                &&& r->Ok_0@ == spec_schedule_records(recs@, amount, timestamp, now)
            }
        }),
{
    let n: usize = recs.len();
    let mut out: Vec<UserWithdrawal> = Vec::new();
    let mut j: usize = 0;
    while j < n
        invariant
            0 <= j <= n,
            n == recs@.len(),
            out@.len() == j,
            forall|i: int|
                0 <= i < j ==> out@[i] == (if spec_matches(#[trigger] recs@[i], amount, timestamp) {
                    UserWithdrawal {
                        amount: recs@[i].amount,
                        claim_time: (now + UNBOUND_TIME) as u64,
                        timestamp: recs@[i].timestamp,
                    }
                } else {
                    recs@[i]
                }),
            forall|i: int| 0 <= i < j ==> !spec_matches(#[trigger] recs@[i], amount, timestamp)
                || now + UNBOUND_TIME <= u64::MAX,
        decreases n - j,
    {
        let rec = recs[j];
        if rec.claim_time == MAX_UNIX_TIMESTAMP && rec.amount == amount && rec.timestamp
            == timestamp {
            if now > u64::MAX - UNBOUND_TIME {
                return Err(Error::ArithmeticError);
            }
            out.push(
                UserWithdrawal {
                    amount: rec.amount,
                    claim_time: now + UNBOUND_TIME,
                    timestamp: rec.timestamp,
                },
            );
        } else {
            out.push(rec);
        }
        j = j + 1;
    }
    proof {
        assert(out@ =~= spec_schedule_records(recs@, amount, timestamp, now));
    }
    Ok(out)
}

/// A field-for-field copy of the delegation ledger.
fn copy_delegations(v: &Vec<DelegatedEntry>) -> (r: Vec<DelegatedEntry>)
    ensures
        r@ == v@,
{
    let n: usize = v.len();
    let mut out: Vec<DelegatedEntry> = Vec::new();
    let mut i: usize = 0;
    while i < n
        invariant
            0 <= i <= n,
            n == v@.len(),
            out@ =~= v@.take(i as int),
        decreases n - i,
    {
        out.push(DelegatedEntry { address: v[i].address.clone(), amount: v[i].amount });
        proof {
            assert(v@[i as int] == (DelegatedEntry {
                address: v@[i as int].address,
                amount: v@[i as int].amount,
            }));
            assert(out@ =~= v@.take(i + 1));
        }
        i = i + 1;
    }
    proof {
        assert(v@.take(n as int) =~= v@);
    }
    out
}

/// A copy of the withdrawal ledger, equal entry for entry in address and
/// records.
pub(crate) fn copy_withdrawals(v: &Vec<WithdrawalsEntry>) -> (r: Vec<WithdrawalsEntry>)
    ensures
        r@.len() == v@.len(),
        forall|i: int|
            0 <= i < v@.len() ==> (#[trigger] r@[i]).address@ == v@[i].address@ && r@[i].records@
                == v@[i].records@,
{
    let n: usize = v.len();
    let mut out: Vec<WithdrawalsEntry> = Vec::new();
    let mut i: usize = 0;
    while i < n
        invariant
            0 <= i <= n,
            n == v@.len(),
            out@.len() == i,
            forall|j: int|
                0 <= j < i ==> (#[trigger] out@[j]).address@ == v@[j].address@ && out@[j].records@
                    == v@[j].records@,
        decreases n - i,
    {
        let mut recs: Vec<UserWithdrawal> = Vec::new();
        let m: usize = v[i].records.len();
        let mut j: usize = 0;
        while j < m
            invariant
                0 <= j <= m,
                0 <= i < n,
                n == v@.len(),
                m == v@[i as int].records@.len(),
                recs@ =~= v@[i as int].records@.take(j as int),
            decreases m - j,
        {
            recs.push(v[i].records[j]);
            proof {
                assert(recs@ =~= v@[i as int].records@.take(j + 1));
            }
            j = j + 1;
        }
        proof {
            assert(v@[i as int].records@.take(m as int) =~= v@[i as int].records@);
        }
        out.push(WithdrawalsEntry { address: v[i].address.clone(), records: recs });
        i = i + 1;
    }
    out
}

/// A field-for-field copy of the unbond queue.
pub fn copy_unbonds(v: &Vec<UserUnbond>) -> (r: Vec<UserUnbond>)
    ensures
        r@ == v@,
{
    let n: usize = v.len();
    let mut out: Vec<UserUnbond> = Vec::new();
    let mut i: usize = 0;
    while i < n
        invariant
            0 <= i <= n,
            n == v@.len(),
            out@ =~= v@.take(i as int),
        decreases n - i,
    {
        out.push(
            UserUnbond {
                address: v[i].address.clone(),
                amount: v[i].amount,
                timestamp: v[i].timestamp,
            },
        );
        proof {
            assert(v@[i as int] == (UserUnbond {
                address: v@[i as int].address,
                amount: v@[i as int].amount,
                timestamp: v@[i as int].timestamp,
            }));
            assert(out@ =~= v@.take(i + 1));
        }
        i = i + 1;
    }
    proof {
        assert(v@.take(n as int) =~= v@);
    }
    out
}

/// Drains the whole queue against copies of the two ledgers and returns the
/// drained ledgers together with the weighted undelegate instructions for
/// the dust-corrected total. Aborts exactly when `spec_batch_aborts` says
/// so, leaving nothing changed.
#[verifier::loop_isolation(false)]
#[verifier::rlimit(100)]
pub fn drain_core(
    config: &Config,
    delegations: &Vec<DelegatedEntry>,
    withdrawals: &Vec<WithdrawalsEntry>,
    unbonds: &Vec<UserUnbond>,
    now: u64,
) -> (r: Result<(Vec<DelegatedEntry>, Vec<WithdrawalsEntry>, Vec<Instruction>), Error>)
    requires
        config.wf(),
        delegations_unique(delegations@),
        withdrawals_unique(withdrawals@),
    ensures
        ({
            let q = unbonds@;
            if spec_batch_aborts(spec_dmap(delegations@), spec_wmap(withdrawals@), q, now) {
                r == Err::<(Vec<DelegatedEntry>, Vec<WithdrawalsEntry>, Vec<Instruction>), Error>(
                    Error::ArithmeticError,
                )
            } else {
                &&& r is Ok
                &&& r->Ok_0.0@.len() == delegations@.len()
                &&& forall|i: int|
                    0 <= i < delegations@.len() ==> (#[trigger] r->Ok_0.0@[i]).address@
                        == delegations@[i].address@ && r->Ok_0.0@[i].amount == delegations@[i].amount
                        - spec_queue_total_for(q, delegations@[i].address@)
                &&& r->Ok_0.1@.len() == withdrawals@.len()
                &&& forall|i: int|
                    0 <= i < withdrawals@.len() ==> (#[trigger] r->Ok_0.1@[i]).address@
                        == withdrawals@[i].address@ && r->Ok_0.1@[i].records@ == spec_drain_records(
                        withdrawals@[i].records@,
                        q,
                        withdrawals@[i].address@,
                        now,
                    )
                &&& r->Ok_0.2@ == spec_undelegate_msgs(
                    config.validators@,
                    (spec_queue_total(q) - 4) as u128,
                )
            }
        }),
{
    let ghost q = unbonds@;
    let ghost dmap0 = spec_dmap(delegations@);
    let ghost wmap0 = spec_wmap(withdrawals@);
    let n: usize = unbonds.len();
    let mut new_dels = copy_delegations(delegations);
    let mut new_ws = copy_withdrawals(withdrawals);
    let mut total: u128 = 0;
    let mut k: usize = 0;
    while k < n
        invariant
            0 <= k <= n,
            total == spec_queue_total(q.take(k as int)),
            new_dels@.len() == delegations@.len(),
            forall|i: int|
                0 <= i < delegations@.len() ==> (#[trigger] new_dels@[i]).address@
                    == delegations@[i].address@,
            forall|i: int|
                0 <= i < delegations@.len() ==> (#[trigger] new_dels@[i]).amount
                    == delegations@[i].amount - spec_queue_total_for(
                    q.take(k as int),
                    delegations@[i].address@,
                ),
            new_ws@.len() == withdrawals@.len(),
            forall|i: int|
                0 <= i < withdrawals@.len() ==> (#[trigger] new_ws@[i]).address@
                    == withdrawals@[i].address@,
            forall|i: int|
                0 <= i < withdrawals@.len() ==> (#[trigger] new_ws@[i]).records@
                    == spec_drain_records(
                    withdrawals@[i].records@,
                    q.take(k as int),
                    withdrawals@[i].address@,
                    now,
                ),
            forall|j: int| 0 <= j < k ==> !spec_step_aborts(dmap0, wmap0, q, now, j),
        decreases n - k,
    {
        let ghost a = q[k as int].address@;
        let e_amount: u128 = unbonds[k].amount;
        let e_timestamp: u64 = unbonds[k].timestamp;
        proof {
            lemma_queue_total_take_step(q, k as int);
            lemma_queue_total_prefix_le(q, k + 1);
        }
        if e_amount > u128::MAX - total {
            return Err(Error::ArithmeticError);
        }
        total = total + e_amount;

        match find_delegation(&new_dels, &unbonds[k].address) {
            Some(i) => {
                proof {
                    assert(delegations@[i as int].address@ == a);
                    assert(has_delegation(delegations@, a));
                    if delegation_index(delegations@, a) != i as int {
                        assert(delegations@[delegation_index(delegations@, a)].address@
                            != delegations@[i as int].address@);
                    }
                    assert(dmap0.dom().contains(a));
                    assert(dmap0[a] == delegations@[i as int].amount);
                }
                let cur: u128 = new_dels[i].amount;
                if cur < e_amount {
                    proof {
                        assert(new_dels@[i as int].amount == delegations@[i as int].amount
                            - spec_queue_total_for(
                            q.take(k as int),
                            delegations@[i as int].address@,
                        ));
                        assert(cur == new_dels@[i as int].amount);
                        assert(dmap0[a] as int - spec_queue_total_for(q.take(k as int), a) < q[
                            k as int
                        ].amount);
                        assert(spec_step_td_aborts(dmap0, q, k as int));
                        assert(spec_step_aborts(dmap0, wmap0, q, now, k as int));
                    }
                    return Err(Error::ArithmeticError);
                }
                proof {
                    assert(!spec_step_td_aborts(dmap0, q, k as int));
                }
                let addr: String = new_dels[i].address.clone();
                new_dels.set(i, DelegatedEntry { address: addr, amount: cur - e_amount });
            },
            None => {
                proof {
                    if has_delegation(delegations@, a) {
                        let i0 = delegation_index(delegations@, a);
                        assert(new_dels@[i0].address@ == a);
                        assert(has_delegation(new_dels@, a));
                    }
                    assert(!dmap0.dom().contains(a));
                    assert forall|j: int| 0 <= j < k implies !spec_step_td_aborts(
                        dmap0,
                        q,
                        j,
                    ) by {
                        assert(!spec_step_aborts(dmap0, wmap0, q, now, j));
                    }
                    lemma_absent_total_zero(dmap0, q, a, k as int);
                }
                if e_amount > 0 {
                    proof {
                        assert(spec_step_td_aborts(dmap0, q, k as int));
                        assert(spec_step_aborts(dmap0, wmap0, q, now, k as int));
                    }
                    return Err(Error::ArithmeticError);
                }
                proof {
                    assert(!spec_step_td_aborts(dmap0, q, k as int));
                }
            },
        }

        match find_withdrawals(&new_ws, &unbonds[k].address) {
            Some(i) => {
                proof {
                    assert(withdrawals@[i as int].address@ == a);
                    assert(has_withdrawals(withdrawals@, a));
                    if withdrawals_index(withdrawals@, a) != i as int {
                        assert(withdrawals@[withdrawals_index(withdrawals@, a)].address@
                            != withdrawals@[i as int].address@);
                    }
                    assert(wmap0.dom().contains(a));
                    assert(wmap0[a] == withdrawals@[i as int].records@);
                }
                match schedule_records(&new_ws[i].records, e_amount, e_timestamp, now) {
                    Ok(updated) => {
                        proof {
                            assert(!spec_step_clock_aborts(wmap0, q, now, k as int));
                        }
                        let addr: String = new_ws[i].address.clone();
                        new_ws.set(i, WithdrawalsEntry { address: addr, records: updated });
                    },
                    Err(_) => {
                        proof {
                            assert(spec_clock_match(new_ws@[i as int].records@, e_amount, e_timestamp));
                            assert(spec_step_clock_aborts(wmap0, q, now, k as int));
                            assert(spec_step_aborts(dmap0, wmap0, q, now, k as int));
                        }
                        return Err(Error::ArithmeticError);
                    },
                }
            },
            None => {
                proof {
                    if has_withdrawals(withdrawals@, a) {
                        let i0 = withdrawals_index(withdrawals@, a);
                        assert(new_ws@[i0].address@ == a);
                        assert(has_withdrawals(new_ws@, a));
                    }
                    assert(!wmap0.dom().contains(a));
                    lemma_drain_records_len(
                        Seq::<UserWithdrawal>::empty(),
                        q.take(k as int),
                        a,
                        now,
                    );
                    assert(!spec_step_clock_aborts(wmap0, q, now, k as int));
                }
            },
        }

        proof {
            assert(!spec_step_aborts(dmap0, wmap0, q, now, k as int));
            assert forall|i: int| 0 <= i < delegations@.len() implies (#[trigger] new_dels@[i]).amount
                == delegations@[i].amount - spec_queue_total_for(
                q.take(k + 1),
                delegations@[i].address@,
            ) by {
                lemma_total_for_take_step(q, k as int, delegations@[i].address@);
            }
            assert forall|i: int| 0 <= i < withdrawals@.len() implies (#[trigger] new_ws@[i]).records@
                == spec_drain_records(
                withdrawals@[i].records@,
                q.take(k + 1),
                withdrawals@[i].address@,
                now,
            ) by {
                lemma_drain_records_take_step(
                    withdrawals@[i].records@,
                    q,
                    k as int,
                    withdrawals@[i].address@,
                    now,
                );
            }
        }
        k = k + 1;
    }
    proof {
        assert(q.take(n as int) =~= q);
    }
    if total < 4 {
        return Err(Error::ArithmeticError);
    }
    let confirmed: u128 = total - 4;

    let nv: usize = config.validators.len();
    let mut msgs: Vec<Instruction> = Vec::new();
    let ghost umsgs = spec_undelegate_msgs(config.validators@, confirmed);
    let mut v: usize = 0;
    while v < nv
        invariant
            0 <= v <= nv,
            msgs@ == umsgs.take(v as int),
        decreases nv - v,
    {
        let w: u128 = config.validators[v].weight;
        proof {
            lemma_weight_le_sum(config.validators@, v as int);
            lemma_ratio_le(confirmed as int, w as int, 100);
        }
        let amount: u128 = multiply_ratio(confirmed, w, 100);
        msgs.push(
            Instruction::Undelegate { validator: config.validators[v].address.clone(), amount },
        );
        proof {
            assert(msgs@ =~= umsgs.take(v + 1));
        }
        v = v + 1;
    }
    proof {
        assert(umsgs.take(nv as int) =~= umsgs);
    }
    Ok((new_dels, new_ws, msgs))
}

/// Triggers the batch drain on its own: the queue must be non-empty and its
/// head at least `BATCH_PERIOD` old. On success the queue is empty, so an
/// immediate second call fails with `QueueEmpty`.
pub fn try_batch_unbond(state: &mut State, now: u64) -> (r: Result<Vec<Instruction>, Error>)
    requires
        old(state).wf(),
    ensures
        r is Err ==> *final(state) == *old(state),
        ({
            let pre = *old(state);
            let q = pre.unbonds@;
            if q.len() == 0 {
                r == Err::<Vec<Instruction>, Error>(Error::QueueEmpty)
            } else if q[0].timestamp > now {
                r == Err::<Vec<Instruction>, Error>(Error::ArithmeticError)
            } else if now - q[0].timestamp < BATCH_PERIOD {
                r == Err::<Vec<Instruction>, Error>(Error::TooEarly)
            } else if spec_batch_aborts(
                spec_dmap(pre.delegations@),
                spec_wmap(pre.withdrawals@),
                q,
                now,
            ) {
                r == Err::<Vec<Instruction>, Error>(Error::ArithmeticError)
            } else {
                let post = *final(state);
                &&& r is Ok
                &&& post.wf()
                &&& post.config == pre.config
                &&& post.users == pre.users
                &&& post.unbonds@.len() == 0
                &&& post.delegations@.len() == pre.delegations@.len()
                &&& forall|i: int|
                    0 <= i < pre.delegations@.len() ==> (#[trigger] post.delegations@[i]).address@
                        == pre.delegations@[i].address@ && post.delegations@[i].amount
                        == pre.delegations@[i].amount - spec_queue_total_for(
                        q,
                        pre.delegations@[i].address@,
                    )
                &&& post.withdrawals@.len() == pre.withdrawals@.len()
                &&& forall|i: int|
                    0 <= i < pre.withdrawals@.len() ==> (#[trigger] post.withdrawals@[i]).address@
                        == pre.withdrawals@[i].address@ && post.withdrawals@[i].records@
                        == spec_drain_records(
                        pre.withdrawals@[i].records@,
                        q,
                        pre.withdrawals@[i].address@,
                        now,
                    )
                &&& r->Ok_0@ == spec_undelegate_msgs(
                    pre.config.validators@,
                    (spec_queue_total(q) - 4) as u128,
                )
            }
        }),
{
    if state.unbonds.len() == 0 {
        return Err(Error::QueueEmpty);
    }
    let head_timestamp: u64 = state.unbonds[0].timestamp;
    if head_timestamp > now {
        return Err(Error::ArithmeticError);
    }
    if now - head_timestamp < BATCH_PERIOD {
        return Err(Error::TooEarly);
    }
    match drain_core(&state.config, &state.delegations, &state.withdrawals, &state.unbonds, now) {
        Err(e) => Err(e),
        Ok((new_dels, new_ws, msgs)) => {
            state.delegations = new_dels;
            state.withdrawals = new_ws;
            state.unbonds = Vec::new();
            Ok(msgs)
        },
    }
}

} // verus!
