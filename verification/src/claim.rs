//! The claim operation: paying out matured withdrawal records.
//!
//! A claim scans one page of the sender's withdrawal ledger, removes every
//! record there whose claim time has passed, keeps all other records in
//! their order, and pays the removed amounts out in a single aggregated
//! transfer. A caller who pages past all matured records is told there is
//! nothing to claim even though unscanned matured records may exist.

use vstd::prelude::*;
use crate::error::Error;
use crate::msg::Instruction;
use crate::state::{
    find_withdrawals,
    spec_records_of,
    State,
    UserWithdrawal,
    WithdrawalsEntry,
    withdrawals_index,
};
use vstd::pervasive::VecAdditionalExecFns;

verus! {

/// A record whose claim time has passed.
pub open spec fn spec_matured(r: UserWithdrawal, now: u64) -> bool {
    r.claim_time <= now
}

/// The records of a page that a claim leaves in place, in their order.
pub open spec fn spec_kept_page(page: Seq<UserWithdrawal>, now: u64) -> Seq<UserWithdrawal>
    decreases page.len(),
{
    if page.len() == 0 {
        Seq::empty()
    } else {
        let rest = spec_kept_page(page.drop_last(), now);
        if spec_matured(page.last(), now) {
            rest
        } else {
            rest.push(page.last())
        }
    }
}

/// The summed amount of the matured records of a page.
pub open spec fn spec_matured_total(page: Seq<UserWithdrawal>, now: u64) -> int
    decreases page.len(),
{
    if page.len() == 0 {
        0
    } else {
        spec_matured_total(page.drop_last(), now) + if spec_matured(page.last(), now) {
            page.last().amount as int
        } else {
            0
        }
    }
}

/// Whether the page holds any matured record.
pub open spec fn spec_has_matured(page: Seq<UserWithdrawal>, now: u64) -> bool {
    exists|j: int| 0 <= j < page.len() && spec_matured(#[trigger] page[j], now)
}

/// One more page entry in the matured total and the kept records.
proof fn lemma_page_take_step(page: Seq<UserWithdrawal>, p: int, now: u64)
    requires
        0 <= p < page.len(),
    ensures
        spec_matured_total(page.take(p + 1), now) == spec_matured_total(page.take(p), now) + (if
            spec_matured(page[p], now) {
            page[p].amount as int
        } else {
            0
        }),
        spec_kept_page(page.take(p + 1), now) == (if spec_matured(page[p], now) {
            spec_kept_page(page.take(p), now)
        } else {
            spec_kept_page(page.take(p), now).push(page[p])
        }),
{
    assert(page.take(p + 1).drop_last() =~= page.take(p));
}

/// A prefix of the page never sums to more than the whole page.
proof fn lemma_matured_total_prefix_le(page: Seq<UserWithdrawal>, p: int, now: u64)
    requires
        0 <= p <= page.len(),
    ensures
        spec_matured_total(page.take(p), now) <= spec_matured_total(page, now),
    decreases page.len() - p,
{
    if p < page.len() {
        lemma_page_take_step(page, p, now);
        lemma_matured_total_prefix_le(page, p + 1, now);
    } else {
        assert(page.take(p) =~= page);
    }
}

/// Claims the matured records of one page of the sender's withdrawal
/// ledger.
///
/// The page is `records[start .. start + limit]` (bounded by the ledger
/// length; `start` defaults to 0, `limit` to 50). Exactly the matured
/// records of that page are removed, all other records keep their relative
/// order, and their summed amount goes to the recipient (the sender by
/// default) in one transfer. Fails with `NothingToClaim` when the ledger is
/// empty or the page holds no matured record; on any failure the state is
/// untouched.
#[verifier::loop_isolation(false)]
#[verifier::rlimit(60)]
pub fn try_claim(
    state: &mut State,
    sender: &String,
    recipient: Option<String>,
    start: Option<u32>,
    limit: Option<u32>,
    now: u64,
) -> (r: Result<(u128, Vec<Instruction>), Error>)
    requires
        old(state).wf(),
    ensures
        r is Err ==> *final(state) == *old(state),
        ({
            let pre = *old(state);
            let recs = spec_records_of(pre.withdrawals@, sender@);
            let start_n = (match start {
                Some(v) => v as int,
                None => 0,
            });
            let limit_n = (match limit {
                Some(v) => v as int,
                None => 50,
            });
            let s0 = if start_n < recs.len() {
                start_n
            } else {
                recs.len() as int
            };
            let e0 = if start_n + limit_n < recs.len() {
                start_n + limit_n
            } else {
                recs.len() as int
            };
            let page = recs.subrange(s0, e0);
            if !(pre.config.status is Active) {
                r == Err::<(u128, Vec<Instruction>), Error>(Error::NotActive)
            } else if recs.len() == 0 {
                r == Err::<(u128, Vec<Instruction>), Error>(Error::NothingToClaim)
            } else if !spec_has_matured(page, now) {
                r == Err::<(u128, Vec<Instruction>), Error>(Error::NothingToClaim)
            } else if spec_matured_total(page, now) > u128::MAX {
                r == Err::<(u128, Vec<Instruction>), Error>(Error::ArithmeticError)
            } else {
                let post = *final(state);
                let amount = spec_matured_total(page, now) as u128;
                let to = (match recipient {
                    Some(rc) => rc,
                    None => *sender,
                });
                let wi = withdrawals_index(pre.withdrawals@, sender@);
                &&& r is Ok
                &&& r->Ok_0.0 == amount
                &&& r->Ok_0.1@ == seq![Instruction::Send { to_address: to, amount }]
                &&& post.wf()
                &&& post.config == pre.config
                &&& post.users == pre.users
                &&& post.delegations == pre.delegations
                &&& post.unbonds == pre.unbonds
                &&& post.withdrawals@.len() == pre.withdrawals@.len()
                &&& (forall|i: int|
                    0 <= i < pre.withdrawals@.len() ==> (#[trigger] post.withdrawals@[i]).address@
                        == pre.withdrawals@[i].address@)
                &&& (forall|i: int|
                    0 <= i < pre.withdrawals@.len() && i != wi
                        ==> (#[trigger] post.withdrawals@[i]).records@
                        == pre.withdrawals@[i].records@)
                &&& post.withdrawals@[wi].records@ == recs.subrange(0, s0) + spec_kept_page(
                    page,
                    now,
                ) + recs.subrange(e0, recs.len() as int)
            }
        }),
{
    if state.config.assert_contract_active().is_err() {
        return Err(Error::NotActive);
    }
    let wi: usize = match find_withdrawals(&state.withdrawals, sender) {
        Some(i) => i,
        None => {
            return Err(Error::NothingToClaim);
        },
    };
    let len: usize = state.withdrawals[wi].records.len();
    if len == 0 {
        return Err(Error::NothingToClaim);
    }
    let start_u: usize = match start {
        Some(v) => v as usize,
        None => 0,
    };
    let limit_u: usize = match limit {
        Some(v) => v as usize,
        None => 50,
    };
    let s0: usize = if start_u < len {
        start_u
    } else {
        len
    };
    let remaining: usize = len - s0;
    let take_n: usize = if limit_u < remaining {
        limit_u
    } else {
        remaining
    };
    let e0: usize = s0 + take_n;
    let ghost recs = state.withdrawals@[wi as int].records@;
    let ghost page = recs.subrange(s0 as int, e0 as int);
    proof {
        assert(recs == spec_records_of(state.withdrawals@, sender@));
    }

    let mut out: Vec<UserWithdrawal> = Vec::new();
    let mut j: usize = 0;
    while j < s0
        invariant
            0 <= j <= s0,
            out@ =~= recs.take(j as int),
        decreases s0 - j,
    {
        out.push(state.withdrawals[wi].records[j]);
        proof {
            assert(out@ =~= recs.take(j + 1));
        }
        j = j + 1;
    }

    let mut total: u128 = 0;
    let mut any: bool = false;
    let mut p: usize = 0;
    while p < take_n
        invariant
            0 <= p <= take_n,
            total == spec_matured_total(page.take(p as int), now),
            any <==> spec_has_matured(page.take(p as int), now),
            out@ == recs.take(s0 as int) + spec_kept_page(page.take(p as int), now),
        decreases take_n - p,
    {
        let rec = state.withdrawals[wi].records[s0 + p];
        proof {
            assert(page[p as int] == recs[s0 + p]);
            lemma_page_take_step(page, p as int, now);
            assert(page.take(p + 1)[p as int] == page[p as int]);
        }
        if rec.claim_time <= now {
            proof {
                lemma_matured_total_prefix_le(page, p + 1, now);
            }
            if rec.amount > u128::MAX - total {
                return Err(Error::ArithmeticError);
            }
            total = total + rec.amount;
            any = true;
        } else {
            out.push(rec);
        }
        p = p + 1;
    }
    proof {
        assert(page.take(take_n as int) =~= page);
    }
    if !any {
        return Err(Error::NothingToClaim);
    }

    let mut j: usize = e0;
    while j < len
        invariant
            e0 <= j <= len,
            out@ == recs.take(s0 as int) + spec_kept_page(page, now) + recs.subrange(
                e0 as int,
                j as int,
            ),
        decreases len - j,
    {
        out.push(state.withdrawals[wi].records[j]);
        proof {
            assert(out@ =~= recs.take(s0 as int) + spec_kept_page(page, now) + recs.subrange(
                e0 as int,
                j + 1,
            ));
        }
        j = j + 1;
    }

    let addr: String = state.withdrawals[wi].address.clone();
    state.withdrawals.set(wi, WithdrawalsEntry { address: addr, records: out });

    let to_address: String = match recipient {
        Some(rc) => rc,
        None => sender.clone(),
    };
    let mut msgs: Vec<Instruction> = Vec::new();
    msgs.push(Instruction::Send { to_address, amount: total });
    Ok((total, msgs))
}

} // verus!
