//! The read-only queries: they report state and never mutate it.

use vstd::prelude::*;
use crate::queue::copy_unbonds;
use crate::state::{
    find_user,
    find_delegation,
    find_withdrawals,
    spec_delegated_of,
    spec_records_of,
    spec_user_of,
    State,
    UserInfo,
    UserUnbond,
    UserWithdrawal,
};

verus! {

/// The tier record of an address, or the default record (the worst tier,
/// nothing deposited) when the address never deposited.
pub fn query_user_info(state: &State, address: &String) -> (r: UserInfo)
    requires
        state.wf(),
    ensures
        r == spec_user_of(state.users@, address@, state.config.spec_min_tier()),
{
    let min_tier: u8 = state.config.min_tier();
    match find_user(&state.users, address) {
        Some(i) => state.users[i].info,
        None => UserInfo { tier: min_tier, timestamp: 0, usd_deposit: 0, orai_deposit: 0 },
    }
}

/// The native amount currently attributed to an address, or zero.
pub fn query_user_total_delegated(state: &State, address: &String) -> (r: u128)
    requires
        state.wf(),
    ensures
        r == spec_delegated_of(state.delegations@, address@),
{
    match find_delegation(&state.delegations, address) {
        Some(i) => state.delegations[i].amount,
        None => 0,
    }
}

/// One page of an address's withdrawal records together with the total
/// record count: `records[start .. start + limit]` bounded by the ledger
/// length, `start` defaulting to 0 and `limit` to 50.
pub fn query_withdrawals(
    state: &State,
    address: &String,
    start: Option<u32>,
    limit: Option<u32>,
) -> (r: (u32, Vec<UserWithdrawal>))
    requires
        state.wf(),
        spec_records_of(state.withdrawals@, address@).len() <= u32::MAX,
    ensures
        ({
            let recs = spec_records_of(state.withdrawals@, address@);
            let start_n = (match start {
                Some(v) => v as int,
                None => 0,
            });
            let limit_n = (match limit {
                Some(v) => v as int,
                None => 50,
            });
            let s0 = if start_n < recs.len() {
                start_n
            } else {
                recs.len() as int
            };
            let e0 = if start_n + limit_n < recs.len() {
                start_n + limit_n
            } else {
                recs.len() as int
            };
            r.0 == recs.len() && r.1@ == recs.subrange(s0, e0)
        }),
{
    let wi = find_withdrawals(&state.withdrawals, address);
    match wi {
        None => {
            let page: Vec<UserWithdrawal> = Vec::new();
            proof {
                assert(page@ =~= spec_records_of(state.withdrawals@, address@).subrange(0, 0));
            }
            (0, page)
        },
        Some(i) => {
            let len: usize = state.withdrawals[i].records.len();
            let start_u: usize = match start {
                Some(v) => v as usize,
                None => 0,
            };
            let limit_u: usize = match limit {
                Some(v) => v as usize,
                None => 50,
            };
            let s0: usize = if start_u < len {
                start_u
            } else {
                len
            };
            let remaining: usize = len - s0;
            let take_n: usize = if limit_u < remaining {
                limit_u
            } else {
                remaining
            };
            let e0: usize = s0 + take_n;
            let ghost recs = state.withdrawals@[i as int].records@;
            let mut page: Vec<UserWithdrawal> = Vec::new();
            let mut j: usize = s0;
            while j < e0
                invariant
                    s0 <= j <= e0 <= len,
                    i < state.withdrawals@.len(),
                    len == recs.len(),
                    recs == state.withdrawals@[i as int].records@,
                    page@ =~= recs.subrange(s0 as int, j as int),
                decreases e0 - j,
            {
                page.push(state.withdrawals[i].records[j]);
                proof {
                    assert(page@ =~= recs.subrange(s0 as int, j + 1));
                }
                j = j + 1;
            }
            (len as u32, page)
        },
    }
}

/// The whole unbond queue, head first, together with its length.
pub fn query_unbonds(state: &State) -> (r: (u32, Vec<UserUnbond>))
    requires
        state.wf(),
        state.unbonds@.len() <= u32::MAX,
    ensures
        r.0 == state.unbonds@.len(),
        r.1@ == state.unbonds@,
{
    let list = copy_unbonds(&state.unbonds);
    (state.unbonds.len() as u32, list)
}

} // verus!
