//! The persisted state of the contract, modelled as plain in-memory data.
//!
//! The host keeps this state in its storage between operations; every
//! operation is an atomic transition on one loaded copy of it. The three
//! address-keyed ledgers are association lists with distinct keys, and the
//! unbond queue is a vector whose first element is the queue head.

use vstd::prelude::*;
use crate::config::Config;

verus! {

/// Per-address tier record. `usd_deposit` always equals the threshold of
/// `tier` exactly, never an unrounded running total, and `orai_deposit` is
/// its native-token equivalent as the oracle priced it at the last change.
#[derive(Clone, Copy, Debug, PartialEq, Eq, Structural)]
pub struct UserInfo {
    pub tier: u8,
    pub timestamp: u64,
    pub usd_deposit: u128,
    pub orai_deposit: u128,
}

/// One extracted withdrawal, maturing at `claim_time`. Until batch draining
/// schedules it, `claim_time` holds the sentinel `MAX_UNIX_TIMESTAMP`.
#[derive(Clone, Copy, Debug, PartialEq, Eq, Structural)]
pub struct UserWithdrawal {
    pub amount: u128,
    pub claim_time: u64,
    pub timestamp: u64,
}

/// One pending withdrawal request awaiting batch processing.
#[derive(Clone, Debug)]
pub struct UserUnbond {
    pub address: String,
    pub amount: u128,
    pub timestamp: u64,
}

/// Tier record of one address.
#[derive(Clone, Debug)]
pub struct UserEntry {
    pub address: String,
    pub info: UserInfo,
}

/// Native amount currently attributed to one address over all validators.
#[derive(Clone, Debug)]
pub struct DelegatedEntry {
    pub address: String,
    pub amount: u128,
}

/// The withdrawal ledger of one address.
#[derive(Clone, Debug)]
pub struct WithdrawalsEntry {
    pub address: String,
    pub records: Vec<UserWithdrawal>,
}

/// The whole persisted state.
#[derive(Clone, Debug)]
pub struct State {
    pub config: Config,
    pub users: Vec<UserEntry>,
    pub delegations: Vec<DelegatedEntry>,
    pub withdrawals: Vec<WithdrawalsEntry>,
    pub unbonds: Vec<UserUnbond>,
}

/// The record of an address that never deposited.
pub open spec fn spec_default_user(min_tier: int) -> UserInfo {
    UserInfo { tier: min_tier as u8, timestamp: 0, usd_deposit: 0, orai_deposit: 0 }
}

/// A user record is consistent with the tier table: the default tier holds
/// nothing, and any better tier holds exactly its threshold.
pub open spec fn user_wf(c: Config, u: UserInfo) -> bool {
    if u.tier == c.spec_min_tier() {
        u.usd_deposit == 0 && u.orai_deposit == 0
    } else {
        &&& 1 <= u.tier < c.spec_min_tier()
        &&& u.usd_deposit == c.usd_deposits@[u.tier - 1]
    }
}

pub open spec fn has_user(s: Seq<UserEntry>, a: Seq<char>) -> bool {
    exists|i: int| 0 <= i < s.len() && s[i].address@ == a
}

pub open spec fn user_index(s: Seq<UserEntry>, a: Seq<char>) -> int {
    choose|i: int| 0 <= i < s.len() && s[i].address@ == a
}

pub open spec fn users_unique(s: Seq<UserEntry>) -> bool {
    forall|i: int, j: int| 0 <= i < j < s.len() ==> s[i].address@ != s[j].address@
}

/// The tier record of `a`, or the default record.
pub open spec fn spec_user_of(s: Seq<UserEntry>, a: Seq<char>, min_tier: int) -> UserInfo {
    if has_user(s, a) {
        s[user_index(s, a)].info
    } else {
        spec_default_user(min_tier)
    }
}

pub open spec fn has_delegation(s: Seq<DelegatedEntry>, a: Seq<char>) -> bool {
    exists|i: int| 0 <= i < s.len() && s[i].address@ == a
}

pub open spec fn delegation_index(s: Seq<DelegatedEntry>, a: Seq<char>) -> int {
    choose|i: int| 0 <= i < s.len() && s[i].address@ == a
}

pub open spec fn delegations_unique(s: Seq<DelegatedEntry>) -> bool {
    forall|i: int, j: int| 0 <= i < j < s.len() ==> s[i].address@ != s[j].address@
}

/// The native amount delegated on behalf of `a`, or zero.
pub open spec fn spec_delegated_of(s: Seq<DelegatedEntry>, a: Seq<char>) -> u128 {
    if has_delegation(s, a) {
        s[delegation_index(s, a)].amount
    } else {
        0
    }
}

pub open spec fn has_withdrawals(s: Seq<WithdrawalsEntry>, a: Seq<char>) -> bool {
    exists|i: int| 0 <= i < s.len() && s[i].address@ == a
}

pub open spec fn withdrawals_index(s: Seq<WithdrawalsEntry>, a: Seq<char>) -> int {
    choose|i: int| 0 <= i < s.len() && s[i].address@ == a
}

pub open spec fn withdrawals_unique(s: Seq<WithdrawalsEntry>) -> bool {
    forall|i: int, j: int| 0 <= i < j < s.len() ==> s[i].address@ != s[j].address@
}

/// The withdrawal records of `a`, oldest first, or the empty ledger.
pub open spec fn spec_records_of(s: Seq<WithdrawalsEntry>, a: Seq<char>) -> Seq<UserWithdrawal> {
    if has_withdrawals(s, a) {
        s[withdrawals_index(s, a)].records@
    } else {
        Seq::empty()
    }
}

/// Sum of all ledger-recorded delegations, unaffected by slashing.
pub open spec fn spec_total_staked(s: Seq<DelegatedEntry>) -> int
    decreases s.len(),
{
    if s.len() == 0 {
        0
    } else {
        spec_total_staked(s.drop_last()) + s.last().amount
    }
}

/// Sum of the amounts queued for unbonding.
pub open spec fn spec_queue_total(q: Seq<UserUnbond>) -> int
    decreases q.len(),
{
    if q.len() == 0 {
        0
    } else {
        spec_queue_total(q.drop_last()) + q.last().amount
    }
}

impl State {
    /// Well-formedness: the configuration invariants hold, every ledger has
    /// distinct keys, and every user record matches the tier table.
    pub open spec fn wf(&self) -> bool {
        &&& self.config.wf()
        &&& users_unique(self.users@)
        &&& delegations_unique(self.delegations@)
        &&& withdrawals_unique(self.withdrawals@)
        &&& forall|i: int|
            0 <= i < self.users@.len() ==> user_wf(self.config, #[trigger] self.users@[i].info)
    }
}

/// Index of the entry of `addr` in the user ledger, if any.
pub fn find_user(s: &Vec<UserEntry>, addr: &String) -> (r: Option<usize>)
    requires
        users_unique(s@),
    ensures
        match r {
            Some(i) => has_user(s@, addr@) && i == user_index(s@, addr@) && i < s@.len(),
            None => !has_user(s@, addr@),
        },
{
    let n: usize = s.len();
    let mut i: usize = 0;
    while i < n
        invariant
            0 <= i <= n,
            n == s@.len(),
            users_unique(s@),
            forall|j: int| 0 <= j < i ==> s@[j].address@ != addr@,
        decreases n - i,
    {
        if s[i].address.eq(addr) {
            proof {
                assert(has_user(s@, addr@));
                let k = user_index(s@, addr@);
                if k != i {
                    assert(s@[k].address@ != s@[i as int].address@);
                }
            }
            return Some(i);
        }
        i = i + 1;
    }
    None
}

/// Index of the entry of `addr` in the delegation ledger, if any.
pub fn find_delegation(s: &Vec<DelegatedEntry>, addr: &String) -> (r: Option<usize>)
    requires
        delegations_unique(s@),
    ensures
        match r {
            Some(i) => has_delegation(s@, addr@) && i == delegation_index(s@, addr@) && i
                < s@.len(),
            None => !has_delegation(s@, addr@),
        },
{
    let n: usize = s.len();
    let mut i: usize = 0;
    while i < n
        invariant
            0 <= i <= n,
            n == s@.len(),
            delegations_unique(s@),
            forall|j: int| 0 <= j < i ==> s@[j].address@ != addr@,
        decreases n - i,
    {
        if s[i].address.eq(addr) {
            proof {
                assert(has_delegation(s@, addr@));
                let k = delegation_index(s@, addr@);
                if k != i {
                    assert(s@[k].address@ != s@[i as int].address@);
                }
            }
            return Some(i);
        }
        i = i + 1;
    }
    None
}

/// Index of the entry of `addr` in the withdrawal ledger, if any.
pub fn find_withdrawals(s: &Vec<WithdrawalsEntry>, addr: &String) -> (r: Option<usize>)
    requires
        withdrawals_unique(s@),
    ensures
        match r {
            Some(i) => has_withdrawals(s@, addr@) && i == withdrawals_index(s@, addr@) && i
                < s@.len(),
            None => !has_withdrawals(s@, addr@),
        },
{
    let n: usize = s.len();
    let mut i: usize = 0;
    while i < n
        invariant
            0 <= i <= n,
            n == s@.len(),
            withdrawals_unique(s@),
            forall|j: int| 0 <= j < i ==> s@[j].address@ != addr@,
        decreases n - i,
    {
        if s[i].address.eq(addr) {
            proof {
                assert(has_withdrawals(s@, addr@));
                let k = withdrawals_index(s@, addr@);
                if k != i {
                    assert(s@[k].address@ != s@[i as int].address@);
                }
            }
            return Some(i);
        }
        i = i + 1;
    }
    None
}

} // verus!
