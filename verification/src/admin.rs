//! Instantiation and the admin-only configuration operations.

use vstd::prelude::*;
use crate::config::{
    spec_sum_weights,
    Config,
    ContractStatus,
    OraiswapContract,
    ValidatorWithWeight,
};
use crate::error::Error;
use crate::state::State;

verus! {

/// The tier thresholds are strictly decreasing and positive.
pub open spec fn deposits_sorted(d: Seq<u128>) -> bool {
    &&& forall|i: int| 0 <= i && i + 1 < d.len() ==> #[trigger] d[i] > d[i + 1]
    &&& d.len() > 0 ==> d[d.len() - 1] > 0
}

/// No validator address occurs twice.
pub open spec fn validators_distinct(vs: Seq<ValidatorWithWeight>) -> bool {
    forall|i: int, j: int| 0 <= i < j < vs.len() ==> vs[i].address@ != vs[j].address@
}

/// Strict descent of neighbours gives strict descent of any pair.
proof fn lemma_desc_pair(d: Seq<u128>, i: int, j: int)
    requires
        forall|k: int| 0 <= k && k + 1 < d.len() ==> #[trigger] d[k] > d[k + 1],
        0 <= i < j < d.len(),
    ensures
        d[i] > d[j],
    decreases j - i,
{
    if j > i + 1 {
        lemma_desc_pair(d, i, j - 1);
    }
}

/// Validates the initial configuration and returns it with status `Active`.
/// The thresholds must be non-empty, strictly decreasing, positive and few
/// enough for `u8` tier numbers; the validators must be distinct and their
/// weights must sum to exactly one hundred.
#[verifier::loop_isolation(false)]
#[verifier::rlimit(60)]
pub fn instantiate(
    admin: Option<String>,
    validators: Vec<ValidatorWithWeight>,
    deposits: Vec<u128>,
    oraiswap_contract: OraiswapContract,
    stable_denom: Option<Vec<String>>,
) -> (r: Result<Config, Error>)
    ensures
        ({
            if deposits@.len() == 0 {
                r == Err::<Config, Error>(Error::EmptyDeposits)
            } else if !deposits_sorted(deposits@) {
                r == Err::<Config, Error>(Error::UnsortedDeposits)
            } else if deposits@.len() + 1 > u8::MAX {
                r == Err::<Config, Error>(Error::TooManyTiers)
            } else if spec_sum_weights(validators@) != 100 {
                r == Err::<Config, Error>(Error::InvalidWeightTotal)
            } else if !validators_distinct(validators@) {
                r == Err::<Config, Error>(Error::DuplicatedValidator)
            } else {
                &&& r is Ok
                &&& r->Ok_0.wf()
                &&& r->Ok_0.status is Active
                &&& (match admin {
                    Some(a) => r->Ok_0.admin@ == a@,
                    None => r->Ok_0.admin@ == Seq::<char>::empty(),
                })
                &&& r->Ok_0.validators@ == validators@
                &&& r->Ok_0.usd_deposits@ == deposits@
                &&& (match stable_denom {
                    Some(d) => r->Ok_0.stable_denom@ == d@,
                    None => r->Ok_0.stable_denom@ == Seq::<String>::empty(),
                })
            }
        }),
{
    let n: usize = deposits.len();
    if n == 0 {
        return Err(Error::EmptyDeposits);
    }
    let mut i: usize = 0;
    while i + 1 < n
        invariant
            0 <= i < n,
            n == deposits@.len(),
            forall|k: int| 0 <= k && k + 1 <= i ==> #[trigger] deposits@[k] > deposits@[k + 1],
        decreases n - i,
    {
        if deposits[i] <= deposits[i + 1] {
            return Err(Error::UnsortedDeposits);
        }
        i = i + 1;
    }
    if deposits[n - 1] == 0 {
        return Err(Error::UnsortedDeposits);
    }
    if n >= u8::MAX as usize {
        return Err(Error::TooManyTiers);
    }

    let vn: usize = validators.len();
    let mut total_weight: u128 = 0;
    let mut v: usize = 0;
    while v < vn
        invariant
            0 <= v <= vn,
            vn == validators@.len(),
            total_weight == spec_sum_weights(validators@.take(v as int)),
        decreases vn - v,
    {
        let w: u128 = validators[v].weight;
        proof {
            assert(validators@.take(v + 1).drop_last() =~= validators@.take(v as int));
            assert(validators@.take(v + 1).last() == validators@[v as int]);
        }
        if w > u128::MAX - total_weight {
            proof {
                crate::config::lemma_sum_weights_nonneg(validators@.take(v as int));
                lemma_sum_weights_ge_prefix(validators@, v + 1);
            }
            return Err(Error::InvalidWeightTotal);
        }
        total_weight = total_weight + w;
        v = v + 1;
    }
    proof {
        assert(validators@.take(vn as int) =~= validators@);
    }
    if total_weight != 100 {
        return Err(Error::InvalidWeightTotal);
    }

    let mut a: usize = 0;
    while a < vn
        invariant
            0 <= a <= vn,
            vn == validators@.len(),
            forall|k: int, j: int| 0 <= k < j < vn && k < a ==> validators@[k].address@
                != validators@[j].address@,
        decreases vn - a,
    {
        let mut b: usize = a + 1;
        while b < vn
            invariant
                a < b <= vn,
                vn == validators@.len(),
                forall|j: int| a < j < b ==> validators@[a as int].address@
                    != validators@[j].address@,
            decreases vn - b,
        {
            if validators[a].address.eq(&validators[b].address) {
                return Err(Error::DuplicatedValidator);
            }
            b = b + 1;
        }
        a = a + 1;
    }

    let admin_addr: String = match admin {
        Some(s) => s,
        None => String::new(),
    };
    let denoms: Vec<String> = match stable_denom {
        Some(d) => d,
        None => Vec::new(),
    };
    let config = Config {
        admin: admin_addr,
        validators,
        status: ContractStatus::Active,
        usd_deposits: deposits,
        oraiswap_contract,
        stable_denom: denoms,
    };
    proof {
        assert forall|k: int, j: int|
            0 <= k < j < config.usd_deposits@.len() implies config.usd_deposits@[k]
            > config.usd_deposits@[j] by {
            lemma_desc_pair(config.usd_deposits@, k, j);
        }
    }
    Ok(config)
}

/// A partial weight sum never exceeds the whole sum.
proof fn lemma_sum_weights_ge_prefix(vs: Seq<ValidatorWithWeight>, k: int)
    requires
        0 <= k <= vs.len(),
    ensures
        spec_sum_weights(vs.take(k)) <= spec_sum_weights(vs),
    decreases vs.len() - k,
{
    if k < vs.len() {
        assert(vs.take(k + 1).drop_last() =~= vs.take(k));
        assert(vs.take(k + 1).last() == vs[k]);
        lemma_sum_weights_ge_prefix(vs, k + 1);
    } else {
        assert(vs.take(k) =~= vs);
    }
}

/// The fresh state right after instantiation: the configuration and four
/// empty ledgers.
pub fn initial_state(config: Config) -> (s: State)
    requires
        config.wf(),
    ensures
        s.wf(),
        s.config == config,
        s.users@ =~= Seq::<crate::state::UserEntry>::empty(),
        s.delegations@ =~= Seq::<crate::state::DelegatedEntry>::empty(),
        s.withdrawals@ =~= Seq::<crate::state::WithdrawalsEntry>::empty(),
        s.unbonds@ =~= Seq::<crate::state::UserUnbond>::empty(),
{
    State {
        config,
        users: Vec::new(),
        delegations: Vec::new(),
        withdrawals: Vec::new(),
        unbonds: Vec::new(),
    }
}

/// Replaces the admin address. Only the current admin may do this.
pub fn try_change_admin(config: &mut Config, sender: &String, new_admin: String) -> (r: Result<
    (),
    Error,
>)
    ensures
        sender@ != old(config).admin@ ==> r == Err::<(), Error>(Error::Unauthorized)
            && *final(config) == *old(config),
        sender@ == old(config).admin@ ==> r is Ok && *final(config) == (Config {
            admin: new_admin,
            ..*old(config)
        }),
{
    if !sender.eq(&config.admin) {
        return Err(Error::Unauthorized);
    }
    config.admin = new_admin;
    Ok(())
}

/// Switches the contract between `Active` and `Stopped`. Only the admin may
/// do this, and only to a different value than the current one.
pub fn try_change_status(config: &mut Config, sender: &String, status: ContractStatus) -> (r:
    Result<(), Error>)
    ensures
        sender@ != old(config).admin@ ==> r == Err::<(), Error>(Error::Unauthorized)
            && *final(config) == *old(config),
        sender@ == old(config).admin@ && status == old(config).status
            ==> r == Err::<(), Error>(Error::SameStatus) && *final(config) == *old(config),
        sender@ == old(config).admin@ && status != old(config).status ==> r is Ok && *final(config)
            == (Config { status, ..*old(config) }),
{
    if !sender.eq(&config.admin) {
        return Err(Error::Unauthorized);
    }
    if status == config.status {
        return Err(Error::SameStatus);
    }
    config.status = status;
    Ok(())
}

/// Replaces the pair of oraiswap collaborator contracts. Only the admin may
/// do this, and only with a pair that differs from the current one.
pub fn try_change_oraiswap(
    config: &mut Config,
    sender: &String,
    oraiswap_router_contract: String,
    usdt_contract: String,
) -> (r: Result<(), Error>)
    ensures
        sender@ != old(config).admin@ ==> r == Err::<(), Error>(Error::Unauthorized)
            && *final(config) == *old(config),
        ({
            let same = old(config).oraiswap_contract.orai_swap_router_contract@
                == oraiswap_router_contract@ && old(config).oraiswap_contract.usdt_contract@
                == usdt_contract@;
            &&& sender@ == old(config).admin@ && same ==> r == Err::<(), Error>(Error::SameOraiswap)
                && *final(config) == *old(config)
            &&& sender@ == old(config).admin@ && !same ==> r is Ok && *final(config) == (Config {
                oraiswap_contract: OraiswapContract {
                    orai_swap_router_contract: oraiswap_router_contract,
                    usdt_contract,
                },
                ..*old(config)
            })
        }),
{
    if !sender.eq(&config.admin) {
        return Err(Error::Unauthorized);
    }
    if config.oraiswap_contract.orai_swap_router_contract.eq(&oraiswap_router_contract)
        && config.oraiswap_contract.usdt_contract.eq(&usdt_contract) {
        return Err(Error::SameOraiswap);
    }
    config.oraiswap_contract = OraiswapContract {
        orai_swap_router_contract: oraiswap_router_contract,
        usdt_contract,
    };
    Ok(())
}

} // verus!
