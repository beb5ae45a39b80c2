//! The deposit operation: funds validation, tier decision, state update.
//!
//! The oracle that converts between the native token and USD is an external
//! collaborator, queried by the host once per operation. The operation is
//! therefore split in two verified halves. `try_deposit_quote` decides from
//! the USD value of the received funds whether the deposit reaches a better
//! tier, and if so which USD amounts have to be priced; the host then asks
//! the oracle for the native equivalents and hands them to
//! `try_deposit_apply`, which performs the state transition and returns the
//! refund and delegate instructions.

use vstd::prelude::*;
use crate::config::{spec_tier_of, Config, ValidatorWithWeight};
use crate::config::{lemma_tier_of_bounds, lemma_tier_of_inverse, lemma_tier_of_monotone};
use crate::config::lemma_tier_of_unique;
use crate::error::Error;
use crate::msg::Instruction;
use crate::state::{
    has_delegation,
    has_user,
    delegation_index,
    spec_delegated_of,
    spec_user_of,
    user_index,
    user_wf,
    DelegatedEntry,
    State,
    UserEntry,
    UserInfo,
};
use crate::state::{find_delegation, find_user};
use vstd::pervasive::VecAdditionalExecFns;

verus! {

/// One fund entry attached to a deposit.
#[derive(Clone, Debug)]
pub struct Coin {
    pub denom: String,
    pub amount: u128,
}

/// A denomination the contract accepts: the native token or one of the
/// allow-listed stable denominations.
pub open spec fn denom_allowed(config: Config, denom: Seq<char>) -> bool {
    ||| denom == "orai"@
    ||| exists|i: int| 0 <= i < config.stable_denom@.len() && config.stable_denom@[i]@ == denom
}

/// Whether `d` occurs in the allow list `denoms`.
fn contains_denom(denoms: &Vec<String>, d: &String) -> (r: bool)
    ensures
        r <==> exists|i: int| 0 <= i < denoms@.len() && denoms@[i]@ == d@,
{
    let n: usize = denoms.len();
    let mut i: usize = 0;
    while i < n
        invariant
            0 <= i <= n,
            n == denoms@.len(),
            forall|j: int| 0 <= j < i ==> denoms@[j]@ != d@,
        decreases n - i,
    {
        if denoms[i].eq(d) {
            return true;
        }
        i = i + 1;
    }
    false
}

/// Validates the funds attached to a deposit: the contract must be active,
/// exactly one entry must be attached, with a non-zero amount and an
/// accepted denomination.
pub fn get_received_funds(config: &Config, funds: &Vec<Coin>) -> (r: Result<Coin, Error>)
    ensures
        ({
            if !(config.status is Active) {
                r == Err::<Coin, Error>(Error::NotActive)
            } else if funds@.len() == 0 {
                r == Err::<Coin, Error>(Error::NoFunds)
            } else if funds@[0].amount == 0 {
                r == Err::<Coin, Error>(Error::ZeroAmount)
            } else if !denom_allowed(*config, funds@[0].denom@) {
                r == Err::<Coin, Error>(Error::UnsupportedToken)
            } else if funds@.len() > 1 {
                r == Err::<Coin, Error>(Error::MultipleFunds)
            } else {
                &&& r is Ok
                &&& r->Ok_0.denom@ == funds@[0].denom@
                &&& r->Ok_0.amount == funds@[0].amount
            }
        }),
{
    if config.assert_contract_active().is_err() {
        return Err(Error::NotActive);
    }
    if funds.len() == 0 {
        return Err(Error::NoFunds);
    }
    if funds[0].amount == 0 {
        return Err(Error::ZeroAmount);
    }
    let orai: String = "orai".to_owned();
    if !funds[0].denom.eq(&orai) {
        if !contains_denom(&config.stable_denom, &funds[0].denom) {
            return Err(Error::UnsupportedToken);
        }
    }
    if funds.len() > 1 {
        return Err(Error::MultipleFunds);
    }
    Ok(Coin { denom: funds[0].denom.clone(), amount: funds[0].amount })
}

/// The decision of a successful deposit: the tier it reaches, that tier's
/// USD threshold, and the USD amount on top of the current deposit that the
/// oracle has to price (threshold minus current USD deposit).
#[derive(Clone, Copy, Debug, PartialEq, Eq, Structural)]
pub struct DepositQuote {
    pub new_tier: u8,
    pub new_tier_deposit: u128,
    pub delta_usd: u128,
}

/// A quote fits the state it will be applied to: it names a real tier
/// strictly better than the sender's current one, with that tier's exact
/// threshold and USD step.
pub open spec fn quote_valid(s: State, sender: Seq<char>, q: DepositQuote) -> bool {
    let u = spec_user_of(s.users@, sender, s.config.spec_min_tier());
    &&& 1 <= q.new_tier < u.tier
    &&& q.new_tier <= s.config.usd_deposits@.len()
    &&& q.new_tier_deposit == s.config.usd_deposits@[q.new_tier - 1]
    &&& q.delta_usd == q.new_tier_deposit - u.usd_deposit
    &&& q.delta_usd > 0
}

/// The tier a well-formed user record earns is its own tier.
pub proof fn lemma_user_tier_fixpoint(c: Config, u: UserInfo)
    requires
        c.deposits_wf(),
        user_wf(c, u),
    ensures
        spec_tier_of(c.usd_deposits@, u.usd_deposit as int) == u.tier,
{
    if u.tier == c.spec_min_tier() {
        assert forall|j: int| 0 <= j < c.usd_deposits@.len() implies c.usd_deposits@[j] > 0 by {
            if j < c.usd_deposits@.len() - 1 {
                assert(c.usd_deposits@[j] > c.usd_deposits@[c.usd_deposits@.len() - 1]);
            }
        }
        lemma_tier_of_unique(c.usd_deposits@, 0, c.usd_deposits@.len() + 1int);
    } else {
        lemma_tier_of_inverse(c.usd_deposits@, u.tier as int);
    }
}

/// Decides what a deposit worth `usd_received` USD does for `user`.
///
/// A deposit that does not reach a better tier fails without touching any
/// state: with `ReachedMaxTier` at the best tier, and otherwise with
/// `InsufficientForNextTier` reporting exactly the missing USD amount.
/// Otherwise the returned quote snaps the deposit to the new tier's
/// threshold; the reached tier is always strictly better than the current
/// one, so a user's tier never regresses.
pub fn try_deposit_quote(config: &Config, user: &UserInfo, usd_received: u128) -> (r: Result<
    DepositQuote,
    Error,
>)
    requires
        config.deposits_wf(),
        user_wf(*config, *user),
    ensures
        ({
            let d = config.usd_deposits@;
            let new_usd = user.usd_deposit + usd_received;
            let new_tier = spec_tier_of(d, new_usd);
            if new_usd > u128::MAX {
                r == Err::<DepositQuote, Error>(Error::ArithmeticError)
            } else if new_tier == user.tier {
                if user.tier == 1 {
                    r == Err::<DepositQuote, Error>(Error::ReachedMaxTier)
                } else {
                    r == Err::<DepositQuote, Error>(
                        Error::InsufficientForNextTier {
                            expected_usd: (d[user.tier - 2] - user.usd_deposit) as u128,
                        },
                    )
                }
            } else {
                &&& r is Ok
                &&& r->Ok_0.new_tier == new_tier
                &&& 1 <= new_tier < user.tier
                &&& new_tier <= d.len()
                &&& r->Ok_0.new_tier_deposit == d[new_tier - 1]
                &&& r->Ok_0.delta_usd == d[new_tier - 1] - user.usd_deposit
                &&& r->Ok_0.delta_usd > 0
            }
        }),
{
    proof {
        lemma_user_tier_fixpoint(*config, *user);
        lemma_tier_of_monotone(
            config.usd_deposits@,
            user.usd_deposit as int,
            user.usd_deposit + usd_received,
        );
        lemma_tier_of_bounds(config.usd_deposits@, user.usd_deposit + usd_received);
    }
    if usd_received > u128::MAX - user.usd_deposit {
        return Err(Error::ArithmeticError);
    }
    let new_usd: u128 = user.usd_deposit + usd_received;
    let new_tier: u8 = config.tier_by_deposit(new_usd);
    if new_tier == user.tier {
        if user.tier == config.max_tier() {
            return Err(Error::ReachedMaxTier);
        }
        let next_tier: u8 = user.tier - 1;
        proof {
            if user.tier != config.spec_min_tier() {
                assert(config.usd_deposits@[user.tier - 2] > config.usd_deposits@[user.tier - 1]);
            }
        }
        let next_tier_deposit: u128 = config.deposit_by_tier(next_tier);
        return Err(
            Error::InsufficientForNextTier { expected_usd: next_tier_deposit - user.usd_deposit },
        );
    }
    proof {
        if user.tier != config.spec_min_tier() {
            assert(config.usd_deposits@[new_tier - 1] > config.usd_deposits@[user.tier - 1]);
        } else {
            if new_tier - 1 < config.usd_deposits@.len() - 1 {
                assert(config.usd_deposits@[new_tier - 1]
                    > config.usd_deposits@[config.usd_deposits@.len() - 1]);
            }
        }
    }
    let new_tier_deposit: u128 = config.deposit_by_tier(new_tier);
    let delta_usd: u128 = new_tier_deposit - user.usd_deposit;
    Ok(DepositQuote { new_tier, new_tier_deposit, delta_usd })
}

/// The delegate instruction for each validator: the raised native amount
/// split by weight, the integer-division dust being lost.
pub open spec fn spec_delegate_msgs(vs: Seq<ValidatorWithWeight>, diff: u128) -> Seq<Instruction> {
    Seq::new(
        vs.len(),
        |i: int|
            Instruction::Delegate {
                validator: vs[i].address,
                amount: ((diff * vs[i].weight) / 100) as u128,
            },
    )
}

/// Applies a deposit decision. `orai_delta` is the oracle's native price of
/// `quote.delta_usd` and `orai_new_total` the native price of the full new
/// threshold `quote.new_tier_deposit`; `orai_received` is what the sender
/// actually attached.
///
/// On success the sender's record is snapped to the new tier, the amount
/// received beyond the priced step is refunded, the sender's total
/// delegation grows by the change in the native deposit, and one delegate
/// instruction per validator splits that change by weight. Any checked
/// arithmetic failure aborts the operation with the state untouched.
#[verifier::loop_isolation(false)]
pub fn try_deposit_apply(
    state: &mut State,
    sender: &String,
    now: u64,
    orai_received: u128,
    quote: DepositQuote,
    orai_delta: u128,
    orai_new_total: u128,
) -> (r: Result<Vec<Instruction>, Error>)
    requires
        old(state).wf(),
        quote_valid(*old(state), sender@, quote),
    ensures
        r is Err ==> *final(state) == *old(state),
        ({
            let pre = *old(state);
            let min_tier = pre.config.spec_min_tier();
            let u = spec_user_of(pre.users@, sender@, min_tier);
            let td_old = spec_delegated_of(pre.delegations@, sender@);
            if !(pre.config.status is Active) {
                r == Err::<Vec<Instruction>, Error>(Error::NotActive)
            } else if orai_received < orai_delta || orai_new_total < u.orai_deposit || td_old
                + orai_new_total > u128::MAX || (exists|i: int|
                0 <= i < pre.config.validators@.len() && (orai_new_total - u.orai_deposit) * (
                #[trigger] pre.config.validators@[i]).weight > u128::MAX) {
                r == Err::<Vec<Instruction>, Error>(Error::ArithmeticError)
            } else {
                let post = *final(state);
                let refund = (orai_received - orai_delta) as u128;
                let diff = (orai_new_total - u.orai_deposit) as u128;
                let new_info = UserInfo {
                    tier: quote.new_tier,
                    timestamp: now,
                    usd_deposit: quote.new_tier_deposit,
                    orai_deposit: orai_new_total,
                };
                let td_new = (td_old + orai_new_total - u.orai_deposit) as u128;
                &&& r is Ok
                &&& post.wf()
                &&& post.config == pre.config
                &&& post.withdrawals == pre.withdrawals
                &&& post.unbonds == pre.unbonds
                &&& (if has_user(pre.users@, sender@) {
                    post.users@ == pre.users@.update(
                        user_index(pre.users@, sender@),
                        (UserEntry {
                            address: pre.users@[user_index(pre.users@, sender@)].address,
                            info: new_info,
                        }),
                    )
                } else {
                    post.users@ == pre.users@.push(
                        (UserEntry { address: *sender, info: new_info }),
                    )
                })
                &&& (if has_delegation(pre.delegations@, sender@) {
                    post.delegations@ == pre.delegations@.update(
                        delegation_index(pre.delegations@, sender@),
                        (DelegatedEntry {
                            address: pre.delegations@[delegation_index(
                                pre.delegations@,
                                sender@,
                            )].address,
                            amount: td_new,
                        }),
                    )
                } else {
                    post.delegations@ == pre.delegations@.push(
                        (DelegatedEntry { address: *sender, amount: td_new }),
                    )
                })
                &&& r->Ok_0@ == (if refund > 0 {
                    seq![Instruction::Send { to_address: *sender, amount: refund }]
                } else {
                    Seq::<Instruction>::empty()
                }) + spec_delegate_msgs(pre.config.validators@, diff)
            }
        }),
{
    if state.config.assert_contract_active().is_err() {
        return Err(Error::NotActive);
    }
    let min_tier: u8 = state.config.min_tier();
    let idx_opt = find_user(&state.users, sender);
    let u: UserInfo = match idx_opt {
        Some(i) => state.users[i].info,
        None => UserInfo { tier: min_tier, timestamp: 0, usd_deposit: 0, orai_deposit: 0 },
    };
    proof {
        assert(u == spec_user_of(state.users@, sender@, state.config.spec_min_tier()));
    }
    if orai_received < orai_delta {
        return Err(Error::ArithmeticError);
    }
    let refund: u128 = orai_received - orai_delta;
    if orai_new_total < u.orai_deposit {
        return Err(Error::ArithmeticError);
    }
    let diff: u128 = orai_new_total - u.orai_deposit;
    let del_opt = find_delegation(&state.delegations, sender);
    let td_old: u128 = match del_opt {
        Some(i) => state.delegations[i].amount,
        None => 0,
    };
    if td_old > u128::MAX - orai_new_total {
        return Err(Error::ArithmeticError);
    }
    let td_new: u128 = td_old + orai_new_total - u.orai_deposit;

    let nv: usize = state.config.validators.len();
    let mut i: usize = 0;
    while i < nv
        invariant
            0 <= i <= nv,
            nv == state.config.validators@.len(),
            diff == orai_new_total - u.orai_deposit,
            forall|j: int|
                0 <= j < i ==> diff * (#[trigger] state.config.validators@[j]).weight <= u128::MAX,
        decreases nv - i,
    {
        if diff.checked_mul(state.config.validators[i].weight).is_none() {
            return Err(Error::ArithmeticError);
        }
        i = i + 1;
    }

    let mut msgs: Vec<Instruction> = Vec::new();
    if refund > 0 {
        msgs.push(Instruction::Send { to_address: sender.clone(), amount: refund });
    }
    let ghost head: Seq<Instruction> = msgs@;
    let ghost dmsgs: Seq<Instruction> = spec_delegate_msgs(state.config.validators@, diff);
    let mut i: usize = 0;
    while i < nv
        invariant
            0 <= i <= nv,
            nv == state.config.validators@.len(),
            diff == orai_new_total - u.orai_deposit,
            forall|j: int|
                0 <= j < nv ==> diff * (#[trigger] state.config.validators@[j]).weight <= u128::MAX,
            dmsgs == spec_delegate_msgs(state.config.validators@, diff),
            msgs@ == head + dmsgs.take(i as int),
        decreases nv - i,
    {
        let w: u128 = state.config.validators[i].weight;
        let amount: u128 = (diff * w) / 100;
        msgs.push(
            Instruction::Delegate { validator: state.config.validators[i].address.clone(), amount },
        );
        proof {
            assert(msgs@ =~= head + dmsgs.take(i + 1));
        }
        i = i + 1;
    }
    proof {
        assert(dmsgs.take(nv as int) =~= dmsgs);
    }

    let new_info = UserInfo {
        tier: quote.new_tier,
        timestamp: now,
        usd_deposit: quote.new_tier_deposit,
        orai_deposit: orai_new_total,
    };
    match idx_opt {
        Some(i) => {
            let addr: String = state.users[i].address.clone();
            state.users.set(i, UserEntry { address: addr, info: new_info });
        },
        None => {
            state.users.push(UserEntry { address: sender.clone(), info: new_info });
        },
    }
    match del_opt {
        Some(i) => {
            let addr: String = state.delegations[i].address.clone();
            state.delegations.set(i, DelegatedEntry { address: addr, amount: td_new });
        },
        None => {
            state.delegations.push(DelegatedEntry { address: sender.clone(), amount: td_new });
        },
    }
    Ok(msgs)
}

} // verus!
