//! The admin reward-withdrawal operation.
//!
//! It sets the reward withdrawal address and asks every configured
//! validator for its accumulated staking rewards; the per-validator reward
//! amounts that the chain reports come in as plain optional values, purely
//! for reporting the total.

use vstd::prelude::*;
use crate::config::ValidatorWithWeight;
use crate::error::Error;
use crate::msg::Instruction;
use crate::state::State;
use crate::withdraw::spec_bonded_scan;

verus! {

/// The reward-withdraw instruction for each validator, in table order.
pub open spec fn spec_reward_msgs(vs: Seq<ValidatorWithWeight>) -> Seq<Instruction> {
    Seq::new(vs.len(), |i: int| Instruction::WithdrawReward { validator: vs[i].address })
}

/// Harvests the staking rewards of every configured validator. Admin only.
///
/// `rewards` holds, per configured validator in order, the reward amount
/// the chain reports, or `None` when the validator reports no delegation,
/// which aborts the operation. The instructions set the withdrawal address
/// to the recipient (the admin by default) and then withdraw from every
/// validator; the summed reported reward is returned, and a zero sum is an
/// error, not a silent success.
#[verifier::loop_isolation(false)]
pub fn try_withdraw_rewards(
    state: &State,
    sender: &String,
    recipient: Option<String>,
    rewards: &Vec<Option<u128>>,
) -> (r: Result<(u128, Vec<Instruction>), Error>)
    requires
        state.wf(),
        rewards@.len() == state.config.validators@.len(),
    ensures
        ({
            let scan = spec_bonded_scan(rewards@);
            let to = (match recipient {
                Some(rc) => rc,
                None => state.config.admin,
            });
            if sender@ != state.config.admin@ {
                r == Err::<(u128, Vec<Instruction>), Error>(Error::Unauthorized)
            } else if scan is Err {
                r == Err::<(u128, Vec<Instruction>), Error>(scan->Err_0)
            } else if scan->Ok_0 == 0 {
                r == Err::<(u128, Vec<Instruction>), Error>(Error::NothingToWithdraw)
            } else {
                &&& r is Ok
                &&& r->Ok_0.0 == scan->Ok_0
                &&& r->Ok_0.1@ == seq![Instruction::SetWithdrawAddress { address: to }]
                    + spec_reward_msgs(state.config.validators@)
            }
        }),
{
    if !sender.eq(&state.config.admin) {
        return Err(Error::Unauthorized);
    }
    let to_address: String = match recipient {
        Some(rc) => rc,
        None => state.config.admin.clone(),
    };
    let mut msgs: Vec<Instruction> = Vec::new();
    msgs.push(Instruction::SetWithdrawAddress { address: to_address });
    let ghost head = msgs@;
    let ghost rmsgs = spec_reward_msgs(state.config.validators@);

    let nv: usize = rewards.len();
    let mut total: u128 = 0;
    let mut i: usize = 0;
    while i < nv
        invariant
            0 <= i <= nv,
            spec_bonded_scan(rewards@.take(i as int)) == Ok::<int, Error>(total as int),
            msgs@ == head + rmsgs.take(i as int),
        decreases nv - i,
    {
        proof {
            assert(rewards@.take(i + 1).drop_last() =~= rewards@.take(i as int));
        }
        match rewards[i] {
            None => {
                proof {
                    lemma_reward_scan_err_extends(rewards@, i + 1);
                }
                return Err(Error::MissingDelegation);
            },
            Some(x) => {
                if x > u128::MAX - total {
                    proof {
                        lemma_reward_scan_err_extends(rewards@, i + 1);
                    }
                    return Err(Error::ArithmeticError);
                }
                total = total + x;
            },
        }
        msgs.push(
            Instruction::WithdrawReward { validator: state.config.validators[i].address.clone() },
        );
        proof {
            assert(msgs@ =~= head + rmsgs.take(i + 1));
        }
        i = i + 1;
    }
    proof {
        assert(rewards@.take(nv as int) =~= rewards@);
        assert(rmsgs.take(nv as int) =~= rmsgs);
    }
    if total == 0 {
        return Err(Error::NothingToWithdraw);
    }
    Ok((total, msgs))
}

/// A scan error in a prefix is the error of the whole scan.
proof fn lemma_reward_scan_err_extends(b: Seq<Option<u128>>, k: int)
    requires
        0 <= k <= b.len(),
        spec_bonded_scan(b.take(k)) is Err,
    ensures
        spec_bonded_scan(b) == spec_bonded_scan(b.take(k)),
    decreases b.len() - k,
{
    if k < b.len() {
        assert(b.take(k + 1).drop_last() =~= b.take(k));
        lemma_reward_scan_err_extends(b, k + 1);
    } else {
        assert(b.take(k) =~= b);
    }
}

} // verus!
