//! The admin redelegation operation: moving stake and weight from one
//! validator to another.
//!
//! The chain query for the old validator's current delegation (bonded
//! amount, redelegatable amount, accumulated reward) is the host's; its
//! result comes in as a plain optional value. With no delegation found the
//! operation is a pure weight-table edit; otherwise it also emits the
//! reward-withdraw and redelegate instructions.

use vstd::prelude::*;
use crate::config::{
    has_validator,
    lemma_sum_weights_push,
    lemma_sum_weights_remove,
    lemma_sum_weights_update,
    lemma_weight_le_sum,
    find_validator,
    spec_sum_weights,
    validator_index,
    ValidatorWithWeight,
};
use crate::error::Error;
use crate::math::lemma_ratio_le;
use crate::msg::Instruction;
use crate::state::State;
use vstd::arithmetic::div_mod::lemma_div_by_multiple;
use vstd::pervasive::VecAdditionalExecFns;

verus! {

/// The delegation the chain reports for the old validator.
#[derive(Clone, Copy, Debug, PartialEq, Eq, Structural)]
pub struct DelegationInfo {
    pub amount: u128,
    pub can_redelegate: u128,
    pub accumulated_reward: u128,
}

/// The weight table after moving `ratio` percent of the old validator's
/// weight to the new one: the share is added to the new validator's entry,
/// or appended as a new entry, and subtracted from the old one, whose entry
/// disappears entirely when the whole weight moves.
pub open spec fn spec_weight_edit(
    vs: Seq<ValidatorWithWeight>,
    old_v: Seq<char>,
    new_validator: String,
    ratio: u128,
) -> Seq<ValidatorWithWeight> {
    let op = validator_index(vs, old_v);
    let cw = ((vs[op].weight * ratio) / 100) as u128;
    let v1 = if has_validator(vs, new_validator@) {
        let np = validator_index(vs, new_validator@);
        vs.update(
            np,
            ValidatorWithWeight {
                address: vs[np].address,
                weight: (vs[np].weight + cw) as u128,
            },
        ).update(
            op,
            ValidatorWithWeight {
                address: vs[op].address,
                weight: (vs[op].weight - cw) as u128,
            },
        )
    } else {
        vs.update(
            op,
            ValidatorWithWeight {
                address: vs[op].address,
                weight: (vs[op].weight - cw) as u128,
            },
        ).push(ValidatorWithWeight { address: new_validator, weight: cw })
    };
    if ratio == 100 {
        v1.remove(op)
    } else {
        v1
    }
}

/// Weight conservation: a successful redelegation never changes the total
/// weight, so it stays at exactly one hundred.
pub proof fn lemma_weight_edit_sum(
    vs: Seq<ValidatorWithWeight>,
    old_v: Seq<char>,
    new_validator: String,
    ratio: u128,
)
    requires
        has_validator(vs, old_v),
        old_v != new_validator@,
        1 <= ratio <= 100,
        spec_sum_weights(vs) == 100,
        forall|i: int, j: int| 0 <= i < j < vs.len() ==> vs[i].address@ != vs[j].address@,
    ensures
        spec_sum_weights(spec_weight_edit(vs, old_v, new_validator, ratio)) == spec_sum_weights(
            vs,
        ),
{
    let op = validator_index(vs, old_v);
    let cw = ((vs[op].weight * ratio) / 100) as u128;
    lemma_weight_le_sum(vs, op);
    crate::config::lemma_sum_weights_nonneg(vs);
    lemma_ratio_le(vs[op].weight as int, ratio as int, 100);
    if has_validator(vs, new_validator@) {
        let np = validator_index(vs, new_validator@);
        assert(vs[np].address@ == new_validator@);
        assert(vs[op].address@ == old_v);
        assert(np != op);
        lemma_weight_le_sum(vs, np);
        let w1 = vs.update(
            np,
            ValidatorWithWeight {
                address: vs[np].address,
                weight: (vs[np].weight + cw) as u128,
            },
        );
        lemma_sum_weights_update(
            vs,
            np,
            ValidatorWithWeight {
                address: vs[np].address,
                weight: (vs[np].weight + cw) as u128,
            },
        );
        lemma_sum_weights_update(
            w1,
            op,
            ValidatorWithWeight {
                address: vs[op].address,
                weight: (vs[op].weight - cw) as u128,
            },
        );
        if ratio == 100 {
            let v1 = w1.update(
                op,
                ValidatorWithWeight {
                    address: vs[op].address,
                    weight: (vs[op].weight - cw) as u128,
                },
            );
            lemma_div_by_multiple(vs[op].weight as int, 100);
            assert(vs[op].weight * 100 == (vs[op].weight as int) * 100);
            assert(cw == vs[op].weight);
            lemma_sum_weights_remove(v1, op);
        }
    } else {
        let w1 = vs.update(
            op,
            ValidatorWithWeight {
                address: vs[op].address,
                weight: (vs[op].weight - cw) as u128,
            },
        );
        lemma_sum_weights_update(
            vs,
            op,
            ValidatorWithWeight {
                address: vs[op].address,
                weight: (vs[op].weight - cw) as u128,
            },
        );
        lemma_sum_weights_push(w1, ValidatorWithWeight { address: new_validator, weight: cw });
        if ratio == 100 {
            let v1 = w1.push(ValidatorWithWeight { address: new_validator, weight: cw });
            lemma_div_by_multiple(vs[op].weight as int, 100);
            assert(cw == vs[op].weight);
            lemma_sum_weights_remove(v1, op);
        }
    }
}

/// Moving the whole weight removes the old validator from the table.
pub proof fn lemma_weight_edit_removes_old(
    vs: Seq<ValidatorWithWeight>,
    old_v: Seq<char>,
    new_validator: String,
)
    requires
        has_validator(vs, old_v),
        old_v != new_validator@,
        forall|i: int, j: int| 0 <= i < j < vs.len() ==> vs[i].address@ != vs[j].address@,
    ensures
        !has_validator(spec_weight_edit(vs, old_v, new_validator, 100), old_v),
{
    let op = validator_index(vs, old_v);
    assert(vs[op].address@ == old_v);
    let result = spec_weight_edit(vs, old_v, new_validator, 100);
    assert forall|i: int| 0 <= i < result.len() implies result[i].address@ != old_v by {
        if has_validator(vs, new_validator@) {
            if i < op {
                assert(result[i].address@ == vs[i].address@);
                if i != op {
                    assert(vs[i].address@ != vs[op].address@);
                }
            } else {
                assert(result[i].address@ == vs[i + 1].address@);
            }
        } else {
            if i < op {
                assert(result[i].address@ == vs[i].address@);
            } else if i < vs.len() - 1 {
                assert(result[i].address@ == vs[i + 1].address@);
            } else {
                assert(result[i].address@ == new_validator@);
            }
        }
    }
}

/// The edited table still names every validator once.
pub proof fn lemma_weight_edit_distinct(
    vs: Seq<ValidatorWithWeight>,
    old_v: Seq<char>,
    new_validator: String,
    ratio: u128,
)
    requires
        has_validator(vs, old_v),
        old_v != new_validator@,
        forall|i: int, j: int| 0 <= i < j < vs.len() ==> vs[i].address@ != vs[j].address@,
    ensures
        ({
            let r = spec_weight_edit(vs, old_v, new_validator, ratio);
            forall|i: int, j: int| 0 <= i < j < r.len() ==> r[i].address@ != r[j].address@
        }),
{
    let op = validator_index(vs, old_v);
    let cw = ((vs[op].weight * ratio) / 100) as u128;
    let r = spec_weight_edit(vs, old_v, new_validator, ratio);
    if has_validator(vs, new_validator@) {
        let v1 = vs.update(
            validator_index(vs, new_validator@),
            ValidatorWithWeight {
                address: vs[validator_index(vs, new_validator@)].address,
                weight: (vs[validator_index(vs, new_validator@)].weight + cw) as u128,
            },
        ).update(
            op,
            ValidatorWithWeight {
                address: vs[op].address,
                weight: (vs[op].weight - cw) as u128,
            },
        );
        assert(forall|i: int| 0 <= i < v1.len() ==> (#[trigger] v1[i]).address@
            == vs[i].address@);
        if ratio == 100 {
            assert forall|i: int, j: int| 0 <= i < j < r.len() implies r[i].address@
                != r[j].address@ by {
                let i1 = if i < op {
                    i
                } else {
                    i + 1
                };
                let j1 = if j < op {
                    j
                } else {
                    j + 1
                };
                assert(r[i].address@ == vs[i1].address@);
                assert(r[j].address@ == vs[j1].address@);
            }
        }
    } else {
        let v1 = vs.update(
            op,
            ValidatorWithWeight {
                address: vs[op].address,
                weight: (vs[op].weight - cw) as u128,
            },
        ).push(ValidatorWithWeight { address: new_validator, weight: cw });
        assert(forall|i: int| 0 <= i < vs.len() ==> (#[trigger] v1[i]).address@
            == vs[i].address@);
        assert(v1[vs.len() as int].address@ == new_validator@);
        assert(forall|i: int| 0 <= i < vs.len() ==> (#[trigger] vs[i]).address@
            != new_validator@);
        if ratio == 100 {
            assert forall|i: int, j: int| 0 <= i < j < r.len() implies r[i].address@
                != r[j].address@ by {
                let i1 = if i < op {
                    i
                } else {
                    i + 1
                };
                let j1 = if j < op {
                    j
                } else {
                    j + 1
                };
                assert(r[i].address@ == v1[i1].address@);
                assert(r[j].address@ == v1[j1].address@);
            }
        }
    }
}

/// Moves `delegate_ratio` percent of the old validator's stake and weight
/// to the new validator. Admin only.
///
/// With no delegation reported the operation only edits the weight table
/// and reports a zero amount. Otherwise the chain must allow redelegating
/// the requested share, the old validator's pending reward (when non-zero)
/// is withdrawn first, and a redelegate instruction moves
/// `can_redelegate * ratio / 100`. The total weight stays exactly one
/// hundred, and moving the whole weight removes the old validator from the
/// table. On any error the state is untouched.
#[verifier::loop_isolation(false)]
#[verifier::rlimit(100)]
pub fn try_redelegate(
    state: &mut State,
    sender: &String,
    new_validator_address: String,
    old_validator_address: String,
    delegate_ratio: u128,
    _recipient: Option<String>,
    delegation: Option<DelegationInfo>,
) -> (r: Result<(u128, Vec<Instruction>), Error>)
    requires
        old(state).wf(),
    ensures
        r is Err ==> *final(state) == *old(state),
        ({
            let pre = *old(state);
            let vs = pre.config.validators@;
            if sender@ != pre.config.admin@ {
                r == Err::<(u128, Vec<Instruction>), Error>(Error::Unauthorized)
            } else if !has_validator(vs, old_validator_address@) {
                r == Err::<(u128, Vec<Instruction>), Error>(Error::ValidatorNotFound)
            } else if delegate_ratio > 100 || delegate_ratio == 0 {
                r == Err::<(u128, Vec<Instruction>), Error>(Error::InvalidRatio)
            } else if old_validator_address@ == new_validator_address@ {
                r == Err::<(u128, Vec<Instruction>), Error>(Error::SameValidator)
            } else {
                let post = *final(state);
                let edited = spec_weight_edit(
                    vs,
                    old_validator_address@,
                    new_validator_address,
                    delegate_ratio,
                );
                match delegation {
                    None => {
                        &&& r is Ok
                        &&& r->Ok_0.0 == 0
                        &&& r->Ok_0.1@ == Seq::<Instruction>::empty()
                        &&& post.wf()
                        &&& post.config.validators@ == edited
                        &&& post.config.admin == pre.config.admin
                        &&& post.config.status == pre.config.status
                        &&& post.config.usd_deposits == pre.config.usd_deposits
                        &&& post.users == pre.users
                        &&& post.delegations == pre.delegations
                        &&& post.withdrawals == pre.withdrawals
                        &&& post.unbonds == pre.unbonds
                    },
                    Some(d) => {
                        if d.amount * delegate_ratio > u128::MAX {
                            r == Err::<(u128, Vec<Instruction>), Error>(Error::ArithmeticError)
                        } else if d.can_redelegate < (d.amount * delegate_ratio) / 100 {
                            r == Err::<(u128, Vec<Instruction>), Error>(
                                Error::InsufficientRedelegatable,
                            )
                        } else if d.can_redelegate * delegate_ratio > u128::MAX {
                            r == Err::<(u128, Vec<Instruction>), Error>(Error::ArithmeticError)
                        } else {
                            let moved = ((d.can_redelegate * delegate_ratio) / 100) as u128;
                            &&& r is Ok
                            &&& r->Ok_0.0 == d.can_redelegate
                            &&& r->Ok_0.1@ == (if d.accumulated_reward != 0 {
                                seq![
                                    Instruction::WithdrawReward {
                                        validator: old_validator_address,
                                    },
                                ]
                            } else {
                                Seq::<Instruction>::empty()
                            }) + seq![
                                Instruction::Redelegate {
                                    src_validator: old_validator_address,
                                    dst_validator: new_validator_address,
                                    amount: moved,
                                },
                            ]
                            &&& post.wf()
                            &&& post.config.validators@ == edited
                            &&& post.config.admin == pre.config.admin
                            &&& post.config.status == pre.config.status
                            &&& post.config.usd_deposits == pre.config.usd_deposits
                            &&& post.users == pre.users
                            &&& post.delegations == pre.delegations
                            &&& post.withdrawals == pre.withdrawals
                            &&& post.unbonds == pre.unbonds
                        }
                    },
                }
            }
        }),
{
    if !sender.eq(&state.config.admin) {
        return Err(Error::Unauthorized);
    }
    let op: usize = match find_validator(&state.config.validators, &old_validator_address) {
        Some(i) => i,
        None => {
            return Err(Error::ValidatorNotFound);
        },
    };
    if delegate_ratio > 100 || delegate_ratio == 0 {
        return Err(Error::InvalidRatio);
    }
    if old_validator_address.eq(&new_validator_address) {
        return Err(Error::SameValidator);
    }

    let mut reward: u128 = 0;
    let mut can_redelegate: u128 = 0;
    let mut moved: u128 = 0;
    let has_delegation: bool = match delegation {
        None => false,
        Some(d) => {
            let product: u128 = match d.amount.checked_mul(delegate_ratio) {
                Some(p) => p,
                None => {
                    return Err(Error::ArithmeticError);
                },
            };
            if d.can_redelegate < product / 100 {
                return Err(Error::InsufficientRedelegatable);
            }
            let rproduct: u128 = match d.can_redelegate.checked_mul(delegate_ratio) {
                Some(p) => p,
                None => {
                    return Err(Error::ArithmeticError);
                },
            };
            reward = d.accumulated_reward;
            can_redelegate = d.can_redelegate;
            moved = rproduct / 100;
            true
        },
    };

    let ghost vs = state.config.validators@;
    proof {
        lemma_weight_le_sum(vs, op as int);
        lemma_ratio_le(vs[op as int].weight as int, delegate_ratio as int, 100);
        lemma_weight_edit_sum(
            vs,
            old_validator_address@,
            new_validator_address,
            delegate_ratio,
        );
        lemma_weight_edit_distinct(
            vs,
            old_validator_address@,
            new_validator_address,
            delegate_ratio,
        );
    }
    let old_weight: u128 = state.config.validators[op].weight;
    let changed_weight: u128 = (old_weight * delegate_ratio) / 100;
    match find_validator(&state.config.validators, &new_validator_address) {
        Some(np) => {
            proof {
                lemma_weight_le_sum(vs, np as int);
            }
            let new_weight: u128 = state.config.validators[np].weight;
            let naddr: String = state.config.validators[np].address.clone();
            state.config.validators.set(
                np,
                ValidatorWithWeight { address: naddr, weight: new_weight + changed_weight },
            );
            let oaddr: String = state.config.validators[op].address.clone();
            state.config.validators.set(
                op,
                ValidatorWithWeight { address: oaddr, weight: old_weight - changed_weight },
            );
        },
        None => {
            let oaddr: String = state.config.validators[op].address.clone();
            state.config.validators.set(
                op,
                ValidatorWithWeight { address: oaddr, weight: old_weight - changed_weight },
            );
            state.config.validators.push(
                ValidatorWithWeight { address: new_validator_address.clone(), weight: changed_weight },
            );
        },
    }
    if delegate_ratio == 100 {
        state.config.validators.remove(op);
    }

    let mut msgs: Vec<Instruction> = Vec::new();
    if has_delegation {
        if reward != 0 {
            msgs.push(
                Instruction::WithdrawReward { validator: old_validator_address.clone() },
            );
        }
        msgs.push(
            Instruction::Redelegate {
                src_validator: old_validator_address,
                dst_validator: new_validator_address,
                amount: moved,
            },
        );
        Ok((can_redelegate, msgs))
    } else {
        Ok((0, msgs))
    }
}

} // verus!
