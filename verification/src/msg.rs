//! Instructions that an operation asks the host to carry out.
//!
//! An operation never performs a transfer, delegation or reward withdrawal
//! itself: it returns these requests, and the host settles them after the
//! operation has returned success. All amounts are in base units of the
//! native token.

use vstd::prelude::*;

verus! {

/// One outgoing request to the host chain.
#[derive(Clone, Debug)]
pub enum Instruction {
    /// Bond `amount` with `validator`.
    Delegate { validator: String, amount: u128 },
    /// Unbond `amount` from `validator`.
    Undelegate { validator: String, amount: u128 },
    /// Move `amount` of bonded stake from `src_validator` to `dst_validator`.
    Redelegate { src_validator: String, dst_validator: String, amount: u128 },
    /// Transfer `amount` of the native token to `to_address`.
    Send { to_address: String, amount: u128 },
    /// Set the address that subsequent reward withdrawals pay out to.
    SetWithdrawAddress { address: String },
    /// Withdraw the staking rewards accumulated with `validator`.
    WithdrawReward { validator: String },
}

} // verus!
