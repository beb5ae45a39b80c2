//! The error taxonomy of the contract.
//!
//! Every operation either fully succeeds or returns one of these errors, in
//! which case the host rolls the whole state transition back. The verified
//! functions therefore leave the state untouched whenever they fail.

use vstd::prelude::*;

verus! {

/// Why an operation was refused.
///
/// Checked arithmetic that would abort an operation (overflow, underflow,
/// division by zero) is surfaced as `ArithmeticError`.
#[derive(Clone, Copy, Debug, PartialEq, Eq, Structural)]
pub enum Error {
    /// The contract status is not `Active`.
    NotActive,
    /// The caller is not the configured admin.
    Unauthorized,
    /// No funds were attached to the deposit.
    NoFunds,
    /// The attached funds have a zero amount.
    ZeroAmount,
    /// The attached denomination is neither native nor an allowed stable one.
    UnsupportedToken,
    /// More than one fund entry was attached.
    MultipleFunds,
    /// The depositor already holds the highest tier.
    ReachedMaxTier,
    /// The deposit does not reach the next tier; the exact additional
    /// USD amount still needed is reported.
    InsufficientForNextTier { expected_usd: u128 },
    /// The status would be changed to the value it already has.
    SameStatus,
    /// The oraiswap contracts would be changed to the addresses already set.
    SameOraiswap,
    /// A configured validator reports no delegation.
    MissingDelegation,
    /// The unbond queue is empty.
    QueueEmpty,
    /// The head of the unbond queue has not aged past the batch period.
    TooEarly,
    /// The scanned page of the withdrawal ledger holds no matured record.
    NothingToClaim,
    /// The summed reported reward over all validators is zero.
    NothingToWithdraw,
    /// The validator to move stake away from is not configured.
    ValidatorNotFound,
    /// The redelegate ratio is outside 1..=100.
    InvalidRatio,
    /// Redelegation from a validator to itself.
    SameValidator,
    /// The chain allows less redelegation than the requested share.
    InsufficientRedelegatable,
    /// The deposit threshold list is empty.
    EmptyDeposits,
    /// The deposit thresholds are not strictly decreasing and positive.
    UnsortedDeposits,
    /// The validator weights do not sum to exactly 100.
    InvalidWeightTotal,
    /// The same validator address is configured twice.
    DuplicatedValidator,
    /// More deposit thresholds than tier numbers can distinguish.
    TooManyTiers,
    /// A checked add, sub, mul or div overflowed, underflowed or divided
    /// by zero; the operation aborts rather than wrapping or saturating.
    ArithmeticError,
}

} // verus!
