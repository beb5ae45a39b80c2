//! Tier-by-deposit staking engine.
//!
//! Users deposit native tokens, receive a discrete tier based on the
//! USD-equivalent value staked, have their stake delegated across a weighted
//! set of validators, and can later withdraw through a time-batched,
//! slashing-aware unbonding pipeline before claiming matured funds.
//!
//! Every operation is a verified state transition: it takes the contract
//! state together with the plain values that the host environment supplies
//! (received funds, oracle conversions, chain-reported delegations, the
//! current time) and returns the instructions that the host should carry
//! out, or an error that aborts the whole operation.

use vstd::prelude::*;

pub mod admin;
pub mod claim;
pub mod config;
pub mod deposit;
pub mod error;
pub mod laws;
pub mod math;
pub mod msg;
pub mod queries;
pub mod queue;
pub mod redelegate;
pub mod rewards;
pub mod state;
pub mod withdraw;

verus! {

/// Seconds a drained withdrawal must wait before it can be claimed.
pub const UNBOUND_TIME: u64 = 21 * 24 * 60 * 60;

/// Minimum age in seconds of the queue head before the queue may be drained.
pub const BATCH_PERIOD: u64 = 5 * 24 * 60 * 60;

/// Sentinel claim time of a withdrawal that no batch has scheduled yet.
pub const MAX_UNIX_TIMESTAMP: u64 = 2147483647;

} // verus!
