use tier::admin::{initial_state, instantiate};
use tier::config::{Config, OraiswapContract, ValidatorWithWeight};
use tier::error::Error;
use tier::msg::Instruction;
use tier::queries::{query_unbonds, query_user_info, query_user_total_delegated, query_withdrawals};
use tier::queue::try_batch_unbond;
use tier::state::{DelegatedEntry, State, UserEntry, UserInfo, UserUnbond, WithdrawalsEntry, UserWithdrawal};
use tier::deposit::{try_deposit_apply, try_deposit_quote};
use tier::withdraw::try_withdraw;
use tier::{BATCH_PERIOD, MAX_UNIX_TIMESTAMP, UNBOUND_TIME};

fn withdraw_config(vals: &[(&str, u128)]) -> Config {
    instantiate(
        Some("admin".to_string()),
        vals.iter()
            .map(|(a, w)| ValidatorWithWeight { address: a.to_string(), weight: *w })
            .collect(),
        vec![500, 100],
        OraiswapContract {
            orai_swap_router_contract: "router".to_string(),
            usdt_contract: "usdt".to_string(),
        },
        None,
    )
    .expect("valid configuration")
}

fn user_entry(address: &str, tier: u8, usd: u128, orai: u128) -> UserEntry {
    UserEntry {
        address: address.to_string(),
        info: UserInfo { tier, timestamp: 0, usd_deposit: usd, orai_deposit: orai },
    }
}

fn delegated(address: &str, amount: u128) -> DelegatedEntry {
    DelegatedEntry { address: address.to_string(), amount }
}

// Two users have 100 and 300 recorded; the chain reports only 360 still
// bonded (slashed from 400). Withdrawing the 100-unit user pays out
// 100 * 360 / 400 = 90.
#[test]
fn withdraw_spreads_slashing_proportionally() {
    let mut state = initial_state(withdraw_config(&[("v1", 100)]));
    state.users = vec![user_entry("alice", 2, 100, 100), user_entry("bob", 2, 100, 300)];
    state.delegations = vec![delegated("alice", 100), delegated("bob", 300)];

    let sender = "alice".to_string();
    let msgs = try_withdraw(&mut state, &sender, 5000, &vec![Some(360)]).unwrap();
    assert!(msgs.is_empty());

    // the user record is deleted whole
    let info = query_user_info(&state, &sender);
    assert_eq!(info.tier, 3);
    assert_eq!(info.orai_deposit, 0);
    // the ledger total is untouched until the batch drains
    assert_eq!(query_user_total_delegated(&state, &sender), 100);

    // one unscheduled withdrawal record of 90 and one queue entry of 90
    let (count, page) = query_withdrawals(&state, &sender, None, None);
    assert_eq!(count, 1);
    assert_eq!(
        page[0],
        UserWithdrawal { amount: 90, claim_time: MAX_UNIX_TIMESTAMP, timestamp: 5000 }
    );
    let (qlen, unbonds) = query_unbonds(&state);
    assert_eq!(qlen, 1);
    assert_eq!(unbonds[0].address, "alice");
    assert_eq!(unbonds[0].amount, 90);
    assert_eq!(unbonds[0].timestamp, 5000);
}

#[test]
fn withdraw_without_any_stake_is_an_arithmetic_error() {
    let mut state = initial_state(withdraw_config(&[("v1", 100)]));
    let sender = "alice".to_string();
    // empty ledger: the payout division has a zero divisor
    let r = try_withdraw(&mut state, &sender, 5000, &vec![Some(0)]);
    assert_eq!(r.unwrap_err(), Error::ArithmeticError);
}

#[test]
fn withdraw_with_missing_delegation_is_fatal() {
    let mut state = initial_state(withdraw_config(&[("v1", 60), ("v2", 40)]));
    state.users = vec![user_entry("alice", 2, 100, 100)];
    state.delegations = vec![delegated("alice", 100)];
    let sender = "alice".to_string();
    let r = try_withdraw(&mut state, &sender, 5000, &vec![Some(50), None]);
    assert_eq!(r.unwrap_err(), Error::MissingDelegation);
    // nothing changed
    assert_eq!(query_user_info(&state, &sender).orai_deposit, 100);
    assert_eq!(query_unbonds(&state).0, 0);
}

// The queue head is aged exactly BATCH_PERIOD: the batch drains all queued
// entries in one call, schedules every matched record's claim time to
// now + UNBOUND_TIME, and emits validator-weighted undelegate instructions
// summing to the total minus the dust correction of 4.
#[test]
fn batch_unbond_drains_whole_queue() {
    let mut state = initial_state(withdraw_config(&[("v1", 50), ("v2", 50)]));
    state.delegations = vec![delegated("alice", 50), delegated("bob", 60)];
    state.withdrawals = vec![
        WithdrawalsEntry {
            address: "alice".to_string(),
            records: vec![UserWithdrawal {
                amount: 50,
                claim_time: MAX_UNIX_TIMESTAMP,
                timestamp: 100,
            }],
        },
        WithdrawalsEntry {
            address: "bob".to_string(),
            records: vec![UserWithdrawal {
                amount: 60,
                claim_time: MAX_UNIX_TIMESTAMP,
                timestamp: 150,
            }],
        },
    ];
    state.unbonds = vec![
        UserUnbond { address: "alice".to_string(), amount: 50, timestamp: 100 },
        UserUnbond { address: "bob".to_string(), amount: 60, timestamp: 150 },
    ];

    let now = 100 + BATCH_PERIOD;
    let msgs = try_batch_unbond(&mut state, now).unwrap();

    // queue drained to empty in one call
    assert_eq!(query_unbonds(&state).0, 0);
    // ledger totals dropped by the queued amounts
    assert_eq!(query_user_total_delegated(&state, &"alice".to_string()), 0);
    assert_eq!(query_user_total_delegated(&state, &"bob".to_string()), 0);
    // matched records got their claim time
    let (_, alice_page) = query_withdrawals(&state, &"alice".to_string(), None, None);
    assert_eq!(alice_page[0].claim_time, now + UNBOUND_TIME);
    let (_, bob_page) = query_withdrawals(&state, &"bob".to_string(), None, None);
    assert_eq!(bob_page[0].claim_time, now + UNBOUND_TIME);
    // undelegate instructions split 110 - 4 = 106 by the 50/50 weights
    assert_eq!(msgs.len(), 2);
    let mut total = 0u128;
    for m in &msgs {
        match m {
            Instruction::Undelegate { amount, .. } => total += amount,
            other => panic!("expected an undelegate instruction, got {:?}", other),
        }
    }
    assert_eq!(total, 106);
    match &msgs[0] {
        Instruction::Undelegate { validator, amount } => {
            assert_eq!(validator, "v1");
            assert_eq!(*amount, 53);
        }
        _ => unreachable!(),
    }

    // calling again immediately fails: the queue is empty
    let r = try_batch_unbond(&mut state, now);
    assert_eq!(r.unwrap_err(), Error::QueueEmpty);
}

#[test]
fn batch_unbond_too_early_is_refused() {
    let mut state = initial_state(withdraw_config(&[("v1", 100)]));
    state.delegations = vec![delegated("alice", 50)];
    state.unbonds = vec![UserUnbond { address: "alice".to_string(), amount: 50, timestamp: 100 }];
    let r = try_batch_unbond(&mut state, 100 + BATCH_PERIOD - 1);
    assert_eq!(r.unwrap_err(), Error::TooEarly);
    // nothing drained
    assert_eq!(query_unbonds(&state).0, 1);
}

#[test]
fn batch_unbond_empty_queue_is_refused() {
    let mut state = initial_state(withdraw_config(&[("v1", 100)]));
    let r = try_batch_unbond(&mut state, 10 * BATCH_PERIOD);
    assert_eq!(r.unwrap_err(), Error::QueueEmpty);
}

#[test]
fn batch_unbond_below_dust_correction_aborts() {
    let mut state = initial_state(withdraw_config(&[("v1", 100)]));
    state.delegations = vec![delegated("alice", 3)];
    state.unbonds = vec![UserUnbond { address: "alice".to_string(), amount: 3, timestamp: 100 }];
    let r = try_batch_unbond(&mut state, 100 + BATCH_PERIOD);
    assert_eq!(r.unwrap_err(), Error::ArithmeticError);
    // the whole operation rolled back
    assert_eq!(query_user_total_delegated(&state, &"alice".to_string()), 3);
    assert_eq!(query_unbonds(&state).0, 1);
}

// A withdraw whose queue head is already old enough runs the batch drain
// inline as part of the same operation.
#[test]
fn withdraw_runs_batch_inline_when_due() {
    let mut state = initial_state(withdraw_config(&[("v1", 100)]));
    state.users = vec![user_entry("bob", 2, 100, 60)];
    state.delegations = vec![delegated("alice", 50), delegated("bob", 60)];
    state.withdrawals = vec![WithdrawalsEntry {
        address: "alice".to_string(),
        records: vec![UserWithdrawal {
            amount: 50,
            claim_time: MAX_UNIX_TIMESTAMP,
            timestamp: 100,
        }],
    }];
    state.unbonds = vec![UserUnbond { address: "alice".to_string(), amount: 50, timestamp: 100 }];

    let now = 100 + BATCH_PERIOD;
    let sender = "bob".to_string();
    // no slashing: the chain reports the full ledger total of 110
    let msgs = try_withdraw(&mut state, &sender, now, &vec![Some(110)]).unwrap();

    // bob's payout is 60 * 110 / 110 = 60; both entries drained
    assert_eq!(query_unbonds(&state).0, 0);
    assert_eq!(query_user_total_delegated(&state, &"alice".to_string()), 0);
    assert_eq!(query_user_total_delegated(&state, &"bob".to_string()), 0);
    let (_, bob_page) = query_withdrawals(&state, &sender, None, None);
    assert_eq!(bob_page[0].amount, 60);
    assert_eq!(bob_page[0].claim_time, now + UNBOUND_TIME);
    // one undelegate of (50 + 60) - 4 = 106
    assert_eq!(msgs.len(), 1);
    match &msgs[0] {
        Instruction::Undelegate { validator, amount } => {
            assert_eq!(validator, "v1");
            assert_eq!(*amount, 106);
        }
        other => panic!("expected an undelegate instruction, got {:?}", other),
    }
}

// At a quiescent point (empty unbond queue) the delegation ledger equals
// the users' recorded native deposits, address for address and in sum.
#[test]
fn delegation_ledger_matches_deposits_when_quiescent() {
    let mut state = initial_state(withdraw_config(&[("v1", 100)]));
    let alice = "alice".to_string();
    let bob = "bob".to_string();
    let fresh = UserInfo { tier: 3, timestamp: 0, usd_deposit: 0, orai_deposit: 0 };

    let quote = try_deposit_quote(&state.config, &fresh, 100).unwrap();
    try_deposit_apply(&mut state, &alice, 100, 200, quote, 200, 200).unwrap();
    let quote = try_deposit_quote(&state.config, &fresh, 500).unwrap();
    try_deposit_apply(&mut state, &bob, 100, 1000, quote, 1000, 1000).unwrap();

    let total: u128 = [&alice, &bob]
        .iter()
        .map(|a| query_user_total_delegated(&state, a))
        .sum();
    let deposits: u128 = [&alice, &bob]
        .iter()
        .map(|a| query_user_info(&state, a).orai_deposit)
        .sum();
    assert_eq!(total, 1200);
    assert_eq!(total, deposits);

    // alice liquidates with no slashing reported, and the queue drains
    // once its head is old enough
    try_withdraw(&mut state, &alice, 200, &vec![Some(1200)]).unwrap();
    let msgs = try_batch_unbond(&mut state, 200 + BATCH_PERIOD).unwrap();
    assert_eq!(msgs.len(), 1);

    // quiescent again: the books agree, alice is gone entirely
    assert_eq!(query_unbonds(&state).0, 0);
    assert_eq!(query_user_total_delegated(&state, &alice), 0);
    assert_eq!(query_user_info(&state, &alice).orai_deposit, 0);
    assert_eq!(query_user_total_delegated(&state, &bob), 1000);
    assert_eq!(query_user_info(&state, &bob).orai_deposit, 1000);
}
