use tier::admin::{initial_state, instantiate, try_change_admin, try_change_oraiswap, try_change_status};
use tier::config::{Config, ContractStatus, OraiswapContract, ValidatorWithWeight};
use tier::error::Error;
use tier::msg::Instruction;
use tier::redelegate::{try_redelegate, DelegationInfo};
use tier::rewards::try_withdraw_rewards;
use tier::state::State;

fn admin_config(vals: &[(&str, u128)]) -> Config {
    instantiate(
        Some("admin".to_string()),
        vals.iter()
            .map(|(a, w)| ValidatorWithWeight { address: a.to_string(), weight: *w })
            .collect(),
        vec![500, 100],
        OraiswapContract {
            orai_swap_router_contract: "router".to_string(),
            usdt_contract: "usdt".to_string(),
        },
        None,
    )
    .expect("valid configuration")
}

fn weights_of(config: &Config) -> Vec<(String, u128)> {
    config.validators.iter().map(|v| (v.address.clone(), v.weight)).collect()
}

#[test]
fn change_admin_requires_admin() {
    let mut config = admin_config(&[("v1", 100)]);
    let outsider = "mallory".to_string();
    let r = try_change_admin(&mut config, &outsider, "mallory".to_string());
    assert_eq!(r.unwrap_err(), Error::Unauthorized);
    assert_eq!(config.admin, "admin");

    let admin = "admin".to_string();
    try_change_admin(&mut config, &admin, "root".to_string()).unwrap();
    assert_eq!(config.admin, "root");
}

#[test]
fn change_status_rejects_same_value() {
    let mut config = admin_config(&[("v1", 100)]);
    let admin = "admin".to_string();
    let r = try_change_status(&mut config, &admin, ContractStatus::Active);
    assert_eq!(r.unwrap_err(), Error::SameStatus);
    try_change_status(&mut config, &admin, ContractStatus::Stopped).unwrap();
    assert_eq!(config.status, ContractStatus::Stopped);
}

#[test]
fn change_oraiswap_rejects_same_pair() {
    let mut config = admin_config(&[("v1", 100)]);
    let admin = "admin".to_string();
    let r = try_change_oraiswap(&mut config, &admin, "router".to_string(), "usdt".to_string());
    assert_eq!(r.unwrap_err(), Error::SameOraiswap);
    try_change_oraiswap(&mut config, &admin, "router2".to_string(), "usdt2".to_string()).unwrap();
    assert_eq!(config.oraiswap_contract.orai_swap_router_contract, "router2");
    assert_eq!(config.oraiswap_contract.usdt_contract, "usdt2");
}

#[test]
fn redelegate_validation_errors() {
    let mut state = initial_state(admin_config(&[("v1", 60), ("v2", 40)]));
    let outsider = "mallory".to_string();
    let admin = "admin".to_string();
    let r = try_redelegate(&mut state, &outsider, "v3".to_string(), "v1".to_string(), 50, None, None);
    assert_eq!(r.unwrap_err(), Error::Unauthorized);
    let r = try_redelegate(&mut state, &admin, "v3".to_string(), "nobody".to_string(), 50, None, None);
    assert_eq!(r.unwrap_err(), Error::ValidatorNotFound);
    let r = try_redelegate(&mut state, &admin, "v3".to_string(), "v1".to_string(), 0, None, None);
    assert_eq!(r.unwrap_err(), Error::InvalidRatio);
    let r = try_redelegate(&mut state, &admin, "v3".to_string(), "v1".to_string(), 101, None, None);
    assert_eq!(r.unwrap_err(), Error::InvalidRatio);
    let r = try_redelegate(&mut state, &admin, "v1".to_string(), "v1".to_string(), 50, None, None);
    assert_eq!(r.unwrap_err(), Error::SameValidator);
}

// Moving the whole weight removes the old validator from the table, and
// the weights still sum to one hundred.
#[test]
fn redelegate_full_ratio_removes_old_validator() {
    let mut state = initial_state(admin_config(&[("v1", 60), ("v2", 40)]));
    let admin = "admin".to_string();
    let (amount, msgs) =
        try_redelegate(&mut state, &admin, "v3".to_string(), "v1".to_string(), 100, None, None)
            .unwrap();
    assert_eq!(amount, 0);
    assert!(msgs.is_empty());
    assert_eq!(
        weights_of(&state.config),
        vec![("v2".to_string(), 40), ("v3".to_string(), 60)]
    );
    let total: u128 = state.config.validators.iter().map(|v| v.weight).sum();
    assert_eq!(total, 100);
}

#[test]
fn redelegate_partial_ratio_to_existing_validator() {
    let mut state = initial_state(admin_config(&[("v1", 60), ("v2", 40)]));
    let admin = "admin".to_string();
    let (amount, msgs) =
        try_redelegate(&mut state, &admin, "v2".to_string(), "v1".to_string(), 50, None, None)
            .unwrap();
    assert_eq!(amount, 0);
    assert!(msgs.is_empty());
    // half of v1's 60 moved: v1 30, v2 70
    assert_eq!(
        weights_of(&state.config),
        vec![("v1".to_string(), 30), ("v2".to_string(), 70)]
    );
    let total: u128 = state.config.validators.iter().map(|v| v.weight).sum();
    assert_eq!(total, 100);
}

#[test]
fn redelegate_with_delegation_moves_stake() {
    let mut state = initial_state(admin_config(&[("v1", 60), ("v2", 40)]));
    let admin = "admin".to_string();
    let d = DelegationInfo { amount: 1000, can_redelegate: 1000, accumulated_reward: 7 };
    let (amount, msgs) = try_redelegate(
        &mut state,
        &admin,
        "v2".to_string(),
        "v1".to_string(),
        50,
        None,
        Some(d),
    )
    .unwrap();
    assert_eq!(amount, 1000);
    assert_eq!(msgs.len(), 2);
    match &msgs[0] {
        Instruction::WithdrawReward { validator } => assert_eq!(validator, "v1"),
        other => panic!("expected a reward withdrawal, got {:?}", other),
    }
    match &msgs[1] {
        Instruction::Redelegate { src_validator, dst_validator, amount } => {
            assert_eq!(src_validator, "v1");
            assert_eq!(dst_validator, "v2");
            assert_eq!(*amount, 500);
        }
        other => panic!("expected a redelegate instruction, got {:?}", other),
    }
    assert_eq!(
        weights_of(&state.config),
        vec![("v1".to_string(), 30), ("v2".to_string(), 70)]
    );
}

#[test]
fn redelegate_rejects_insufficient_redelegatable() {
    let mut state = initial_state(admin_config(&[("v1", 60), ("v2", 40)]));
    let admin = "admin".to_string();
    let d = DelegationInfo { amount: 1000, can_redelegate: 400, accumulated_reward: 0 };
    let r = try_redelegate(
        &mut state,
        &admin,
        "v2".to_string(),
        "v1".to_string(),
        50,
        None,
        Some(d),
    );
    assert_eq!(r.unwrap_err(), Error::InsufficientRedelegatable);
    // the weight table is untouched
    assert_eq!(
        weights_of(&state.config),
        vec![("v1".to_string(), 60), ("v2".to_string(), 40)]
    );
}

#[test]
fn withdraw_rewards_reports_the_total() {
    let state: State = initial_state(admin_config(&[("v1", 60), ("v2", 40)]));
    let admin = "admin".to_string();
    let (total, msgs) =
        try_withdraw_rewards(&state, &admin, None, &vec![Some(30), Some(12)]).unwrap();
    assert_eq!(total, 42);
    assert_eq!(msgs.len(), 3);
    match &msgs[0] {
        Instruction::SetWithdrawAddress { address } => assert_eq!(address, "admin"),
        other => panic!("expected the withdraw address, got {:?}", other),
    }
    match &msgs[1] {
        Instruction::WithdrawReward { validator } => assert_eq!(validator, "v1"),
        other => panic!("expected a reward withdrawal, got {:?}", other),
    }
    match &msgs[2] {
        Instruction::WithdrawReward { validator } => assert_eq!(validator, "v2"),
        other => panic!("expected a reward withdrawal, got {:?}", other),
    }
}

#[test]
fn withdraw_rewards_with_recipient_sets_the_address() {
    let state: State = initial_state(admin_config(&[("v1", 100)]));
    let admin = "admin".to_string();
    let (_, msgs) =
        try_withdraw_rewards(&state, &admin, Some("carol".to_string()), &vec![Some(5)]).unwrap();
    match &msgs[0] {
        Instruction::SetWithdrawAddress { address } => assert_eq!(address, "carol"),
        other => panic!("expected the withdraw address, got {:?}", other),
    }
}

#[test]
fn withdraw_rewards_errors() {
    let state: State = initial_state(admin_config(&[("v1", 60), ("v2", 40)]));
    let outsider = "mallory".to_string();
    let admin = "admin".to_string();
    let r = try_withdraw_rewards(&state, &outsider, None, &vec![Some(1), Some(2)]);
    assert_eq!(r.unwrap_err(), Error::Unauthorized);
    let r = try_withdraw_rewards(&state, &admin, None, &vec![Some(1), None]);
    assert_eq!(r.unwrap_err(), Error::MissingDelegation);
    let r = try_withdraw_rewards(&state, &admin, None, &vec![Some(0), Some(0)]);
    assert_eq!(r.unwrap_err(), Error::NothingToWithdraw);
}
