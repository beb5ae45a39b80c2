use tier::admin::{initial_state, instantiate};
use tier::config::{Config, ContractStatus, OraiswapContract, ValidatorWithWeight};
use tier::error::Error;

fn swap_pair() -> OraiswapContract {
    OraiswapContract {
        orai_swap_router_contract: "router".to_string(),
        usdt_contract: "usdt".to_string(),
    }
}

fn validators_of(spec: &[(&str, u128)]) -> Vec<ValidatorWithWeight> {
    spec.iter()
        .map(|(a, w)| ValidatorWithWeight { address: a.to_string(), weight: *w })
        .collect()
}

fn config_of(thresholds: &[u128], vals: &[(&str, u128)]) -> Config {
    instantiate(
        Some("admin".to_string()),
        validators_of(vals),
        thresholds.to_vec(),
        swap_pair(),
        Some(vec!["usdt".to_string()]),
    )
    .expect("valid configuration")
}

#[test]
fn instantiate_accepts_descending_thresholds() {
    let config = config_of(&[500, 100], &[("v1", 60), ("v2", 40)]);
    assert_eq!(config.admin, "admin");
    assert_eq!(config.usd_deposits, vec![500, 100]);
    assert_eq!(config.status, ContractStatus::Active);
    let state = initial_state(config);
    assert!(state.users.is_empty());
    assert!(state.unbonds.is_empty());
}

#[test]
fn instantiate_rejects_empty_thresholds() {
    let r = instantiate(None, validators_of(&[("v1", 100)]), vec![], swap_pair(), None);
    assert_eq!(r.unwrap_err(), Error::EmptyDeposits);
}

#[test]
fn instantiate_rejects_unsorted_thresholds() {
    let r = instantiate(
        None,
        validators_of(&[("v1", 100)]),
        vec![100, 500],
        swap_pair(),
        None,
    );
    assert_eq!(r.unwrap_err(), Error::UnsortedDeposits);
}

#[test]
fn instantiate_rejects_zero_threshold() {
    let r = instantiate(
        None,
        validators_of(&[("v1", 100)]),
        vec![500, 0],
        swap_pair(),
        None,
    );
    assert_eq!(r.unwrap_err(), Error::UnsortedDeposits);
}

#[test]
fn instantiate_rejects_bad_weight_total() {
    let r = instantiate(
        None,
        validators_of(&[("v1", 60), ("v2", 50)]),
        vec![500, 100],
        swap_pair(),
        None,
    );
    assert_eq!(r.unwrap_err(), Error::InvalidWeightTotal);
}

#[test]
fn instantiate_rejects_duplicate_validator() {
    let r = instantiate(
        None,
        validators_of(&[("v1", 60), ("v1", 40)]),
        vec![500, 100],
        swap_pair(),
        None,
    );
    assert_eq!(r.unwrap_err(), Error::DuplicatedValidator);
}

#[test]
fn instantiate_rejects_too_many_tiers() {
    let mut thresholds: Vec<u128> = Vec::new();
    for i in 0..255u128 {
        thresholds.push(1000 - i);
    }
    let r = instantiate(None, validators_of(&[("v1", 100)]), thresholds, swap_pair(), None);
    assert_eq!(r.unwrap_err(), Error::TooManyTiers);
}

#[test]
fn tier_table_boundaries() {
    let config = config_of(&[500, 100], &[("v1", 100)]);
    assert_eq!(config.min_tier(), 3);
    assert_eq!(config.max_tier(), 1);
    assert_eq!(config.tier_by_deposit(0), 3);
    assert_eq!(config.tier_by_deposit(99), 3);
    assert_eq!(config.tier_by_deposit(100), 2);
    assert_eq!(config.tier_by_deposit(499), 2);
    assert_eq!(config.tier_by_deposit(500), 1);
    assert_eq!(config.tier_by_deposit(u128::MAX), 1);
    assert_eq!(config.deposit_by_tier(1), 500);
    assert_eq!(config.deposit_by_tier(2), 100);
}

#[test]
fn inactive_contract_refuses_operations() {
    let mut config = config_of(&[500, 100], &[("v1", 100)]);
    config.status = ContractStatus::Stopped;
    assert_eq!(config.assert_contract_active().unwrap_err(), Error::NotActive);
    let funds = vec![tier::deposit::Coin { denom: "orai".to_string(), amount: 5 }];
    let r = tier::deposit::get_received_funds(&config, &funds);
    assert_eq!(r.unwrap_err(), Error::NotActive);
}
