use tier::admin::{initial_state, instantiate};
use tier::config::{Config, OraiswapContract, ValidatorWithWeight};
use tier::deposit::{get_received_funds, try_deposit_apply, try_deposit_quote, Coin};
use tier::error::Error;
use tier::msg::Instruction;
use tier::queries::{query_user_info, query_user_total_delegated};
use tier::state::{State, UserInfo};

fn deposit_config() -> Config {
    instantiate(
        Some("admin".to_string()),
        vec![
            ValidatorWithWeight { address: "v1".to_string(), weight: 60 },
            ValidatorWithWeight { address: "v2".to_string(), weight: 40 },
        ],
        vec![500, 100],
        OraiswapContract {
            orai_swap_router_contract: "router".to_string(),
            usdt_contract: "usdt".to_string(),
        },
        Some(vec!["usdt".to_string()]),
    )
    .expect("valid configuration")
}

fn deposit_state() -> State {
    initial_state(deposit_config())
}

fn default_user(config: &Config) -> UserInfo {
    UserInfo { tier: config.min_tier(), timestamp: 0, usd_deposit: 0, orai_deposit: 0 }
}

#[test]
fn funds_validation_errors() {
    let config = deposit_config();
    let none: Vec<Coin> = vec![];
    assert_eq!(get_received_funds(&config, &none).unwrap_err(), Error::NoFunds);
    let zero = vec![Coin { denom: "orai".to_string(), amount: 0 }];
    assert_eq!(get_received_funds(&config, &zero).unwrap_err(), Error::ZeroAmount);
    let alien = vec![Coin { denom: "atom".to_string(), amount: 5 }];
    assert_eq!(get_received_funds(&config, &alien).unwrap_err(), Error::UnsupportedToken);
    let double = vec![
        Coin { denom: "orai".to_string(), amount: 5 },
        Coin { denom: "orai".to_string(), amount: 6 },
    ];
    assert_eq!(get_received_funds(&config, &double).unwrap_err(), Error::MultipleFunds);
}

#[test]
fn funds_validation_accepts_native_and_stable() {
    let config = deposit_config();
    let native = vec![Coin { denom: "orai".to_string(), amount: 7 }];
    let c = get_received_funds(&config, &native).unwrap();
    assert_eq!(c.denom, "orai");
    assert_eq!(c.amount, 7);
    let stable = vec![Coin { denom: "usdt".to_string(), amount: 9 }];
    let c = get_received_funds(&config, &stable).unwrap();
    assert_eq!(c.denom, "usdt");
    assert_eq!(c.amount, 9);
}

// A deposit converting to 150 USD on thresholds [500, 100] reaches tier 2;
// the USD deposit snaps to 100 and the excess over the priced step comes
// back as a refund. With the oracle pricing 1 USD at 2 native units the
// 150-USD deposit attached 300 native units, the 100-USD step costs 200,
// and 100 native units (worth the 50 USD above the threshold) are refunded.
#[test]
fn deposit_snaps_to_tier_threshold_and_refunds() {
    let mut state = deposit_state();
    let sender = "alice".to_string();
    let user = default_user(&state.config);
    let quote = try_deposit_quote(&state.config, &user, 150).unwrap();
    assert_eq!(quote.new_tier, 2);
    assert_eq!(quote.new_tier_deposit, 100);
    assert_eq!(quote.delta_usd, 100);

    let msgs = try_deposit_apply(&mut state, &sender, 1000, 300, quote, 200, 200).unwrap();
    let info = query_user_info(&state, &sender);
    assert_eq!(info.tier, 2);
    assert_eq!(info.usd_deposit, 100);
    assert_eq!(info.orai_deposit, 200);
    assert_eq!(info.timestamp, 1000);
    assert_eq!(query_user_total_delegated(&state, &sender), 200);

    assert_eq!(msgs.len(), 3);
    match &msgs[0] {
        Instruction::Send { to_address, amount } => {
            assert_eq!(to_address, "alice");
            assert_eq!(*amount, 100);
        }
        other => panic!("expected a refund transfer, got {:?}", other),
    }
    match &msgs[1] {
        Instruction::Delegate { validator, amount } => {
            assert_eq!(validator, "v1");
            assert_eq!(*amount, 120);
        }
        other => panic!("expected a delegate instruction, got {:?}", other),
    }
    match &msgs[2] {
        Instruction::Delegate { validator, amount } => {
            assert_eq!(validator, "v2");
            assert_eq!(*amount, 80);
        }
        other => panic!("expected a delegate instruction, got {:?}", other),
    }
}

// The same user deposits again, converting to 40 more USD: the running
// total of 140 USD stays under the 500-USD threshold of tier 1, so the
// deposit is refused, reporting exactly the 400 USD still missing, and
// nothing changes.
#[test]
fn deposit_below_next_tier_reports_missing_usd() {
    let mut state = deposit_state();
    let sender = "alice".to_string();
    let user = default_user(&state.config);
    let quote = try_deposit_quote(&state.config, &user, 150).unwrap();
    try_deposit_apply(&mut state, &sender, 1000, 300, quote, 200, 200).unwrap();

    let user = query_user_info(&state, &sender);
    let r = try_deposit_quote(&state.config, &user, 40);
    assert_eq!(r.unwrap_err(), Error::InsufficientForNextTier { expected_usd: 400 });
    // nothing was mutated
    let again = query_user_info(&state, &sender);
    assert_eq!(again.tier, 2);
    assert_eq!(again.usd_deposit, 100);
    assert_eq!(query_user_total_delegated(&state, &sender), 200);
}

#[test]
fn deposit_at_max_tier_is_refused() {
    let state = deposit_state();
    let user = UserInfo { tier: 1, timestamp: 5, usd_deposit: 500, orai_deposit: 1000 };
    let r = try_deposit_quote(&state.config, &user, 10_000);
    assert_eq!(r.unwrap_err(), Error::ReachedMaxTier);
}

#[test]
fn deposit_tier_never_regresses() {
    let mut state = deposit_state();
    let sender = "bob".to_string();
    let user = default_user(&state.config);
    let quote = try_deposit_quote(&state.config, &user, 120).unwrap();
    assert_eq!(quote.new_tier, 2);
    try_deposit_apply(&mut state, &sender, 0, 240, quote, 200, 200).unwrap();

    let user = query_user_info(&state, &sender);
    let quote = try_deposit_quote(&state.config, &user, 900).unwrap();
    assert!(quote.new_tier < user.tier);
    assert_eq!(quote.new_tier, 1);
    assert_eq!(quote.new_tier_deposit, 500);
    assert_eq!(quote.delta_usd, 400);
    try_deposit_apply(&mut state, &sender, 0, 1800, quote, 800, 1000).unwrap();
    let user = query_user_info(&state, &sender);
    assert_eq!(user.tier, 1);
    assert_eq!(user.usd_deposit, 500);
    assert_eq!(user.orai_deposit, 1000);
    // total delegated grew by the change of the native deposit
    assert_eq!(query_user_total_delegated(&state, &sender), 1000);
}

#[test]
fn deposit_without_refund_emits_no_transfer() {
    let mut state = deposit_state();
    let sender = "carol".to_string();
    let user = default_user(&state.config);
    let quote = try_deposit_quote(&state.config, &user, 100).unwrap();
    assert_eq!(quote.delta_usd, 100);
    let msgs = try_deposit_apply(&mut state, &sender, 7, 200, quote, 200, 200).unwrap();
    assert_eq!(msgs.len(), 2);
    assert!(matches!(&msgs[0], Instruction::Delegate { .. }));
}

#[test]
fn deposit_overflow_is_an_arithmetic_error() {
    let state = deposit_state();
    let user = UserInfo { tier: 2, timestamp: 0, usd_deposit: 100, orai_deposit: 50 };
    let r = try_deposit_quote(&state.config, &user, u128::MAX);
    assert_eq!(r.unwrap_err(), Error::ArithmeticError);
}
