use tier::admin::{initial_state, instantiate};
use tier::claim::try_claim;
use tier::config::{Config, OraiswapContract, ValidatorWithWeight};
use tier::error::Error;
use tier::msg::Instruction;
use tier::queries::query_withdrawals;
use tier::state::{State, UserWithdrawal, WithdrawalsEntry};
use tier::MAX_UNIX_TIMESTAMP;

fn claim_config() -> Config {
    instantiate(
        Some("admin".to_string()),
        vec![ValidatorWithWeight { address: "v1".to_string(), weight: 100 }],
        vec![500, 100],
        OraiswapContract {
            orai_swap_router_contract: "router".to_string(),
            usdt_contract: "usdt".to_string(),
        },
        None,
    )
    .expect("valid configuration")
}

fn rec(amount: u128, claim_time: u64, timestamp: u64) -> UserWithdrawal {
    UserWithdrawal { amount, claim_time, timestamp }
}

fn state_with_records(records: Vec<UserWithdrawal>) -> State {
    let mut state = initial_state(claim_config());
    state.withdrawals = vec![WithdrawalsEntry { address: "alice".to_string(), records }];
    state
}

// Three records, of which the first and third are matured: the claim
// removes exactly those two, keeps the middle one, and transfers their sum.
#[test]
fn three_records() {
    let mut state = state_with_records(vec![
        rec(10, 1000, 1),
        rec(20, 9000, 2),
        rec(30, 2000, 3),
    ]);
    let sender = "alice".to_string();
    let (amount, msgs) = try_claim(&mut state, &sender, None, None, None, 5000).unwrap();
    assert_eq!(amount, 40);
    assert_eq!(msgs.len(), 1);
    match &msgs[0] {
        Instruction::Send { to_address, amount } => {
            assert_eq!(to_address, "alice");
            assert_eq!(*amount, 40);
        }
        other => panic!("expected a transfer, got {:?}", other),
    }
    let (count, page) = query_withdrawals(&state, &sender, None, None);
    assert_eq!(count, 1);
    assert_eq!(page, vec![rec(20, 9000, 2)]);
}

#[test]
fn claim_keeps_relative_order() {
    let mut state = state_with_records(vec![
        rec(1, 9000, 1),
        rec(2, 100, 2),
        rec(3, 9500, 3),
        rec(4, 200, 4),
        rec(5, 9900, 5),
    ]);
    let sender = "alice".to_string();
    let (amount, _) = try_claim(&mut state, &sender, None, None, None, 5000).unwrap();
    assert_eq!(amount, 6);
    let (_, page) = query_withdrawals(&state, &sender, None, None);
    assert_eq!(page, vec![rec(1, 9000, 1), rec(3, 9500, 3), rec(5, 9900, 5)]);
}

#[test]
fn claim_scans_only_the_requested_page() {
    let mut state = state_with_records(vec![
        rec(10, 100, 1),
        rec(20, 100, 2),
        rec(30, 100, 3),
    ]);
    let sender = "alice".to_string();
    // the page [1, 2) holds only the second record
    let (amount, _) = try_claim(&mut state, &sender, None, Some(1), Some(1), 5000).unwrap();
    assert_eq!(amount, 20);
    let (_, page) = query_withdrawals(&state, &sender, None, None);
    assert_eq!(page, vec![rec(10, 100, 1), rec(30, 100, 3)]);
}

// Paging past every matured record reports nothing to claim even though
// matured records exist outside the window.
#[test]
fn claim_past_matured_records_fails() {
    let mut state = state_with_records(vec![rec(10, 100, 1), rec(20, 9000, 2)]);
    let sender = "alice".to_string();
    let r = try_claim(&mut state, &sender, None, Some(1), Some(1), 5000);
    assert_eq!(r.unwrap_err(), Error::NothingToClaim);
    // the ledger is untouched
    assert_eq!(query_withdrawals(&state, &sender, None, None).0, 2);
}

#[test]
fn claim_with_empty_ledger_fails() {
    let mut state = initial_state(claim_config());
    let sender = "alice".to_string();
    let r = try_claim(&mut state, &sender, None, None, None, 5000);
    assert_eq!(r.unwrap_err(), Error::NothingToClaim);
}

#[test]
fn claim_with_no_matured_record_fails() {
    let mut state = state_with_records(vec![rec(10, MAX_UNIX_TIMESTAMP, 1)]);
    let sender = "alice".to_string();
    let r = try_claim(&mut state, &sender, None, None, None, 5000);
    assert_eq!(r.unwrap_err(), Error::NothingToClaim);
}

#[test]
fn claim_pays_the_alternate_recipient() {
    let mut state = state_with_records(vec![rec(10, 100, 1)]);
    let sender = "alice".to_string();
    let (amount, msgs) =
        try_claim(&mut state, &sender, Some("carol".to_string()), None, None, 5000).unwrap();
    assert_eq!(amount, 10);
    match &msgs[0] {
        Instruction::Send { to_address, amount } => {
            assert_eq!(to_address, "carol");
            assert_eq!(*amount, 10);
        }
        other => panic!("expected a transfer, got {:?}", other),
    }
}

#[test]
fn claim_default_limit_covers_fifty_records() {
    let mut records: Vec<UserWithdrawal> = Vec::new();
    for i in 0..60u64 {
        records.push(rec(1, 100, i));
    }
    let mut state = state_with_records(records);
    let sender = "alice".to_string();
    let (amount, _) = try_claim(&mut state, &sender, None, None, None, 5000).unwrap();
    assert_eq!(amount, 50);
    assert_eq!(query_withdrawals(&state, &sender, None, None).0, 10);
}
