//! Scenario tests for the pool's standing properties: conservation, the
//! minimum deposit, oldest-first withdrawal consumption, deterministic and
//! degenerate draws, fee scaling and lifecycle gating — plus checks of the
//! padding and hashing helpers against known values.
use lottery_pool::contract::{
    init, deposit, trigger_withdraw, claim_rewards, stop_contract, resume_contract,
    triggering_cost_withdraw, change_triggerer_share, validate_start_time, validate_end_time,
    PoolState,
};
use lottery_pool::msg::{space_pad, ContractError, DrawOutcome};
use lottery_pool::state::SecretContract;
use lottery_pool::utils::{ct_slice_compare, create_hashed_password};

const MOCK_REWARDS: u128 = 1000;

fn fresh_pool() -> PoolState {
    init(
        Some("admin".to_string()),
        Some("triggerer".to_string()),
        "admin".to_string(),
        SecretContract { address: "sefi".to_string(), contract_hash: "".to_string() },
        SecretContract { address: "staking_contract".to_string(), contract_hash: "".to_string() },
        "123".to_string(),
        &"I'm Batman".as_bytes().to_vec(),
        "cosmos2contract".to_string(),
        100,
        0,
    )
}

fn ledger_total(st: &PoolState) -> u128 {
    st.entries
        .slots
        .iter()
        .map(|s| s.value.as_ref().map(|e| e.amount).unwrap_or(0))
        .sum()
}

fn delegated_total(st: &PoolState) -> u128 {
    st.users.items.iter().map(|p| p.1.amount_delegated).sum()
}

#[test]
fn conservation_across_deposits_and_triggers() {
    let mut st = fresh_pool();
    let sefi = "sefi".to_string();
    deposit(&mut st, &sefi, &"alice".to_string(), 2000000, 10, MOCK_REWARDS).unwrap();
    deposit(&mut st, &sefi, &"bob".to_string(), 7000000, 20, MOCK_REWARDS).unwrap();
    deposit(&mut st, &sefi, &"alice".to_string(), 3000000, 30, MOCK_REWARDS).unwrap();
    trigger_withdraw(&mut st, &"alice".to_string(), Some(2500000), MOCK_REWARDS).unwrap();
    deposit(&mut st, &sefi, &"carol".to_string(), 1000000, 40, MOCK_REWARDS).unwrap();
    trigger_withdraw(&mut st, &"bob".to_string(), None, MOCK_REWARDS).unwrap();

    let staked = st.supply_pool.total_tokens_staked;
    assert_eq!(ledger_total(&st), staked);
    assert_eq!(delegated_total(&st), staked);
    assert_eq!(staked, 2000000 + 3000000 + 1000000 - 2500000);
}

#[test]
fn minimum_deposit_boundary() {
    let mut st = fresh_pool();
    let sefi = "sefi".to_string();
    let r = deposit(&mut st, &sefi, &"alice".to_string(), 999999, 0, MOCK_REWARDS);
    assert_eq!(r.unwrap_err(), ContractError::DepositTooSmall);
    let r = deposit(&mut st, &sefi, &"alice".to_string(), 1000000, 0, MOCK_REWARDS);
    assert!(r.is_ok());
}

#[test]
fn fifo_consumption_order() {
    let mut st = fresh_pool();
    let sefi = "sefi".to_string();
    let alice = "alice".to_string();
    deposit(&mut st, &sefi, &alice, 1000000, 0, MOCK_REWARDS).unwrap();
    deposit(&mut st, &sefi, &alice, 500000000, 1, MOCK_REWARDS).unwrap();

    let user = st.users.items.iter().find(|p| p.0 == "alice").unwrap().1.clone();
    assert_eq!(user.entry_index.len(), 2);
    let first = user.entry_index[0];
    let second = user.entry_index[1];

    trigger_withdraw(&mut st, &alice, Some(400000000), MOCK_REWARDS).unwrap();

    let user = st.users.items.iter().find(|p| p.0 == "alice").unwrap().1.clone();
    assert_eq!(user.entry_index.len(), 1);
    assert_eq!(user.entry_index[0], second);
    // the oldest entry is fully vacated
    assert!(st.entries.slots[first.slot].value.is_none());
    // the newer one is reduced in place by the remainder
    let remaining = st.entries.slots[second.slot].value.as_ref().unwrap();
    assert_eq!(remaining.amount, 500000000 - (400000000 - 1000000));

    // consuming the rest exactly vacates everything and drops every reference
    trigger_withdraw(&mut st, &alice, None, MOCK_REWARDS).unwrap();
    let user = st.users.items.iter().find(|p| p.0 == "alice").unwrap().1.clone();
    assert_eq!(user.entry_index.len(), 0);
    assert_eq!(user.amount_delegated, 0);
    assert!(st.entries.slots[second.slot].value.is_none());
}

#[test]
fn deterministic_draw() {
    let run = || {
        let mut st = fresh_pool();
        let sefi = "sefi".to_string();
        deposit(&mut st, &sefi, &"alice".to_string(), 2000000, 10, MOCK_REWARDS).unwrap();
        deposit(&mut st, &sefi, &"bob".to_string(), 7000000, 20, MOCK_REWARDS).unwrap();
        deposit(&mut st, &sefi, &"carol".to_string(), 3000000, 30, MOCK_REWARDS).unwrap();
        let end = st.lottery.end_time;
        claim_rewards(&mut st, &"triggerer".to_string(), end, end, MOCK_REWARDS).unwrap()
    };
    let first = run();
    let second = run();
    assert_eq!(first, second);
    assert!(matches!(first, DrawOutcome::Winner { .. }));
}

#[test]
fn degenerate_draws_do_not_error() {
    // empty entry set
    let mut st = fresh_pool();
    let end = st.lottery.end_time;
    let outcome = claim_rewards(&mut st, &"triggerer".to_string(), end, end, 0).unwrap();
    assert_eq!(outcome, DrawOutcome::NoEntries);
    assert_eq!(st.lottery.start_time, end);
    assert_eq!(st.lottery.end_time, end + st.lottery.duration);

    // every weight zero: the only entry was registered after the window closed
    let mut st = fresh_pool();
    let end = st.lottery.end_time;
    deposit(&mut st, &"sefi".to_string(), &"late".to_string(), 5000000, end + 3600, MOCK_REWARDS)
        .unwrap();
    let now = end + 3600;
    let outcome = claim_rewards(&mut st, &"triggerer".to_string(), now, now, MOCK_REWARDS)
        .unwrap();
    assert_eq!(outcome, DrawOutcome::AllZeroWeight);
    assert_eq!(st.lottery.start_time, now);
    assert_eq!(st.lottery.end_time, now + st.lottery.duration);
    // no payout was carved out of the pool
    assert_eq!(st.supply_pool.triggering_cost, 0);
    assert_eq!(st.supply_pool.pending_staking_rewards, 1000);
}

#[test]
fn zero_weight_entry_never_wins() {
    let mut st = fresh_pool();
    let sefi = "sefi".to_string();
    let end = st.lottery.end_time;
    // first entry registered after the close: weight zero despite its size
    deposit(&mut st, &sefi, &"late".to_string(), 900000000, end + 10, MOCK_REWARDS).unwrap();
    // second entry present the whole window: full weight
    deposit(&mut st, &sefi, &"early".to_string(), 1000000, 0, MOCK_REWARDS).unwrap();
    let now = end + 10;
    let outcome = claim_rewards(&mut st, &"triggerer".to_string(), now, now, MOCK_REWARDS)
        .unwrap();
    match outcome {
        DrawOutcome::Winner { winner, .. } => assert_eq!(winner, "early"),
        other => panic!("expected a winner, got {:?}", other),
    }
}

#[test]
fn fee_scaling_unit_share() {
    let mut st = fresh_pool();
    change_triggerer_share(&mut st, &"admin".to_string(), 1).unwrap();
    deposit(&mut st, &"sefi".to_string(), &"alice".to_string(), 1000000, 0, 0).unwrap();
    let end = st.lottery.end_time;
    // a computed prize of exactly 1,000,000 minor units
    let outcome = claim_rewards(&mut st, &"triggerer".to_string(), end, end, 1000000).unwrap();
    // fee = 1_000_000 * (1 * 1_000_000) / 10_000_000_000 = 100
    assert_eq!(st.supply_pool.triggering_cost, 100);
    match outcome {
        DrawOutcome::Winner { amount_won, .. } => assert_eq!(amount_won, 1000000 - 100),
        other => panic!("expected a winner, got {:?}", other),
    }
}

#[test]
fn lifecycle_gating() {
    let mut st = fresh_pool();
    let sefi = "sefi".to_string();
    let alice = "alice".to_string();
    deposit(&mut st, &sefi, &alice, 5000000, 0, MOCK_REWARDS).unwrap();

    stop_contract(&mut st, &"admin".to_string()).unwrap();

    let r = deposit(&mut st, &sefi, &alice, 5000000, 1, MOCK_REWARDS);
    assert_eq!(r.unwrap_err(), ContractError::ContractStopped);
    let r = trigger_withdraw(&mut st, &alice, Some(1000000), MOCK_REWARDS);
    assert_eq!(r.unwrap_err(), ContractError::ContractStopped);
    let r = claim_rewards(&mut st, &"triggerer".to_string(), 90000, 90000, MOCK_REWARDS);
    assert_eq!(r.unwrap_err(), ContractError::ContractStopped);

    resume_contract(&mut st, &"admin".to_string()).unwrap();

    assert!(deposit(&mut st, &sefi, &alice, 5000000, 1, MOCK_REWARDS).is_ok());
    assert!(trigger_withdraw(&mut st, &alice, Some(1000000), MOCK_REWARDS).is_ok());
}

#[test]
fn error_conditions() {
    let mut st = fresh_pool();

    // no stake to trigger
    let r = trigger_withdraw(&mut st, &"nobody".to_string(), None, MOCK_REWARDS);
    assert_eq!(r.unwrap_err(), ContractError::NoStake);

    deposit(&mut st, &"sefi".to_string(), &"alice".to_string(), 1000000, 0, 0).unwrap();

    // more than staked
    let r = trigger_withdraw(&mut st, &"alice".to_string(), Some(2000000), MOCK_REWARDS);
    assert_eq!(r.unwrap_err(), ContractError::WithdrawTooMuchStaked);

    // nothing available to withdraw
    let r = lottery_pool::contract::withdraw(&mut st, &"alice".to_string(), None);
    assert_eq!(r.unwrap_err(), ContractError::NoTokensAvailable);

    // a draw by someone who is not the triggerer
    let end = st.lottery.end_time;
    let r = claim_rewards(&mut st, &"alice".to_string(), end, end, 0);
    assert_eq!(r.unwrap_err(), ContractError::NotTriggerer);

    // a draw whose prize is zero changes nothing and fails
    let r = claim_rewards(&mut st, &"triggerer".to_string(), end, end, 0);
    assert_eq!(r.unwrap_err(), ContractError::NoRewardsAvailable);
    assert_eq!(st.lottery.end_time, end);

    // a fee withdrawal with nothing accrued
    let r = triggering_cost_withdraw(&mut st, &"admin".to_string());
    assert_eq!(r.unwrap_err(), ContractError::TriggerShareNotSufficient);

    // resuming a running pool
    let r = resume_contract(&mut st, &"admin".to_string());
    assert_eq!(r.unwrap_err(), ContractError::ActionUnavailable);

    // the window validators
    assert_eq!(validate_start_time(100, 50).unwrap_err(), ContractError::LotteryInFuture);
    assert_eq!(validate_end_time(100, 50).unwrap_err(), ContractError::LotteryNotEnded);
    assert!(validate_start_time(100, 100).is_ok());
    assert!(validate_end_time(100, 100).is_ok());
}

#[test]
fn space_pad_pads_to_block() {
    let mut msg: Vec<u8> = b"hello".to_vec();
    space_pad(256, &mut msg);
    assert_eq!(msg.len(), 256);
    assert_eq!(&msg[..5], b"hello");
    assert!(msg[5..].iter().all(|&b| b == b' '));

    let mut exact: Vec<u8> = vec![7u8; 256];
    space_pad(256, &mut exact);
    assert_eq!(exact.len(), 256);
    assert!(exact.iter().all(|&b| b == 7));

    let mut empty: Vec<u8> = Vec::new();
    space_pad(256, &mut empty);
    assert_eq!(empty.len(), 0);
}

#[test]
fn ct_slice_compare_matches_equality() {
    assert!(ct_slice_compare(b"same bytes", b"same bytes"));
    assert!(!ct_slice_compare(b"same bytes", b"same bytez"));
    assert!(!ct_slice_compare(b"short", b"longer slice"));
    assert!(ct_slice_compare(b"", b""));
}

#[test]
fn hashed_password_is_sha256() {
    // SHA-256("abc")
    let expected: [u8; 32] = [
        0xba, 0x78, 0x16, 0xbf, 0x8f, 0x01, 0xcf, 0xea, 0x41, 0x41, 0x40, 0xde, 0x5d, 0xae, 0x22,
        0x23, 0xb0, 0x03, 0x61, 0xa3, 0x96, 0x17, 0x7a, 0x9c, 0xb4, 0x10, 0xff, 0x61, 0xf2, 0x00,
        0x15, 0xad,
    ];
    let hashed = create_hashed_password("abc");
    assert_eq!(hashed.as_slice(), &expected);
    // same input, same hash; the raw password never comes back
    assert_eq!(create_hashed_password("abc"), hashed);
    assert_ne!(create_hashed_password("abd"), hashed);
    assert_eq!(hashed.len(), 32);
}
