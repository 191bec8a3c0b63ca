//! The contract-level scenarios: deposits, withdrawal triggers, draws,
//! lifecycle transitions and queries, each against an in-memory pool with the
//! yield source reporting a pending reward of 1000 on every observation.
use lottery_pool::contract::{
    init, deposit, trigger_withdraw, withdraw, claim_rewards, triggering_cost_withdraw,
    withdraw_excess, change_admin, change_triggerer, change_triggerer_share,
    change_lottery_duration, change_staking_contract, stop_contract, resume_contract,
    allow_withdraw_when_stopped, emergency_redeem_from_staking, redelegate_to_contract,
    check_if_admin, check_if_triggerer, query_total_deposit, query_total_rewards, query_deposit,
    query_available_funds, query_past_results, query_all_past_results, query_user_past_records,
    PoolState,
};
use lottery_pool::msg::{ContractError, DrawOutcome};
use lottery_pool::state::{SecretContract, UserInfo};

/// The pending reward the mocked yield source reports on every query.
const MOCK_REWARDS: u128 = 1000;

fn init_helper() -> PoolState {
    init(
        Some("admin".to_string()),
        Some("triggerer".to_string()),
        "admin".to_string(),
        SecretContract { address: "sefi".to_string(), contract_hash: "".to_string() },
        SecretContract { address: "staking_contract".to_string(), contract_hash: "".to_string() },
        "123".to_string(),
        &"I'm Batman".as_bytes().to_vec(),
        "cosmos2contract".to_string(),
        100,
        0,
    )
}

fn deposit_helper(st: &mut PoolState, time: u64) {
    let sefi = "sefi".to_string();
    deposit(st, &sefi, &"Superman".to_string(), 1000000, time, MOCK_REWARDS).unwrap();
    deposit(st, &sefi, &"Spider-man".to_string(), 1000000, time, MOCK_REWARDS).unwrap();
    deposit(st, &sefi, &"Flash".to_string(), 1000000, time, MOCK_REWARDS).unwrap();
    deposit(st, &sefi, &"Batman".to_string(), 500000000, time, MOCK_REWARDS).unwrap();
    deposit(st, &sefi, &"Thor".to_string(), 1000000, time, MOCK_REWARDS).unwrap();
    deposit(st, &sefi, &"Captain_America".to_string(), 1000000, time, MOCK_REWARDS).unwrap();
    deposit(st, &sefi, &"Black-widow".to_string(), 1000000, time, MOCK_REWARDS).unwrap();
    deposit(st, &sefi, &"Ironman".to_string(), 1000000, time, MOCK_REWARDS).unwrap();
    deposit(st, &sefi, &"Loki".to_string(), 1000000, time, MOCK_REWARDS).unwrap();
    deposit(st, &sefi, &"Batman".to_string(), 500000000, time, MOCK_REWARDS).unwrap();
}

fn user_of(st: &PoolState, name: &str) -> UserInfo {
    st.users
        .items
        .iter()
        .find(|p| p.0 == name)
        .map(|p| p.1.clone())
        .unwrap_or(UserInfo {
            amount_delegated: 0,
            available_tokens_for_withdraw: 0,
            total_won: 0,
            entries: Vec::new(),
            entry_index: Vec::new(),
        })
}

fn occupied_count(st: &PoolState) -> usize {
    st.entries.slots.iter().filter(|s| s.value.is_some()).count()
}

#[test]
fn testing_deposit() {
    let mut st = init_helper();

    let r = deposit(&mut st, &"sef".to_string(), &"Batman".to_string(), 1000000, 0, MOCK_REWARDS);
    assert_eq!(r.unwrap_err(), ContractError::WrongToken);

    let r = deposit(&mut st, &"sefi".to_string(), &"Batman".to_string(), 1, 0, MOCK_REWARDS);
    assert_eq!(r.unwrap_err(), ContractError::DepositTooSmall);

    deposit(&mut st, &"sefi".to_string(), &"Batman".to_string(), 100000000, 0, MOCK_REWARDS)
        .unwrap();
    let user = user_of(&st, "Batman");
    assert_eq!(user.amount_delegated, 100000000);
    assert_eq!(user.available_tokens_for_withdraw, 0);

    assert_eq!(st.supply_pool.total_tokens_staked, 100000000);
    assert_eq!(st.supply_pool.pending_staking_rewards, 1000);
    assert_eq!(st.supply_pool.total_rewards_restaked, 0);

    deposit_helper(&mut st, 0);
    assert_eq!(occupied_count(&st), 11);
}

#[test]
fn test_trigger_withdraw() {
    let mut st = init_helper();
    deposit_helper(&mut st, 601);

    trigger_withdraw(&mut st, &"Batman".to_string(), Some(400000000), MOCK_REWARDS).unwrap();
    let user = user_of(&st, "Batman");
    assert_eq!(user.available_tokens_for_withdraw, 400000000);
    assert_eq!(user.entry_index.len(), 2);

    trigger_withdraw(&mut st, &"Batman".to_string(), Some(400000000), MOCK_REWARDS).unwrap();
    let user = user_of(&st, "Batman");
    assert_eq!(user.available_tokens_for_withdraw, 800000000);
    assert_eq!(user.entry_index.len(), 1);
}

#[test]
fn test_claim_rewards() {
    let mut st = init_helper();

    let early = claim_rewards(&mut st, &"triggerer".to_string(), 700, 700, MOCK_REWARDS);
    assert_eq!(early.unwrap_err(), ContractError::LotteryNotEnded);

    deposit_helper(&mut st, 0);
    let end_time = st.lottery.end_time;

    let outcome =
        claim_rewards(&mut st, &"triggerer".to_string(), end_time, end_time, MOCK_REWARDS)
            .unwrap();
    let winner = match outcome {
        DrawOutcome::Winner { winner, .. } => winner,
        _ => panic!("expected a winner"),
    };

    let user = user_of(&st, &winner);
    assert_eq!(user.available_tokens_for_withdraw, 10890);
    assert_eq!(user.total_won, 10890);

    assert_eq!(st.supply_pool.total_rewards_restaked, 0);
    assert_eq!(st.supply_pool.pending_staking_rewards, 0);
    assert_eq!(st.supply_pool.total_tokens_staked, 1008000000);
}

#[test]
fn test_withdraw() {
    let mut st = init_helper();
    deposit_helper(&mut st, 0);

    let user = user_of(&st, "Batman");
    assert_eq!(user.amount_delegated, 1000000000);

    trigger_withdraw(&mut st, &"Batman".to_string(), Some(1000000000), MOCK_REWARDS).unwrap();
    let r = withdraw(&mut st, &"Batman".to_string(), Some(10000000000));
    assert_eq!(r.unwrap_err(), ContractError::WithdrawTooMuchAvailable);

    let user = user_of(&st, "Batman");
    assert_eq!(user.amount_delegated, 0);
}

#[test]
fn testing_triggerer_withdraw_rewards() {
    let mut st = init_helper();
    let sefi = "sefi".to_string();
    deposit(&mut st, &sefi, &"batman".to_string(), 5000000000, 600, MOCK_REWARDS).unwrap();
    deposit(&mut st, &sefi, &"batman".to_string(), 5000000000, 600, MOCK_REWARDS).unwrap();

    let end_time = st.lottery.end_time;
    claim_rewards(&mut st, &"triggerer".to_string(), end_time, end_time, MOCK_REWARDS).unwrap();
    assert_eq!(st.supply_pool.triggering_cost, 30);

    triggering_cost_withdraw(&mut st, &"admin".to_string()).unwrap();
    assert_eq!(st.supply_pool.triggering_cost, 0);
}

#[test]
fn emergency_stoppage_route_one() {
    let mut st = init_helper();
    deposit_helper(&mut st, 0);

    trigger_withdraw(&mut st, &"Batman".to_string(), Some(1000000000), MOCK_REWARDS).unwrap();
    trigger_withdraw(&mut st, &"Superman".to_string(), Some(500000), MOCK_REWARDS).unwrap();

    let r = stop_contract(&mut st, &"haseeb".to_string());
    assert_eq!(r.unwrap_err(), ContractError::NotAdmin);
    stop_contract(&mut st, &"admin".to_string()).unwrap();

    let pending = st.supply_pool.pending_staking_rewards;
    emergency_redeem_from_staking(&mut st, &"admin".to_string(), MOCK_REWARDS).unwrap();
    assert_eq!(st.supply_pool.pending_staking_rewards, pending + 1000);

    let r = withdraw(&mut st, &"Batman".to_string(), Some(1000000000));
    assert_eq!(r.unwrap_err(), ContractError::ContractStopped);

    allow_withdraw_when_stopped(&mut st, &"admin".to_string()).unwrap();

    let r = withdraw(&mut st, &"Batman".to_string(), Some(10000000000));
    assert_eq!(r.unwrap_err(), ContractError::WithdrawTooMuchTotal);
    withdraw(&mut st, &"Batman".to_string(), Some(1000000000)).unwrap();
    let user = user_of(&st, "Batman");
    assert_eq!(user.amount_delegated, 0);
    assert_eq!(user.available_tokens_for_withdraw, 0);

    let r = withdraw(&mut st, &"Superman".to_string(), Some(10000000000));
    assert_eq!(r.unwrap_err(), ContractError::WithdrawTooMuchTotal);
    withdraw(&mut st, &"Superman".to_string(), Some(1000000)).unwrap();
    let user = user_of(&st, "Superman");
    assert_eq!(user.amount_delegated, 0);
    assert_eq!(user.available_tokens_for_withdraw, 0);

    let r = withdraw(&mut st, &"Spider-man".to_string(), Some(10000000000));
    assert_eq!(r.unwrap_err(), ContractError::WithdrawTooMuchTotal);
    withdraw(&mut st, &"Spider-man".to_string(), Some(1000000)).unwrap();
    let user = user_of(&st, "Spider-man");
    assert_eq!(user.amount_delegated, 0);
    assert_eq!(user.available_tokens_for_withdraw, 0);

    let r = withdraw_excess(&mut st, &"non-admin".to_string());
    assert_eq!(r.unwrap_err(), ContractError::NotAdmin);

    assert_eq!(st.supply_pool.pending_staking_rewards, 4000);
    assert_eq!(st.supply_pool.total_rewards_restaked, 9000);

    withdraw_excess(&mut st, &"admin".to_string()).unwrap();
    assert_eq!(st.supply_pool.pending_staking_rewards, 0);
    assert_eq!(st.supply_pool.total_rewards_restaked, 0);
}

#[test]
fn emergency_stoppage_route_two() {
    let mut st = init_helper();
    deposit_helper(&mut st, 0);

    trigger_withdraw(&mut st, &"Batman".to_string(), Some(1000000000), MOCK_REWARDS).unwrap();
    trigger_withdraw(&mut st, &"Superman".to_string(), Some(500000), MOCK_REWARDS).unwrap();

    let r = stop_contract(&mut st, &"haseeb".to_string());
    assert_eq!(r.unwrap_err(), ContractError::NotAdmin);
    stop_contract(&mut st, &"admin".to_string()).unwrap();

    let pending = st.supply_pool.pending_staking_rewards;
    emergency_redeem_from_staking(&mut st, &"admin".to_string(), MOCK_REWARDS).unwrap();
    assert_eq!(st.supply_pool.pending_staking_rewards, pending + 1000);

    let r = change_staking_contract(
        &mut st,
        &"non-admin".to_string(),
        "staking_contract".to_string(),
        "".to_string(),
    );
    assert_eq!(r.unwrap_err(), ContractError::NotAdmin);

    change_staking_contract(
        &mut st,
        &"admin".to_string(),
        "new_staking_contract".to_string(),
        "".to_string(),
    )
    .unwrap();
    assert_eq!(st.config.staking_contract.address, "new_staking_contract".to_string());

    let r = redelegate_to_contract(&mut st, &"non-admin".to_string(), MOCK_REWARDS);
    assert_eq!(r.unwrap_err(), ContractError::NotAdmin);
    assert_eq!(st.supply_pool.pending_staking_rewards, 4000);

    redelegate_to_contract(&mut st, &"admin".to_string(), MOCK_REWARDS).unwrap();

    let r = resume_contract(&mut st, &"non-admin".to_string());
    assert_eq!(r.unwrap_err(), ContractError::NotAdmin);
    resume_contract(&mut st, &"admin".to_string()).unwrap();

    let r = withdraw(&mut st, &"Batman".to_string(), Some(10000000000));
    assert_eq!(r.unwrap_err(), ContractError::WithdrawTooMuchAvailable);
    withdraw(&mut st, &"Batman".to_string(), Some(1000000000)).unwrap();
    let user = user_of(&st, "Batman");
    assert_eq!(user.amount_delegated, 0);
    assert_eq!(user.available_tokens_for_withdraw, 0);

    let r = withdraw(&mut st, &"Superman".to_string(), Some(10000000000));
    assert_eq!(r.unwrap_err(), ContractError::WithdrawTooMuchAvailable);
    withdraw(&mut st, &"Superman".to_string(), Some(500000)).unwrap();
    let user = user_of(&st, "Superman");
    assert_eq!(user.amount_delegated, 500000);
    assert_eq!(user.available_tokens_for_withdraw, 0);
}

#[test]
fn test_change_admin_triggerer() {
    let mut st = init_helper();

    let r = check_if_admin(&st.config, &"not-admin".to_string());
    assert_eq!(r.unwrap_err(), ContractError::NotAdmin);
    assert_eq!(check_if_admin(&st.config, &"admin".to_string()), Ok(()));

    let r = check_if_triggerer(&st.config, &"not-triggerer".to_string());
    assert_eq!(r.unwrap_err(), ContractError::NotTriggerer);
    assert_eq!(check_if_triggerer(&st.config, &"triggerer".to_string()), Ok(()));

    let r = change_admin(&mut st, &"not-admin".to_string(), "triggerer".to_string());
    assert_eq!(r.unwrap_err(), ContractError::NotAdmin);

    change_admin(&mut st, &"admin".to_string(), "someone".to_string()).unwrap();
    assert_eq!(st.config.admin, "someone".to_string());

    let r = change_admin(&mut st, &"not-admin".to_string(), "triggerer".to_string());
    assert_eq!(r.unwrap_err(), ContractError::NotAdmin);

    change_triggerer(&mut st, &"someone".to_string(), "someone".to_string()).unwrap();
    assert_eq!(st.config.triggerer, "someone".to_string());
}

#[test]
fn test_checking_contract_status() {
    let mut st = init_helper();
    deposit(&mut st, &"sefi".to_string(), &"Batman".to_string(), 500000000, 600, MOCK_REWARDS)
        .unwrap();

    let _ = stop_contract(&mut st, &"admin".to_string());
    let _ = trigger_withdraw(&mut st, &"Batman".to_string(), Some(500000000), MOCK_REWARDS);
    let _ = stop_contract(&mut st, &"Batman".to_string());
    let _ = trigger_withdraw(&mut st, &"Batman".to_string(), Some(500000000), MOCK_REWARDS);
    let _ = stop_contract(&mut st, &"admin".to_string());
    let _ = resume_contract(&mut st, &"admin".to_string());
    let _ = withdraw(&mut st, &"Batman".to_string(), Some(500000000));
}

#[test]
fn testing_change_triggerer_share() {
    let mut st = init_helper();
    let sefi = "sefi".to_string();
    deposit(&mut st, &sefi, &"batman".to_string(), 5000000000, 600, MOCK_REWARDS).unwrap();
    deposit(&mut st, &sefi, &"batman".to_string(), 5000000000, 600, MOCK_REWARDS).unwrap();

    change_triggerer_share(&mut st, &"admin".to_string(), 200).unwrap();
    let end_time = st.lottery.end_time;
    claim_rewards(&mut st, &"triggerer".to_string(), end_time, end_time, MOCK_REWARDS).unwrap();

    assert_eq!(st.supply_pool.triggering_cost, 60);
}

#[test]
fn testing_change_lottery_duration() {
    let mut st = init_helper();
    let sefi = "sefi".to_string();
    deposit(&mut st, &sefi, &"batman".to_string(), 5000000000, 0, MOCK_REWARDS).unwrap();
    deposit(&mut st, &sefi, &"batman".to_string(), 5000000000, 0, MOCK_REWARDS).unwrap();

    change_lottery_duration(&mut st, &"admin".to_string(), 100).unwrap();
    assert_eq!(st.lottery.duration, 100);

    let lottery_end = st.lottery.end_time;
    claim_rewards(&mut st, &"triggerer".to_string(), lottery_end, lottery_end, MOCK_REWARDS)
        .unwrap();
    assert_eq!(st.lottery.start_time, lottery_end);
    assert_eq!(st.lottery.end_time, lottery_end + 100);
}

#[test]
fn test_query_lottery() {
    let st = init_helper();
    assert_eq!(st.lottery.start_time, 0);
    assert_eq!(st.lottery.end_time, 86400);
    assert_eq!(st.lottery.duration, 86400);
    assert!(!st.config.is_stopped);
    assert!(!st.config.is_stopped_can_withdraw);
}

#[test]
fn test_available_funds() {
    let mut st = init_helper();
    deposit(&mut st, &"sefi".to_string(), &"batman".to_string(), 5000000000, 601, MOCK_REWARDS)
        .unwrap();

    let balance = query_available_funds(&st, &"batman".to_string());
    assert_eq!(balance, 0);

    stop_contract(&mut st, &"admin".to_string()).unwrap();
    allow_withdraw_when_stopped(&mut st, &"admin".to_string()).unwrap();

    let balance = query_available_funds(&st, &"batman".to_string());
    assert_eq!(balance, 5000000000);
}

#[test]
fn test_query_total_rewards() {
    let mut st = init_helper();
    deposit_helper(&mut st, 601);
    let total = query_total_rewards(&st, MOCK_REWARDS);
    assert_eq!(total, 1000 + st.supply_pool.total_rewards_restaked
        + st.supply_pool.pending_staking_rewards);
}

#[test]
fn test_query_total_deposits() {
    let mut st = init_helper();
    deposit_helper(&mut st, 601);
    assert_eq!(query_total_deposit(&st), 1008000000);
}

#[test]
fn test_query_past_results() {
    let mut st = init_helper();
    deposit(&mut st, &"sefi".to_string(), &"Batman".to_string(), 50000000, 1, MOCK_REWARDS)
        .unwrap();

    let end = st.lottery.end_time;
    let dur = st.lottery.duration;
    let trig = "triggerer".to_string();
    let _ = claim_rewards(&mut st, &trig, end, end, MOCK_REWARDS);
    let _ = claim_rewards(&mut st, &trig, end + dur, end + dur, MOCK_REWARDS);
    let _ = claim_rewards(&mut st, &trig, end + 2 * dur, end + 2 * dur, MOCK_REWARDS);
    let _ = claim_rewards(&mut st, &trig, end + 3 * dur, end + 3 * dur, MOCK_REWARDS);

    let recent = query_past_results(&st);
    let all = query_all_past_results(&st);
    assert_eq!(all.len(), 4);
    assert_eq!(recent.len(), 4);
    // most recent first in the bounded view, oldest first in the full view
    assert_eq!(recent[0], all[3]);
    assert_eq!(recent[3], all[0]);
}

#[test]
fn test_authenticated_queries() {
    let mut st = init_helper();
    deposit(&mut st, &"sefi".to_string(), &"batman".to_string(), 5000000000, 601, MOCK_REWARDS)
        .unwrap();
    let balance = query_deposit(&st, &"batman".to_string());
    assert_eq!(balance, 5000000000);
    assert_eq!(query_deposit(&st, &"nobody".to_string()), 0);
}

#[test]
fn test_user_past_records() {
    let mut st = init_helper();
    deposit(&mut st, &"sefi".to_string(), &"batman".to_string(), 5000000000, 600, MOCK_REWARDS)
        .unwrap();

    claim_rewards(&mut st, &"triggerer".to_string(), 1000000, 1000000, MOCK_REWARDS).unwrap();

    let records = query_user_past_records(&st, &"batman".to_string());
    assert_eq!(records.len(), 1);
    let won = user_of(&st, "batman").total_won;
    assert_eq!(records[0].0 as u128, won);
    assert_eq!(records[0].1, 1000000);
}
