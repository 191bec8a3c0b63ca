//! The state records the lottery works on: configuration, the supply pool's
//! accounting buckets, the active lottery window, per-user accounts and win
//! history. Every amount is in the token's minor units; addresses are plain
//! strings; times and block heights are the host's `u64` values.
use vstd::prelude::*;
use crate::arena::EntryIndex;

verus! {

/// Identity of an external contract: its address and code hash.
#[derive(Clone, Debug, PartialEq, Eq)]
pub struct SecretContract {
    pub address: String,
    pub contract_hash: String,
}

/// The static configuration, created once and mutated only by admin actions.
#[derive(Clone, Debug, PartialEq)]
pub struct Config {
    pub admin: String,
    pub triggerer: String,
    /// Fee share for the draw's triggerer; 100 stands for one percent
    /// (the fee is `prize * triggerer_share_percentage * 1_000_000 / 10_000_000_000`).
    pub triggerer_share_percentage: u64,
    pub token: SecretContract,
    pub staking_contract: SecretContract,
    pub viewing_key: String,
    /// Hash of the init-time secret; immutable seed of every draw.
    pub prng_seed: Vec<u8>,
    pub is_stopped: bool,
    pub is_stopped_can_withdraw: bool,
    pub own_addr: String,
}

/// The active lottery window and the entropy accumulator.
#[derive(Clone, Debug, PartialEq)]
pub struct Lottery {
    pub entropy: Vec<u8>,
    pub seed: Vec<u8>,
    pub duration: u64,
    pub start_time: u64,
    pub end_time: u64,
}

/// One record of the global win log: amount won and the block time.
#[derive(Clone, Copy, Debug, PartialEq, Eq, Structural)]
pub struct LastLotteryResults {
    pub winning_amount: u64,
    pub time: u64,
}

/// The supply pool's four buckets. `total_tokens_staked` is user principal
/// forwarded to the yield source; `total_rewards_restaked` is yield already
/// pulled and re-forwarded; `pending_staking_rewards` is yield last observed
/// at the source but not yet pulled; `triggering_cost` is the accrued draw fee.
#[derive(Clone, Copy, Debug, PartialEq, Eq, Structural)]
pub struct SupplyPool {
    pub total_tokens_staked: u128,
    pub total_rewards_restaked: u128,
    pub pending_staking_rewards: u128,
    pub triggering_cost: u128,
}

/// One user's account. `entry_index` lists the user's live ledger slots in
/// insertion order; withdrawals consume them front to back.
#[derive(Clone, Debug, PartialEq)]
pub struct UserInfo {
    pub amount_delegated: u128,
    pub available_tokens_for_withdraw: u128,
    pub total_won: u128,
    pub entries: Vec<(u128, u64)>,
    pub entry_index: Vec<EntryIndex>,
}

/// One record of a user's win log.
#[derive(Clone, Copy, Debug, PartialEq, Eq, Structural)]
pub struct UserWinningHistory {
    pub winning_amount: u64,
    pub time: u64,
}

/// One live stake entry: who deposited, how much, and when.
#[derive(Clone, Debug, PartialEq)]
pub struct LotteryEntries {
    pub user_address: String,
    pub amount: u128,
    pub entry_time: u64,
}

} // verus!
