//! The lottery's operations. Every operation takes the whole pool state and
//! plain values (the caller, amounts, the block time and height, and the
//! yield source's last observed pending reward) and returns plain values; a
//! call that returns an error leaves the state exactly as it was, mirroring
//! the host's whole-call rollback.
use vstd::prelude::*;
use crate::state::{
    Config, SecretContract, SupplyPool, Lottery, UserInfo, UserWinningHistory, LastLotteryResults,
    LotteryEntries,
};
use crate::arena::{
    EntryArena, EntryIndex, Slot, valid_in, entry_in, idx_sum, slots_total, occupied_seq,
    fifo_removed, fifo_residual, lemma_idx_sum_le_total, lemma_idx_sum_congruence,
    lemma_idx_sum_push, lemma_idx_sum_nonneg, lemma_fifo_props, lemma_occupied_sum,
    lemma_idx_sum_split,
};
use crate::users::{UserStore, AccountView, account_of, empty_account, default_user};
use crate::msg::{ContractError, DrawOutcome};
use crate::rng::{sha256, sha256_of, pick_weighted, weighted_choice, weight_measure};
use crate::sums::sum_by;

verus! {

/// The smallest deposit the pool accepts, in minor units.
pub const MINIMUM_DEPOSIT: u128 = 1000000;

/// The lottery window a fresh pool starts with, in seconds.
pub const INITIAL_DURATION: u64 = 86400;

/// The whole persistent state of the pool.
pub struct PoolState {
    pub config: Config,
    pub supply_pool: SupplyPool,
    pub lottery: Lottery,
    pub entries: EntryArena,
    pub users: UserStore,
    /// Per-user win log: one `(winner, record)` pair per win, in order.
    pub user_history: Vec<(String, UserWinningHistory)>,
    /// Global win log, in order.
    pub last_lottery_results: Vec<LastLotteryResults>,
}

/// The win records of one user, in the order they were appended.
pub open spec fn records_of(items: Seq<(String, UserWinningHistory)>, a: Seq<char>) -> Seq<
    UserWinningHistory,
>
    decreases items.len(),
{
    if items.len() == 0 {
        Seq::empty()
    } else if items[0].0@ == a {
        seq![items[0].1] + records_of(items.skip(1), a)
    } else {
        records_of(items.skip(1), a)
    }
}

pub proof fn lemma_records_push(items: Seq<(String, UserWinningHistory)>, p: (String, UserWinningHistory), a: Seq<char>)
    ensures
        records_of(items.push(p), a) == if p.0@ == a {
            records_of(items, a).push(p.1)
        } else {
            records_of(items, a)
        },
    decreases items.len(),
{
    if items.len() == 0 {
        assert(items.push(p).skip(1) =~= Seq::<(String, UserWinningHistory)>::empty());
        assert(records_of(Seq::<(String, UserWinningHistory)>::empty(), a) == Seq::<
            UserWinningHistory,
        >::empty());
        assert(items.push(p)[0] == p);
        if p.0@ == a {
            assert(records_of(items.push(p), a) =~= records_of(items, a).push(p.1));
        }
    } else {
        assert(items.push(p).skip(1) =~= items.skip(1).push(p));
        lemma_records_push(items.skip(1), p, a);
        assert(items.push(p)[0] == items[0]);
        if items[0].0@ == a {
            assert(records_of(items.push(p), a) == seq![items[0].1] + records_of(
                items.skip(1).push(p),
                a,
            ));
            assert(records_of(items, a) == seq![items[0].1] + records_of(items.skip(1), a));
            if p.0@ == a {
                assert(records_of(items.push(p), a) =~= records_of(items, a).push(p.1));
            }
        } else {
            assert(records_of(items.push(p), a) == records_of(items.skip(1).push(p), a));
            assert(records_of(items, a) == records_of(items.skip(1), a));
        }
    }
}

/// The account's entry references are live ledger slots owned by this
/// address, no slot is referenced twice, and they hold at least the account's
/// delegated principal.
pub open spec fn user_entries_ok(slots: Seq<Slot>, addr: Seq<char>, acct: AccountView) -> bool {
    &&& forall|k: int| 0 <= k < acct.entry_index.len() ==> valid_in(
        slots,
        #[trigger] acct.entry_index[k],
    ) && entry_in(slots, acct.entry_index[k]).user_address@ == addr
    &&& forall|k1: int, k2: int| 0 <= k1 < k2 < acct.entry_index.len() ==> (
    #[trigger] acct.entry_index[k1]).slot != (#[trigger] acct.entry_index[k2]).slot
    &&& acct.delegated <= idx_sum(slots, acct.entry_index)
}

pub open spec fn accounts_ok(state: PoolState) -> bool {
    forall|a: Seq<char>| user_entries_ok(state.entries.slots@, a, #[trigger] state.users.account(a))
}

/// Two different addresses never reference the same ledger slot.
pub open spec fn accounts_disjoint(state: PoolState) -> bool {
    forall|a1: Seq<char>, a2: Seq<char>, k1: int, k2: int|
        a1 != a2 && 0 <= k1 < state.users.account(a1).entry_index.len() && 0 <= k2
            < state.users.account(a2).entry_index.len() ==> (#[trigger] state.users.account(
            a1,
        ).entry_index[k1]).slot != (#[trigger] state.users.account(a2).entry_index[k2]).slot
}

/// The structural invariant every operation preserves. The staked bucket
/// mirrors the ledger's total; each account's delegated principal is covered
/// by its own live entries.
pub open spec fn well_formed(state: PoolState) -> bool {
    &&& state.users.keys_unique()
    &&& state.lottery.duration >= 1
    &&& state.supply_pool.total_tokens_staked as int == state.entries.total_amount()
    &&& accounts_ok(state)
    &&& accounts_disjoint(state)
}

/// Strict conservation: all delegated principal together equals what the
/// ledger holds, which in turn is the staked bucket. It holds from
/// initialization through every deposit, withdrawal trigger and draw, and is
/// deliberately given up only by withdrawals from a stopped pool.
pub open spec fn conserved(state: PoolState) -> bool {
    state.users.delegated_total() == state.entries.total_amount()
}

pub fn is_admin(config: &Config, account: &String) -> (r: bool)
    ensures
        r == (config.admin@ == account@),
{
    config.admin == *account
}

pub fn check_if_admin(config: &Config, account: &String) -> (r: Result<(), ContractError>)
    ensures
        r is Ok <==> config.admin@ == account@,
        r is Err ==> r->Err_0 == ContractError::NotAdmin,
{
    if !is_admin(config, account) {
        return Err(ContractError::NotAdmin);
    }
    Ok(())
}

pub fn is_triggerer(config: &Config, account: &String) -> (r: bool)
    ensures
        r == (config.triggerer@ == account@),
{
    config.triggerer == *account
}

pub fn check_if_triggerer(config: &Config, account: &String) -> (r: Result<(), ContractError>)
    ensures
        r is Ok <==> config.triggerer@ == account@,
        r is Err ==> r->Err_0 == ContractError::NotTriggerer,
{
    if !is_triggerer(config, account) {
        return Err(ContractError::NotTriggerer);
    }
    Ok(())
}

/// Rejects a draw before the window has opened (defends against clock skew at
/// window creation).
pub fn validate_start_time(start_time: u64, current_time: u64) -> (r: Result<(), ContractError>)
    ensures
        r is Ok <==> current_time >= start_time,
        r is Err ==> r->Err_0 == ContractError::LotteryInFuture,
{
    if current_time < start_time {
        Err(ContractError::LotteryInFuture)
    } else {
        Ok(())
    }
}

/// Rejects a draw before the window has closed.
pub fn validate_end_time(end_time: u64, current_time: u64) -> (r: Result<(), ContractError>)
    ensures
        r is Ok <==> current_time >= end_time,
        r is Err ==> r->Err_0 == ContractError::LotteryNotEnded,
{
    if current_time < end_time {
        Err(ContractError::LotteryNotEnded)
    } else {
        Ok(())
    }
}

/// Whether an amount meets the minimum deposit.
pub fn valid_amount(amt: u128) -> (r: bool)
    ensures
        r == (amt >= MINIMUM_DEPOSIT),
{
    amt >= MINIMUM_DEPOSIT
}

/// An owned copy of a byte vector.
fn copy_bytes(v: &Vec<u8>) -> (r: Vec<u8>)
    ensures
        r@ == v@,
{
    let mut r: Vec<u8> = Vec::new();
    let n = v.len();
    let mut i: usize = 0;
    while i < n
        invariant
            n == v@.len(),
            i <= n,
            r@ == v@.take(i as int),
        decreases n - i,
    {
        r.push(v[i]);
        proof {
            assert(r@ =~= v@.take(i as int + 1));
        }
        i = i + 1;
    }
    proof {
        assert(v@.take(n as int) =~= v@);
    }
    r
}

/// Create the pool: configuration from the init message (admin and triggerer
/// default to the sender), an empty ledger and supply pool, and a first
/// lottery window of a day starting now. The init-time secret is hashed once
/// and serves as both the immutable seed and the initial entropy.
pub fn init(
    admin: Option<String>,
    triggerer: Option<String>,
    sender: String,
    token: SecretContract,
    staking_contract: SecretContract,
    viewing_key: String,
    prng_seed: &Vec<u8>,
    own_addr: String,
    triggerer_share_percentage: u64,
    time: u64,
) -> (state: PoolState)
    requires
        time + INITIAL_DURATION <= u64::MAX,
    ensures
        well_formed(state),
        conserved(state),
        state.config.admin@ == (match admin {
            Some(a) => a@,
            None => sender@,
        }),
        state.config.triggerer@ == (match triggerer {
            Some(t) => t@,
            None => sender@,
        }),
        state.config.triggerer_share_percentage == triggerer_share_percentage,
        state.config.token == token,
        state.config.staking_contract == staking_contract,
        state.config.viewing_key == viewing_key,
        state.config.own_addr == own_addr,
        state.config.prng_seed@ == sha256_of(prng_seed@),
        !state.config.is_stopped,
        !state.config.is_stopped_can_withdraw,
        state.lottery.seed@ == sha256_of(prng_seed@),
        state.lottery.entropy@ == sha256_of(prng_seed@),
        state.lottery.duration == INITIAL_DURATION,
        state.lottery.start_time == time,
        state.lottery.end_time == time + INITIAL_DURATION,
        state.supply_pool == (SupplyPool {
            total_tokens_staked: 0,
            total_rewards_restaked: 0,
            pending_staking_rewards: 0,
            triggering_cost: 0,
        }),
        forall|a: Seq<char>| #[trigger] state.users.account(a) == empty_account(),
        state.entries.slots@.len() == 0,
        state.user_history@.len() == 0,
        state.last_lottery_results@.len() == 0,
{
    let hashed = sha256(prng_seed.as_slice());
    let admin_addr = match admin {
        Some(a) => a,
        None => sender.clone(),
    };
    let triggerer_addr = match triggerer {
        Some(t) => t,
        None => sender,
    };
    let seed_copy = copy_bytes(&hashed);
    let entropy_copy = copy_bytes(&hashed);
    let state = PoolState {
        config: Config {
            admin: admin_addr,
            triggerer: triggerer_addr,
            triggerer_share_percentage,
            token,
            staking_contract,
            viewing_key,
            prng_seed: hashed,
            is_stopped: false,
            is_stopped_can_withdraw: false,
            own_addr,
        },
        supply_pool: SupplyPool {
            total_tokens_staked: 0,
            total_rewards_restaked: 0,
            pending_staking_rewards: 0,
            triggering_cost: 0,
        },
        lottery: Lottery {
            entropy: entropy_copy,
            seed: seed_copy,
            duration: INITIAL_DURATION,
            start_time: time,
            end_time: time + INITIAL_DURATION,
        },
        entries: EntryArena::new(),
        users: UserStore::new(),
        user_history: Vec::new(),
        last_lottery_results: Vec::new(),
    };
    state
}

/// Point the pool at a new admin. Admin-gated; unavailable while stopped.
pub fn change_admin(state: &mut PoolState, sender: &String, address: String) -> (r: Result<
    (),
    ContractError,
>)
    requires
        well_formed(*old(state)),
    ensures
        well_formed(*final(state)),
        conserved(*old(state)) ==> conserved(*final(state)),
        r is Err ==> *final(state) == *old(state),
        old(state).config.is_stopped ==> r == Err::<(), ContractError>(
            ContractError::ContractStopped,
        ),
        !old(state).config.is_stopped && old(state).config.admin@ != sender@ ==> r == Err::<
            (),
            ContractError,
        >(ContractError::NotAdmin),
        !old(state).config.is_stopped && old(state).config.admin@ == sender@ ==> r is Ok && *final(state) == (PoolState {
            config: Config { admin: address, ..old(state).config },
            ..*old(state)
        }),
{
    if state.config.is_stopped {
        return Err(ContractError::ContractStopped);
    }
    check_if_admin(&state.config, sender)?;
    state.config.admin = address;
    Ok(())
}

/// Point the pool at a new triggerer. Admin-gated; unavailable while stopped.
pub fn change_triggerer(state: &mut PoolState, sender: &String, address: String) -> (r: Result<
    (),
    ContractError,
>)
    requires
        well_formed(*old(state)),
    ensures
        well_formed(*final(state)),
        conserved(*old(state)) ==> conserved(*final(state)),
        r is Err ==> *final(state) == *old(state),
        old(state).config.is_stopped ==> r == Err::<(), ContractError>(
            ContractError::ContractStopped,
        ),
        !old(state).config.is_stopped && old(state).config.admin@ != sender@ ==> r == Err::<
            (),
            ContractError,
        >(ContractError::NotAdmin),
        !old(state).config.is_stopped && old(state).config.admin@ == sender@ ==> r is Ok && *final(state) == (PoolState {
            config: Config { triggerer: address, ..old(state).config },
            ..*old(state)
        }),
{
    if state.config.is_stopped {
        return Err(ContractError::ContractStopped);
    }
    check_if_admin(&state.config, sender)?;
    state.config.triggerer = address;
    Ok(())
}

/// Set the triggerer's fee share. Admin-gated; unavailable while stopped.
pub fn change_triggerer_share(state: &mut PoolState, sender: &String, percentage: u64) -> (r:
    Result<(), ContractError>)
    requires
        well_formed(*old(state)),
    ensures
        well_formed(*final(state)),
        conserved(*old(state)) ==> conserved(*final(state)),
        r is Err ==> *final(state) == *old(state),
        old(state).config.is_stopped ==> r == Err::<(), ContractError>(
            ContractError::ContractStopped,
        ),
        !old(state).config.is_stopped && old(state).config.admin@ != sender@ ==> r == Err::<
            (),
            ContractError,
        >(ContractError::NotAdmin),
        !old(state).config.is_stopped && old(state).config.admin@ == sender@ ==> r is Ok && *final(state) == (PoolState {
            config: Config { triggerer_share_percentage: percentage, ..old(state).config },
            ..*old(state)
        }),
{
    if state.config.is_stopped {
        return Err(ContractError::ContractStopped);
    }
    check_if_admin(&state.config, sender)?;
    state.config.triggerer_share_percentage = percentage;
    Ok(())
}

/// Set the duration of the lottery windows opened from the next draw on.
/// Admin-gated; unavailable while stopped.
pub fn change_lottery_duration(state: &mut PoolState, sender: &String, duration: u64) -> (r: Result<
    (),
    ContractError,
>)
    requires
        well_formed(*old(state)),
        duration >= 1,
    ensures
        well_formed(*final(state)),
        conserved(*old(state)) ==> conserved(*final(state)),
        r is Err ==> *final(state) == *old(state),
        old(state).config.is_stopped ==> r == Err::<(), ContractError>(
            ContractError::ContractStopped,
        ),
        !old(state).config.is_stopped && old(state).config.admin@ != sender@ ==> r == Err::<
            (),
            ContractError,
        >(ContractError::NotAdmin),
        !old(state).config.is_stopped && old(state).config.admin@ == sender@ ==> r is Ok && *final(state) == (PoolState {
            lottery: Lottery { duration, ..old(state).lottery },
            ..*old(state)
        }),
{
    if state.config.is_stopped {
        return Err(ContractError::ContractStopped);
    }
    check_if_admin(&state.config, sender)?;
    state.lottery.duration = duration;
    Ok(())
}

/// Repoint the yield-source identity. Admin-gated, available in any lifecycle
/// state; typically exercised while stopped, between an emergency redeem and a
/// redelegation.
pub fn change_staking_contract(
    state: &mut PoolState,
    sender: &String,
    address: String,
    contract_hash: String,
) -> (r: Result<(), ContractError>)
    requires
        well_formed(*old(state)),
    ensures
        well_formed(*final(state)),
        conserved(*old(state)) ==> conserved(*final(state)),
        r is Err ==> *final(state) == *old(state),
        old(state).config.admin@ != sender@ ==> r == Err::<(), ContractError>(
            ContractError::NotAdmin,
        ),
        old(state).config.admin@ == sender@ ==> r is Ok && *final(state) == (PoolState {
            config: Config {
                staking_contract: SecretContract { address, contract_hash },
                ..old(state).config
            },
            ..*old(state)
        }),
{
    check_if_admin(&state.config, sender)?;
    state.config.staking_contract = SecretContract { address, contract_hash };
    Ok(())
}

/// Stop the pool: deposits, withdrawal triggers, draws and the ordinary admin
/// actions all become unavailable. Admin-gated; rejected when already stopped.
pub fn stop_contract(state: &mut PoolState, sender: &String) -> (r: Result<(), ContractError>)
    requires
        well_formed(*old(state)),
    ensures
        well_formed(*final(state)),
        conserved(*old(state)) ==> conserved(*final(state)),
        r is Err ==> *final(state) == *old(state),
        old(state).config.is_stopped ==> r == Err::<(), ContractError>(
            ContractError::ContractStopped,
        ),
        !old(state).config.is_stopped && old(state).config.admin@ != sender@ ==> r == Err::<
            (),
            ContractError,
        >(ContractError::NotAdmin),
        !old(state).config.is_stopped && old(state).config.admin@ == sender@ ==> r is Ok && *final(state) == (PoolState {
            config: Config { is_stopped: true, ..old(state).config },
            ..*old(state)
        }),
{
    if state.config.is_stopped {
        return Err(ContractError::ContractStopped);
    }
    check_if_admin(&state.config, sender)?;
    state.config.is_stopped = true;
    Ok(())
}

/// Resume a stopped pool, clearing the stopped-withdrawal allowance.
/// Admin-gated; rejected when the pool is running.
pub fn resume_contract(state: &mut PoolState, sender: &String) -> (r: Result<(), ContractError>)
    requires
        well_formed(*old(state)),
    ensures
        well_formed(*final(state)),
        conserved(*old(state)) ==> conserved(*final(state)),
        r is Err ==> *final(state) == *old(state),
        !old(state).config.is_stopped ==> r == Err::<(), ContractError>(
            ContractError::ActionUnavailable,
        ),
        old(state).config.is_stopped && old(state).config.admin@ != sender@ ==> r == Err::<
            (),
            ContractError,
        >(ContractError::NotAdmin),
        old(state).config.is_stopped && old(state).config.admin@ == sender@ ==> r is Ok && *final(state) == (PoolState {
            config: Config {
                is_stopped: false,
                is_stopped_can_withdraw: false,
                ..old(state).config
            },
            ..*old(state)
        }),
{
    if !state.config.is_stopped {
        return Err(ContractError::ActionUnavailable);
    }
    check_if_admin(&state.config, sender)?;
    state.config.is_stopped = false;
    state.config.is_stopped_can_withdraw = false;
    Ok(())
}

/// Allow ordinary withdrawals from a stopped pool, consuming delegated
/// principal directly. Admin-gated; reachable only from the stopped state.
pub fn allow_withdraw_when_stopped(state: &mut PoolState, sender: &String) -> (r: Result<
    (),
    ContractError,
>)
    requires
        well_formed(*old(state)),
    ensures
        well_formed(*final(state)),
        conserved(*old(state)) ==> conserved(*final(state)),
        r is Err ==> *final(state) == *old(state),
        !old(state).config.is_stopped ==> r == Err::<(), ContractError>(
            ContractError::ActionUnavailable,
        ),
        old(state).config.is_stopped && old(state).config.admin@ != sender@ ==> r == Err::<
            (),
            ContractError,
        >(ContractError::NotAdmin),
        old(state).config.is_stopped && old(state).config.admin@ == sender@ ==> r is Ok && *final(state) == (PoolState {
            config: Config { is_stopped_can_withdraw: true, ..old(state).config },
            ..*old(state)
        }),
{
    if !state.config.is_stopped {
        return Err(ContractError::ActionUnavailable);
    }
    check_if_admin(&state.config, sender)?;
    state.config.is_stopped_can_withdraw = true;
    Ok(())
}

/// Pay the accrued trigger fee out to the admin. Available in any lifecycle
/// state; fails when nothing has accrued. Returns the amount to transfer.
pub fn triggering_cost_withdraw(state: &mut PoolState, sender: &String) -> (r: Result<
    u128,
    ContractError,
>)
    requires
        well_formed(*old(state)),
    ensures
        well_formed(*final(state)),
        conserved(*old(state)) ==> conserved(*final(state)),
        r is Err ==> *final(state) == *old(state),
        old(state).config.admin@ != sender@ ==> r == Err::<u128, ContractError>(
            ContractError::NotAdmin,
        ),
        old(state).config.admin@ == sender@ && old(state).supply_pool.triggering_cost == 0 ==> r
            == Err::<u128, ContractError>(ContractError::TriggerShareNotSufficient),
        old(state).config.admin@ == sender@ && old(state).supply_pool.triggering_cost > 0 ==> r
            == Ok::<u128, ContractError>(old(state).supply_pool.triggering_cost) && *final(state)
            == (PoolState {
            supply_pool: SupplyPool { triggering_cost: 0, ..old(state).supply_pool },
            ..*old(state)
        }),
{
    check_if_admin(&state.config, sender)?;
    let cost = state.supply_pool.triggering_cost;
    if cost == 0 {
        return Err(ContractError::TriggerShareNotSufficient);
    }
    state.supply_pool.triggering_cost = 0;
    Ok(cost)
}

/// Pay every reward bucket (pulled and pending) out to the admin, leaving only
/// principal. Admin-gated; reachable only from the stopped state. Returns the
/// amount to transfer.
pub fn withdraw_excess(state: &mut PoolState, sender: &String) -> (r: Result<u128, ContractError>)
    requires
        well_formed(*old(state)),
        old(state).supply_pool.pending_staking_rewards
            + old(state).supply_pool.total_rewards_restaked <= u128::MAX,
    ensures
        well_formed(*final(state)),
        conserved(*old(state)) ==> conserved(*final(state)),
        r is Err ==> *final(state) == *old(state),
        !old(state).config.is_stopped ==> r == Err::<u128, ContractError>(
            ContractError::ActionUnavailable,
        ),
        old(state).config.is_stopped && old(state).config.admin@ != sender@ ==> r == Err::<
            u128,
            ContractError,
        >(ContractError::NotAdmin),
        old(state).config.is_stopped && old(state).config.admin@ == sender@ && old(
            state,
        ).supply_pool.pending_staking_rewards + old(state).supply_pool.total_rewards_restaked == 0
            ==> r == Err::<u128, ContractError>(ContractError::TriggerShareNotSufficient),
        old(state).config.is_stopped && old(state).config.admin@ == sender@ && old(
            state,
        ).supply_pool.pending_staking_rewards + old(state).supply_pool.total_rewards_restaked > 0
            ==> r == Ok::<u128, ContractError>(
            (old(state).supply_pool.pending_staking_rewards
                + old(state).supply_pool.total_rewards_restaked) as u128,
        ) && *final(state) == (PoolState {
            supply_pool: SupplyPool {
                pending_staking_rewards: 0,
                total_rewards_restaked: 0,
                ..old(state).supply_pool
            },
            ..*old(state)
        }),
{
    if !state.config.is_stopped {
        return Err(ContractError::ActionUnavailable);
    }
    check_if_admin(&state.config, sender)?;
    let excess_amount = state.supply_pool.pending_staking_rewards
        + state.supply_pool.total_rewards_restaked;
    if excess_amount == 0 {
        return Err(ContractError::TriggerShareNotSufficient);
    }
    state.supply_pool.pending_staking_rewards = 0;
    state.supply_pool.total_rewards_restaked = 0;
    Ok(excess_amount)
}

/// Ask the yield source for everything back: all principal and restaked
/// rewards. The pool's buckets keep their values (nothing is assumed to have
/// landed yet); the newly observed pending reward is folded in. Admin-gated;
/// reachable only from the stopped state. Returns the amount to redeem.
pub fn emergency_redeem_from_staking(
    state: &mut PoolState,
    sender: &String,
    observed_reward: u128,
) -> (r: Result<u128, ContractError>)
    requires
        well_formed(*old(state)),
        old(state).supply_pool.total_rewards_restaked
            + old(state).supply_pool.total_tokens_staked <= u128::MAX,
        old(state).supply_pool.pending_staking_rewards + observed_reward <= u128::MAX,
    ensures
        well_formed(*final(state)),
        conserved(*old(state)) ==> conserved(*final(state)),
        r is Err ==> *final(state) == *old(state),
        !old(state).config.is_stopped ==> r == Err::<u128, ContractError>(
            ContractError::ActionUnavailable,
        ),
        old(state).config.is_stopped && old(state).config.admin@ != sender@ ==> r == Err::<
            u128,
            ContractError,
        >(ContractError::NotAdmin),
        old(state).config.is_stopped && old(state).config.admin@ == sender@ ==> r == Ok::<
            u128,
            ContractError,
        >(
            (old(state).supply_pool.total_rewards_restaked
                + old(state).supply_pool.total_tokens_staked) as u128,
        ) && *final(state) == (PoolState {
            supply_pool: SupplyPool {
                pending_staking_rewards: (old(state).supply_pool.pending_staking_rewards
                    + observed_reward) as u128,
                ..old(state).supply_pool
            },
            ..*old(state)
        }),
{
    if !state.config.is_stopped {
        return Err(ContractError::ActionUnavailable);
    }
    check_if_admin(&state.config, sender)?;
    let amount_to_redeem = state.supply_pool.total_rewards_restaked
        + state.supply_pool.total_tokens_staked;
    state.supply_pool.pending_staking_rewards = state.supply_pool.pending_staking_rewards
        + observed_reward;
    Ok(amount_to_redeem)
}

/// Forward everything the pool accounts for back to the (possibly new) yield
/// source: principal, restaked rewards and the pending bucket, which is folded
/// into the restaked bucket. Admin-gated; reachable only from the stopped
/// state. Returns the amount to forward.
pub fn redelegate_to_contract(
    state: &mut PoolState,
    sender: &String,
    observed_reward: u128,
) -> (r: Result<u128, ContractError>)
    requires
        well_formed(*old(state)),
        old(state).supply_pool.total_tokens_staked + old(state).supply_pool.total_rewards_restaked
            + old(state).supply_pool.pending_staking_rewards <= u128::MAX,
    ensures
        well_formed(*final(state)),
        conserved(*old(state)) ==> conserved(*final(state)),
        r is Err ==> *final(state) == *old(state),
        !old(state).config.is_stopped ==> r == Err::<u128, ContractError>(
            ContractError::ActionUnavailable,
        ),
        old(state).config.is_stopped && old(state).config.admin@ != sender@ ==> r == Err::<
            u128,
            ContractError,
        >(ContractError::NotAdmin),
        old(state).config.is_stopped && old(state).config.admin@ == sender@ ==> r == Ok::<
            u128,
            ContractError,
        >(
            (old(state).supply_pool.total_tokens_staked
                + old(state).supply_pool.total_rewards_restaked
                + old(state).supply_pool.pending_staking_rewards) as u128,
        ) && *final(state) == (PoolState {
            supply_pool: SupplyPool {
                total_rewards_restaked: (old(state).supply_pool.total_rewards_restaked + old(
                    state,
                ).supply_pool.pending_staking_rewards) as u128,
                pending_staking_rewards: observed_reward,
                ..old(state).supply_pool
            },
            ..*old(state)
        }),
{
    if !state.config.is_stopped {
        return Err(ContractError::ActionUnavailable);
    }
    check_if_admin(&state.config, sender)?;
    let amount_to_restake = state.supply_pool.total_tokens_staked
        + state.supply_pool.total_rewards_restaked + state.supply_pool.pending_staking_rewards;
    state.supply_pool.total_rewards_restaked = state.supply_pool.total_rewards_restaked
        + state.supply_pool.pending_staking_rewards;
    state.supply_pool.pending_staking_rewards = observed_reward;
    Ok(amount_to_restake)
}

/// Accept a deposit of `amount_to_deposit` sent by the supported token
/// contract on behalf of `from`: a new stake entry is recorded, the user's
/// delegated principal grows, and the deposit together with the pending
/// rewards is forwarded to the yield source (the returned amount). The newly
/// observed pending reward replaces the pending bucket. Rejected while
/// stopped, from any other token, and under the minimum deposit.
pub fn deposit(
    state: &mut PoolState,
    sender: &String,
    from: &String,
    amount_to_deposit: u128,
    now: u64,
    observed_reward: u128,
) -> (r: Result<u128, ContractError>)
    requires
        well_formed(*old(state)),
        old(state).supply_pool.total_tokens_staked + amount_to_deposit <= u128::MAX,
        old(state).supply_pool.total_rewards_restaked
            + old(state).supply_pool.pending_staking_rewards <= u128::MAX,
        amount_to_deposit + old(state).supply_pool.pending_staking_rewards <= u128::MAX,
    ensures
        well_formed(*final(state)),
        conserved(*old(state)) ==> conserved(*final(state)),
        r is Err ==> *final(state) == *old(state),
        old(state).config.is_stopped ==> r == Err::<u128, ContractError>(
            ContractError::ContractStopped,
        ),
        !old(state).config.is_stopped && sender@ != old(state).config.token.address@ ==> r == Err::<
            u128,
            ContractError,
        >(ContractError::WrongToken),
        !old(state).config.is_stopped && sender@ == old(state).config.token.address@
            && amount_to_deposit < MINIMUM_DEPOSIT ==> r == Err::<u128, ContractError>(
            ContractError::DepositTooSmall,
        ),
        !old(state).config.is_stopped && sender@ == old(state).config.token.address@
            && amount_to_deposit >= MINIMUM_DEPOSIT ==> ({
            let acct_old = old(state).users.account(from@);
            let acct_new = final(state).users.account(from@);
            let new_idx = acct_new.entry_index.last();
            &&& r == Ok::<u128, ContractError>(
                (amount_to_deposit + old(state).supply_pool.pending_staking_rewards) as u128,
            )
            &&& acct_new.delegated == acct_old.delegated + amount_to_deposit
            &&& acct_new.available == acct_old.available
            &&& acct_new.total_won == acct_old.total_won
            &&& acct_new.entry_index.len() == acct_old.entry_index.len() + 1
            &&& acct_new.entry_index.take(acct_old.entry_index.len() as int)
                == acct_old.entry_index
            &&& valid_in(final(state).entries.slots@, new_idx)
            &&& !valid_in(old(state).entries.slots@, new_idx)
            &&& entry_in(final(state).entries.slots@, new_idx).user_address@ == from@
            &&& entry_in(final(state).entries.slots@, new_idx).amount == amount_to_deposit
            &&& entry_in(final(state).entries.slots@, new_idx).entry_time == now
            &&& forall|a: Seq<char>| a != from@ ==> #[trigger] final(state).users.account(a)
                == old(state).users.account(a)
            &&& forall|j: EntryIndex| #[trigger] valid_in(old(state).entries.slots@, j)
                ==> valid_in(final(state).entries.slots@, j) && entry_in(
                final(state).entries.slots@,
                j,
            ) == entry_in(old(state).entries.slots@, j)
            &&& final(state).entries.total_amount() == old(state).entries.total_amount()
                + amount_to_deposit
            &&& final(state).supply_pool == (SupplyPool {
                total_tokens_staked: (old(state).supply_pool.total_tokens_staked
                    + amount_to_deposit) as u128,
                total_rewards_restaked: (old(state).supply_pool.total_rewards_restaked + old(
                    state,
                ).supply_pool.pending_staking_rewards) as u128,
                pending_staking_rewards: observed_reward,
                triggering_cost: old(state).supply_pool.triggering_cost,
            })
            &&& final(state).config == old(state).config
            &&& final(state).lottery == old(state).lottery
            &&& final(state).user_history == old(state).user_history
            &&& final(state).last_lottery_results == old(state).last_lottery_results
        }),
{
    if state.config.is_stopped {
        return Err(ContractError::ContractStopped);
    }
    if !(state.config.token.address == *sender) {
        return Err(ContractError::WrongToken);
    }
    if !valid_amount(amount_to_deposit) {
        return Err(ContractError::DepositTooSmall);
    }
    let ghost old_slots = state.entries.slots@;
    let ghost acct_old = state.users.account(from@);
    proof {
        assert(user_entries_ok(old_slots, from@, acct_old));
        lemma_idx_sum_le_total(old_slots, acct_old.entry_index);
    }
    let user_opt = state.users.extract(from);
    let mut user = match user_opt {
        Some(u) => u,
        None => default_user(),
    };
    proof {
        assert(account_of(user) == acct_old);
    }
    user.amount_delegated = user.amount_delegated + amount_to_deposit;
    let entry = LotteryEntries {
        user_address: from.clone(),
        amount: amount_to_deposit,
        entry_time: now,
    };
    let idx = state.entries.insert(entry);
    user.entry_index.push(idx);
    let ghost new_slots = state.entries.slots@;
    proof {
        assert(acct_old.entry_index.push(idx).take(acct_old.entry_index.len() as int)
            =~= acct_old.entry_index);
        assert forall|k: int| 0 <= k < acct_old.entry_index.len() implies valid_in(
            new_slots,
            #[trigger] acct_old.entry_index[k],
        ) && entry_in(new_slots, acct_old.entry_index[k]) == entry_in(
            old_slots,
            acct_old.entry_index[k],
        ) by {
            assert(valid_in(old_slots, acct_old.entry_index[k]));
        }
        lemma_idx_sum_congruence(old_slots, new_slots, acct_old.entry_index);
        lemma_idx_sum_push(new_slots, acct_old.entry_index, idx);
    }
    state.users.insert_new(from.clone(), user);
    let pending = state.supply_pool.pending_staking_rewards;
    let amount_to_stake = amount_to_deposit + pending;
    state.supply_pool.total_tokens_staked = state.supply_pool.total_tokens_staked
        + amount_to_deposit;
    state.supply_pool.total_rewards_restaked = state.supply_pool.total_rewards_restaked + pending;
    state.supply_pool.pending_staking_rewards = observed_reward;
    proof {
        let st = *state;
        assert forall|a: Seq<char>| user_entries_ok(
            st.entries.slots@,
            a,
            #[trigger] st.users.account(a),
        ) by {
            if a == from@ {
                assert(st.users.account(a).entry_index == acct_old.entry_index.push(idx));
            } else {
                let acct = old(state).users.account(a);
                assert(st.users.account(a) == acct);
                assert(user_entries_ok(old_slots, a, acct));
                assert forall|k: int| 0 <= k < acct.entry_index.len() implies valid_in(
                    st.entries.slots@,
                    #[trigger] acct.entry_index[k],
                ) && entry_in(st.entries.slots@, acct.entry_index[k]) == entry_in(
                    old_slots,
                    acct.entry_index[k],
                ) by {
                    assert(valid_in(old_slots, acct.entry_index[k]));
                }
                lemma_idx_sum_congruence(old_slots, st.entries.slots@, acct.entry_index);
            }
        }
        assert forall|a1: Seq<char>, a2: Seq<char>, k1: int, k2: int|
            a1 != a2 && 0 <= k1 < st.users.account(a1).entry_index.len() && 0 <= k2
                < st.users.account(a2).entry_index.len() implies (#[trigger] st.users.account(
            a1,
        ).entry_index[k1]).slot != (#[trigger] st.users.account(a2).entry_index[k2]).slot by {
            let acct1 = st.users.account(a1);
            let acct2 = st.users.account(a2);
            let o1 = old(state).users.account(a1);
            let o2 = old(state).users.account(a2);
            if a1 == from@ {
                assert(acct1.entry_index == o1.entry_index.push(idx));
                assert(acct2 == o2);
                if k1 < o1.entry_index.len() {
                    assert(o1.entry_index[k1] == acct1.entry_index[k1]);
                } else {
                    assert(acct1.entry_index[k1] == idx);
                    assert(valid_in(old_slots, o2.entry_index[k2]));
                }
            } else if a2 == from@ {
                assert(acct2.entry_index == o2.entry_index.push(idx));
                assert(acct1 == o1);
                if k2 < o2.entry_index.len() {
                    assert(o2.entry_index[k2] == acct2.entry_index[k2]);
                } else {
                    assert(acct2.entry_index[k2] == idx);
                    assert(valid_in(old_slots, o1.entry_index[k1]));
                }
            } else {
                assert(acct1 == o1);
                assert(acct2 == o2);
            }
        }
    }
    Ok(amount_to_stake)
}

/// Whether a reference's slot is none of the first `m` slots of `idxs`.
pub open spec fn untouched(idxs: Seq<EntryIndex>, m: int, j: EntryIndex) -> bool {
    forall|k: int| 0 <= k < m ==> j.slot != (#[trigger] idxs[k]).slot
}

/// Unstake `amount` (or everything) of the sender's delegated principal: the
/// sender's stake entries are consumed oldest first — each fully consumed
/// entry's slot is vacated and its reference dropped, and the first entry that
/// more than covers the rest is reduced in place. The principal moves to the
/// sender's available balance and is redeemed from the yield source (the
/// returned amount). Rejected while stopped, with nothing staked, and past the
/// delegated amount.
pub fn trigger_withdraw(
    state: &mut PoolState,
    sender: &String,
    amount: Option<u128>,
    observed_reward: u128,
) -> (r: Result<u128, ContractError>)
    requires
        well_formed(*old(state)),
        old(state).supply_pool.pending_staking_rewards + observed_reward <= u128::MAX,
        old(state).users.account(sender@).available + old(state).users.account(sender@).delegated
            <= u128::MAX,
    ensures
        well_formed(*final(state)),
        conserved(*old(state)) ==> conserved(*final(state)),
        r is Err ==> *final(state) == *old(state),
        old(state).config.is_stopped ==> r == Err::<u128, ContractError>(
            ContractError::ContractStopped,
        ),
        !old(state).config.is_stopped ==> ({
            let acct_old = old(state).users.account(sender@);
            let w = match amount {
                Some(a) => a as int,
                None => acct_old.delegated,
            };
            &&& (w == 0 ==> r == Err::<u128, ContractError>(ContractError::NoStake))
            &&& (w > 0 && acct_old.delegated < w ==> r == Err::<u128, ContractError>(
                ContractError::WithdrawTooMuchStaked,
            ))
            &&& (w > 0 && acct_old.delegated >= w ==> ({
                let old_slots = old(state).entries.slots@;
                let idxs = acct_old.entry_index;
                let m = fifo_removed(old_slots, idxs, w);
                let res = fifo_residual(old_slots, idxs, w);
                let acct_new = final(state).users.account(sender@);
                let new_slots = final(state).entries.slots@;
                &&& r == Ok::<u128, ContractError>(w as u128)
                &&& acct_new.delegated == acct_old.delegated - w
                &&& acct_new.available == acct_old.available + w
                &&& acct_new.total_won == acct_old.total_won
                &&& acct_new.entry_index == idxs.skip(m)
                &&& forall|k: int| 0 <= k < m ==> !valid_in(new_slots, #[trigger] idxs[k])
                &&& (res > 0 ==> m < idxs.len() && valid_in(new_slots, idxs[m]) && entry_in(
                    new_slots,
                    idxs[m],
                ) == (LotteryEntries {
                    amount: (entry_in(old_slots, idxs[m]).amount - res) as u128,
                    ..entry_in(old_slots, idxs[m])
                }))
                &&& forall|j: EntryIndex|
                    #[trigger] valid_in(old_slots, j) && untouched(idxs, m + (if res > 0 {
                        1int
                    } else {
                        0int
                    }), j) ==> valid_in(new_slots, j) && entry_in(new_slots, j) == entry_in(
                        old_slots,
                        j,
                    )
                &&& forall|a: Seq<char>| a != sender@ ==> #[trigger] final(state).users.account(a)
                    == old(state).users.account(a)
                &&& final(state).entries.total_amount() == old(state).entries.total_amount() - w
                &&& final(state).supply_pool == (SupplyPool {
                    total_tokens_staked: (old(state).supply_pool.total_tokens_staked - w) as u128,
                    pending_staking_rewards: (old(state).supply_pool.pending_staking_rewards
                        + observed_reward) as u128,
                    ..old(state).supply_pool
                })
                &&& final(state).config == old(state).config
                &&& final(state).lottery == old(state).lottery
                &&& final(state).user_history == old(state).user_history
                &&& final(state).last_lottery_results == old(state).last_lottery_results
            }))
        }),
{
    if state.config.is_stopped {
        return Err(ContractError::ContractStopped);
    }
    let delegated_now = match state.users.get(sender) {
        Some(u) => u.amount_delegated,
        None => 0,
    };
    let withdraw_amount = match amount {
        Some(a) => a,
        None => delegated_now,
    };
    if withdraw_amount == 0 {
        return Err(ContractError::NoStake);
    }
    if delegated_now < withdraw_amount {
        return Err(ContractError::WithdrawTooMuchStaked);
    }
    let ghost acct_old = state.users.account(sender@);
    let ghost old_slots = state.entries.slots@;
    let ghost idxs = acct_old.entry_index;
    let ghost w_int = withdraw_amount as int;
    proof {
        assert(user_entries_ok(old_slots, sender@, acct_old));
        lemma_fifo_props(old_slots, idxs, w_int);
        lemma_idx_sum_le_total(old_slots, idxs);
        lemma_idx_sum_split(old_slots, idxs, fifo_removed(old_slots, idxs, w_int));
    }
    let ghost m = fifo_removed(old_slots, idxs, w_int);
    let ghost res = fifo_residual(old_slots, idxs, w_int);
    let user_opt = state.users.extract(sender);
    let mut user = match user_opt {
        Some(u) => u,
        None => default_user(),
    };
    proof {
        assert(account_of(user) == acct_old);
    }
    let ghost mid = *state;
    let mut temp = withdraw_amount;
    let mut k: usize = 0;
    let n = user.entry_index.len();
    let ghost mut reduced = false;
    proof {
        assert(idxs.skip(0) =~= idxs);
    }
    while temp > 0
        invariant
            n == idxs.len(),
            user.entry_index@ == idxs,
            k <= n,
            temp <= withdraw_amount,
            w_int == withdraw_amount as int,
            m == fifo_removed(old_slots, idxs, w_int),
            res == fifo_residual(old_slots, idxs, w_int),
            forall|kk: int| 0 <= kk < n ==> valid_in(old_slots, #[trigger] idxs[kk]),
            forall|k1: int, k2: int| 0 <= k1 < k2 < n ==> (#[trigger] idxs[k1]).slot != (
            #[trigger] idxs[k2]).slot,
            !reduced ==> m == k + fifo_removed(old_slots, idxs.skip(k as int), temp as int),
            !reduced ==> res == fifo_residual(old_slots, idxs.skip(k as int), temp as int),
            !reduced ==> temp as int <= idx_sum(old_slots, idxs.skip(k as int)),
            !reduced ==> forall|kk: int|
                k <= kk < n ==> valid_in(state.entries.slots@, #[trigger] idxs[kk]) && entry_in(
                    state.entries.slots@,
                    idxs[kk],
                ) == entry_in(old_slots, idxs[kk]),
            reduced ==> temp == 0 && k == m && res > 0 && m < n && valid_in(
                state.entries.slots@,
                idxs[m],
            ) && entry_in(state.entries.slots@, idxs[m]) == (LotteryEntries {
                amount: (entry_in(old_slots, idxs[m]).amount - res) as u128,
                ..entry_in(old_slots, idxs[m])
            }),
            reduced ==> forall|kk: int|
                m < kk < n ==> valid_in(state.entries.slots@, #[trigger] idxs[kk]) && entry_in(
                    state.entries.slots@,
                    idxs[kk],
                ) == entry_in(old_slots, idxs[kk]),
            forall|kk: int| 0 <= kk < k ==> !valid_in(state.entries.slots@, #[trigger] idxs[kk]),
            forall|j: EntryIndex|
                #[trigger] valid_in(old_slots, j) && untouched(idxs, k as int + (if reduced {
                    1int
                } else {
                    0int
                }), j) ==> valid_in(state.entries.slots@, j) && entry_in(state.entries.slots@, j)
                    == entry_in(old_slots, j),
            state.entries.slots@.len() == old_slots.len(),
            state.entries.total_amount() == slots_total(old_slots) - (w_int - temp),
            state.config == mid.config,
            state.supply_pool == mid.supply_pool,
            state.lottery == mid.lottery,
            state.users == mid.users,
            state.user_history == mid.user_history,
            state.last_lottery_results == mid.last_lottery_results,
        decreases temp, n - k,
    {
        proof {
            if k == n {
                assert(idxs.skip(n as int) =~= Seq::<EntryIndex>::empty());
                assert(idx_sum(old_slots, idxs.skip(n as int)) == 0);
                assert(false);
            }
            assert(idxs.skip(k as int)[0] == idxs[k as int]);
            assert(idxs.skip(k as int).skip(1) =~= idxs.skip(k as int + 1));
        }
        let ix = user.entry_index[k];
        let e_amount = state.entries.get(ix).amount;
        if e_amount <= temp {
            state.entries.remove(ix);
            proof {
                lemma_idx_sum_nonneg(old_slots, idxs.skip(k as int + 1));
            }
            temp = temp - e_amount;
            k = k + 1;
        } else {
            let new_amount = e_amount - temp;
            state.entries.set_amount(ix, new_amount);
            proof {
                reduced = true;
            }
            temp = 0;
        }
    }
    let tail = user.entry_index.split_off(k);
    user.entry_index = tail;
    proof {
        assert(user.entry_index@ =~= idxs.skip(m));
    }
    user.amount_delegated = user.amount_delegated - withdraw_amount;
    user.available_tokens_for_withdraw = user.available_tokens_for_withdraw + withdraw_amount;
    state.users.insert_new(sender.clone(), user);
    state.supply_pool.pending_staking_rewards = state.supply_pool.pending_staking_rewards
        + observed_reward;
    state.supply_pool.total_tokens_staked = state.supply_pool.total_tokens_staked
        - withdraw_amount;
    proof {
        let st = *state;
        let new_slots = st.entries.slots@;
        let mm = m + (if res > 0 {
            1int
        } else {
            0int
        });
        assert(idx_sum(old_slots, idxs.take(m)) == w_int - res);
        assert forall|a: Seq<char>| user_entries_ok(
            new_slots,
            a,
            #[trigger] st.users.account(a),
        ) by {
            if a == sender@ {
                let acct_new = st.users.account(a);
                assert(acct_new.entry_index == idxs.skip(m));
                assert(forall|kk: int| 0 <= kk < idxs.skip(m).len() ==> #[trigger] idxs.skip(m)[kk]
                    == idxs[kk + m]);
                if res > 0 {
                    assert(idxs.skip(m)[0] == idxs[m]);
                    assert(idxs.skip(m).skip(1) =~= idxs.skip(m + 1));
                    assert forall|kk: int| 0 <= kk < idxs.skip(m + 1).len() implies entry_in(
                        new_slots,
                        #[trigger] idxs.skip(m + 1)[kk],
                    ) == entry_in(old_slots, idxs.skip(m + 1)[kk]) by {
                        assert(idxs.skip(m + 1)[kk] == idxs[kk + m + 1]);
                    }
                    lemma_idx_sum_congruence(old_slots, new_slots, idxs.skip(m + 1));
                    assert(idx_sum(new_slots, idxs.skip(m)) == entry_in(
                        new_slots,
                        idxs[m],
                    ).amount + idx_sum(new_slots, idxs.skip(m).skip(1)));
                    lemma_idx_sum_split(old_slots, idxs.skip(m), 1);
                    assert(idxs.skip(m).take(1) =~= seq![idxs[m]]);
                    assert(idx_sum(old_slots, seq![idxs[m]]) == entry_in(
                        old_slots,
                        idxs[m],
                    ).amount + idx_sum(old_slots, seq![idxs[m]].skip(1)));
                    assert(seq![idxs[m]].skip(1) =~= Seq::<EntryIndex>::empty());
                    assert(idx_sum(new_slots, idxs.skip(m)) == idx_sum(old_slots, idxs.skip(m))
                        - res);
                } else {
                    assert forall|kk: int| 0 <= kk < idxs.skip(m).len() implies entry_in(
                        new_slots,
                        #[trigger] idxs.skip(m)[kk],
                    ) == entry_in(old_slots, idxs.skip(m)[kk]) by {
                        assert(idxs.skip(m)[kk] == idxs[kk + m]);
                    }
                    lemma_idx_sum_congruence(old_slots, new_slots, idxs.skip(m));
                }
            } else {
                let acct = old(state).users.account(a);
                assert(st.users.account(a) == acct);
                assert(user_entries_ok(old_slots, a, acct));
                assert forall|kk: int| 0 <= kk < acct.entry_index.len() implies valid_in(
                    new_slots,
                    #[trigger] acct.entry_index[kk],
                ) && entry_in(new_slots, acct.entry_index[kk]) == entry_in(
                    old_slots,
                    acct.entry_index[kk],
                ) by {
                    assert(valid_in(old_slots, acct.entry_index[kk]));
                    assert forall|kx: int| 0 <= kx < mm implies acct.entry_index[kk].slot != (
                    #[trigger] idxs[kx]).slot by {
                        assert(idxs[kx] == acct_old.entry_index[kx]);
                    }
                    assert(untouched(idxs, mm, acct.entry_index[kk]));
                }
                lemma_idx_sum_congruence(old_slots, new_slots, acct.entry_index);
            }
        }
        assert forall|a1: Seq<char>, a2: Seq<char>, k1: int, k2: int|
            a1 != a2 && 0 <= k1 < st.users.account(a1).entry_index.len() && 0 <= k2
                < st.users.account(a2).entry_index.len() implies (#[trigger] st.users.account(
            a1,
        ).entry_index[k1]).slot != (#[trigger] st.users.account(a2).entry_index[k2]).slot by {
            let o1 = old(state).users.account(a1);
            let o2 = old(state).users.account(a2);
            if a1 == sender@ {
                assert(st.users.account(a1).entry_index[k1] == idxs[k1 + m]);
                assert(st.users.account(a2) == o2);
            } else if a2 == sender@ {
                assert(st.users.account(a2).entry_index[k2] == idxs[k2 + m]);
                assert(st.users.account(a1) == o1);
            } else {
                assert(st.users.account(a1) == o1);
                assert(st.users.account(a2) == o2);
            }
        }
    }
    Ok(withdraw_amount)
}

/// Pay out `amount` (or the whole available balance) to the sender; the
/// returned amount is transferred by the host. Ordinarily only the available
/// balance can leave; when withdrawals from the stopped pool are allowed, the
/// payout consumes the available balance first and then delegated principal
/// directly (the stake entries stay as they are — the funds were already
/// pulled back by the emergency redeem).
pub fn withdraw(state: &mut PoolState, sender: &String, amount: Option<u128>) -> (r: Result<
    u128,
    ContractError,
>)
    requires
        well_formed(*old(state)),
        old(state).users.account(sender@).delegated + old(state).users.account(sender@).available
            <= u128::MAX,
    ensures
        well_formed(*final(state)),
        r is Err ==> *final(state) == *old(state),
        old(state).config.is_stopped && !old(state).config.is_stopped_can_withdraw ==> r == Err::<
            u128,
            ContractError,
        >(ContractError::ContractStopped),
        !old(state).config.is_stopped || old(state).config.is_stopped_can_withdraw ==> ({
            let acct = old(state).users.account(sender@);
            let can = old(state).config.is_stopped_can_withdraw;
            let w = match amount {
                Some(a) => a as int,
                None => acct.available,
            };
            let acct_new = final(state).users.account(sender@);
            &&& (w == 0 ==> r == Err::<u128, ContractError>(ContractError::NoTokensAvailable))
            &&& (!can && w > 0 && acct.available < w ==> r == Err::<u128, ContractError>(
                ContractError::WithdrawTooMuchAvailable,
            ))
            &&& (can && w > 0 && acct.delegated + acct.available < w ==> r == Err::<
                u128,
                ContractError,
            >(ContractError::WithdrawTooMuchTotal))
            &&& (!can && w > 0 && acct.available >= w ==> r == Ok::<u128, ContractError>(w as u128)
                && acct_new == (AccountView { available: acct.available - w, ..acct }))
            &&& (can && w > 0 && acct.delegated + acct.available >= w ==> r == Ok::<
                u128,
                ContractError,
            >(w as u128) && (if acct.available < w {
                acct_new == (AccountView {
                    available: 0,
                    delegated: acct.delegated - (w - acct.available),
                    ..acct
                })
            } else {
                acct_new == (AccountView { available: acct.available - w, ..acct })
            }))
            &&& (r is Ok ==> {
                &&& forall|a: Seq<char>| a != sender@ ==> #[trigger] final(state).users.account(a)
                    == old(state).users.account(a)
                &&& final(state).config == old(state).config
                &&& final(state).supply_pool == old(state).supply_pool
                &&& final(state).lottery == old(state).lottery
                &&& final(state).entries == old(state).entries
                &&& final(state).user_history == old(state).user_history
                &&& final(state).last_lottery_results == old(state).last_lottery_results
            })
            &&& (conserved(*old(state)) && !can ==> conserved(*final(state)))
        }),
{
    if state.config.is_stopped && !state.config.is_stopped_can_withdraw {
        return Err(ContractError::ContractStopped);
    }
    let (avail_now, delegated_now) = match state.users.get(sender) {
        Some(u) => (u.available_tokens_for_withdraw, u.amount_delegated),
        None => (0, 0),
    };
    let withdraw_amount = match amount {
        Some(a) => a,
        None => avail_now,
    };
    if withdraw_amount == 0 {
        return Err(ContractError::NoTokensAvailable);
    }
    let ghost acct_old = state.users.account(sender@);
    if !state.config.is_stopped_can_withdraw {
        if avail_now < withdraw_amount {
            return Err(ContractError::WithdrawTooMuchAvailable);
        }
        let user_opt = state.users.extract(sender);
        let mut user = match user_opt {
            Some(u) => u,
            None => default_user(),
        };
        user.available_tokens_for_withdraw = user.available_tokens_for_withdraw - withdraw_amount;
        state.users.insert_new(sender.clone(), user);
    } else {
        if delegated_now + avail_now < withdraw_amount {
            return Err(ContractError::WithdrawTooMuchTotal);
        }
        let user_opt = state.users.extract(sender);
        let mut user = match user_opt {
            Some(u) => u,
            None => default_user(),
        };
        if user.available_tokens_for_withdraw < withdraw_amount {
            let rest = withdraw_amount - user.available_tokens_for_withdraw;
            user.available_tokens_for_withdraw = 0;
            user.amount_delegated = user.amount_delegated - rest;
        } else {
            user.available_tokens_for_withdraw = user.available_tokens_for_withdraw
                - withdraw_amount;
        }
        state.users.insert_new(sender.clone(), user);
    }
    proof {
        let st = *state;
        assert forall|a: Seq<char>| user_entries_ok(
            st.entries.slots@,
            a,
            #[trigger] st.users.account(a),
        ) by {
            if a == sender@ {
                assert(st.users.account(a).entry_index == acct_old.entry_index);
                assert(user_entries_ok(old(state).entries.slots@, a, acct_old));
            } else {
                assert(st.users.account(a) == old(state).users.account(a));
                assert(user_entries_ok(old(state).entries.slots@, a, old(state).users.account(a)));
            }
        }
        assert forall|a1: Seq<char>, a2: Seq<char>, k1: int, k2: int|
            a1 != a2 && 0 <= k1 < st.users.account(a1).entry_index.len() && 0 <= k2
                < st.users.account(a2).entry_index.len() implies (#[trigger] st.users.account(
            a1,
        ).entry_index[k1]).slot != (#[trigger] st.users.account(a2).entry_index[k2]).slot by {
            assert(st.users.account(a1).entry_index == old(state).users.account(a1).entry_index);
            assert(st.users.account(a2).entry_index == old(state).users.account(a2).entry_index);
        }
    }
    Ok(withdraw_amount)
}

/// The big-endian bytes of a 64-bit value, most significant first; the form
/// block height and time are mixed into the entropy in.
pub open spec fn be_bytes64(x: u64) -> Seq<u8> {
    seq![
        (x >> 56) as u8,
        (x >> 48) as u8,
        (x >> 40) as u8,
        (x >> 32) as u8,
        (x >> 24) as u8,
        (x >> 16) as u8,
        (x >> 8) as u8,
        x as u8,
    ]
}

fn u64_be_bytes(x: u64) -> (r: Vec<u8>)
    ensures
        r@ == be_bytes64(x),
{
    let mut r: Vec<u8> = Vec::new();
    r.push(#[verifier::truncate] ((x >> 56) as u8));
    r.push(#[verifier::truncate] ((x >> 48) as u8));
    r.push(#[verifier::truncate] ((x >> 40) as u8));
    r.push(#[verifier::truncate] ((x >> 32) as u8));
    r.push(#[verifier::truncate] ((x >> 24) as u8));
    r.push(#[verifier::truncate] ((x >> 16) as u8));
    r.push(#[verifier::truncate] ((x >> 8) as u8));
    r.push(#[verifier::truncate] (x as u8));
    proof {
        assert(r@ =~= be_bytes64(x));
    }
    r
}

fn extend_bytes(dst: &mut Vec<u8>, src: &Vec<u8>)
    ensures
        final(dst)@ == old(dst)@ + src@,
{
    let n = src.len();
    let mut i: usize = 0;
    while i < n
        invariant
            n == src@.len(),
            i <= n,
            dst@ == old(dst)@ + src@.take(i as int),
        decreases n - i,
    {
        dst.push(src[i]);
        proof {
            assert(old(dst)@ + src@.take(i as int + 1) =~= (old(dst)@ + src@.take(i as int)).push(
                src@[i as int],
            ));
        }
        i = i + 1;
    }
    proof {
        assert(src@.take(n as int) =~= src@);
    }
}

/// Fixed-point scale of the time-decay weighting.
pub const WEIGHT_SCALE: u128 = 1000000;

/// An entry's draw weight against the closing window: zero for an entry
/// registered at or after the close, the full amount for an entry present a
/// whole window or more, and otherwise the amount pro-rated linearly by the
/// fraction of the window the stake was present, at a fixed-point scale of
/// one million.
pub open spec fn weight_of(e: LotteryEntries, end_time: u64, duration: u64) -> int
    recommends
        duration >= 1,
{
    if e.entry_time >= end_time {
        0
    } else if (end_time - e.entry_time) as int / (duration as int) >= 1 {
        e.amount as int
    } else {
        (e.amount as int / (WEIGHT_SCALE as int)) * (((end_time - e.entry_time) as int * (
        WEIGHT_SCALE as int)) / (duration as int))
    }
}

/// The weights of a whole entry set against the closing window.
pub open spec fn weights_of(entries: Seq<LotteryEntries>, end_time: u64, duration: u64) -> Seq<
    u128,
> {
    Seq::new(entries.len(), |i: int| weight_of(entries[i], end_time, duration) as u128)
}

pub open spec fn entry_amount_measure() -> spec_fn(LotteryEntries) -> int {
    |e: LotteryEntries| e.amount as int
}

/// A weight never exceeds the entry's amount.
pub proof fn lemma_weight_bounds(e: LotteryEntries, end_time: u64, duration: u64)
    requires
        duration >= 1,
    ensures
        0 <= weight_of(e, end_time, duration) <= e.amount,
{
    if e.entry_time < end_time {
        let delta = (end_time - e.entry_time) as int;
        let dur = duration as int;
        let scale = WEIGHT_SCALE as int;
        if delta / dur < 1 {
            assert(delta < dur) by (nonlinear_arith)
                requires
                    dur >= 1,
                    delta >= 0,
                    delta / dur < 1,
            ;
            let scaled = (delta * scale) / dur;
            assert(0 <= scaled <= scale) by (nonlinear_arith)
                requires
                    dur >= 1,
                    0 <= delta < dur,
                    scale == WEIGHT_SCALE as int,
                    scaled == (delta * scale) / dur,
            ;
            let q = e.amount as int / scale;
            assert(0 <= q * scaled <= e.amount) by (nonlinear_arith)
                requires
                    0 <= scaled <= scale,
                    scale == WEIGHT_SCALE as int,
                    q == e.amount as int / scale,
                    e.amount >= 0,
            ;
        }
    }
}

/// The weight set sums to no more than the entries' amounts do.
pub proof fn lemma_weights_sum_le(entries: Seq<LotteryEntries>, end_time: u64, duration: u64)
    requires
        duration >= 1,
    ensures
        sum_by(weights_of(entries, end_time, duration), weight_measure()) <= sum_by(
            entries,
            entry_amount_measure(),
        ),
        sum_by(weights_of(entries, end_time, duration), weight_measure()) >= 0,
    decreases entries.len(),
{
    let ws = weights_of(entries, end_time, duration);
    if entries.len() == 0 {
        assert(ws =~= Seq::<u128>::empty());
    } else {
        lemma_weights_sum_le(entries.skip(1), end_time, duration);
        lemma_weight_bounds(entries[0], end_time, duration);
        assert(ws.skip(1) =~= weights_of(entries.skip(1), end_time, duration));
        assert(ws[0] == weight_of(entries[0], end_time, duration) as u128);
        assert(sum_by(ws, weight_measure()) == weight_measure()(ws[0]) + sum_by(
            ws.skip(1),
            weight_measure(),
        ));
        assert(sum_by(entries, entry_amount_measure()) == entry_amount_measure()(entries[0])
            + sum_by(entries.skip(1), entry_amount_measure()));
    }
}

/// The entries' amounts sum to the ledger's total.
pub proof fn lemma_occupied_amounts(slots: Seq<Slot>)
    ensures
        sum_by(occupied_seq(slots), entry_amount_measure()) == slots_total(slots),
{
    lemma_occupied_sum(slots);
}

/// An entry's weight against the closing window, as the draw computes it.
pub fn compute_weight(amount: u128, entry_time: u64, end_time: u64, duration: u64) -> (w: u128)
    requires
        duration >= 1,
    ensures
        forall|e: LotteryEntries| e.amount == amount && e.entry_time == entry_time ==> w as int
            == #[trigger] weight_of(e, end_time, duration),
{
    if entry_time >= end_time {
        return 0;
    }
    let delta = end_time - entry_time;
    if delta / duration >= 1 {
        return amount;
    }
    proof {
        assert((delta as int) < duration as int) by (nonlinear_arith)
            requires
                (duration as int) >= 1,
                (delta as int) >= 0,
                (delta as int) / (duration as int) < 1,
        ;
        assert((delta as int) * (WEIGHT_SCALE as int) <= u64::MAX as int * (WEIGHT_SCALE as int))
            by (nonlinear_arith)
            requires
                0 <= (delta as int) && (delta as int) <= (u64::MAX as int),
        ;
        assert(((delta as int) * (WEIGHT_SCALE as int)) / (duration as int) <= WEIGHT_SCALE as int)
            by (nonlinear_arith)
            requires
                (duration as int) >= 1,
                0 <= (delta as int) && (delta as int) < (duration as int),
        ;
        assert(((delta as int) * (WEIGHT_SCALE as int)) / (duration as int) >= 0)
            by (nonlinear_arith)
            requires
                (duration as int) >= 1,
                (delta as int) >= 0,
        ;
        assert((amount as int / (WEIGHT_SCALE as int)) * (((delta as int) * (WEIGHT_SCALE as int))
            / (duration as int)) <= amount as int) by (nonlinear_arith)
            requires
                0 <= ((delta as int) * (WEIGHT_SCALE as int)) / (duration as int),
                ((delta as int) * (WEIGHT_SCALE as int)) / (duration as int)
                    <= WEIGHT_SCALE as int,
                amount >= 0,
        ;
    }
    let scaled = ((delta as u128) * WEIGHT_SCALE) / (duration as u128);
    (amount / WEIGHT_SCALE) * scaled
}

/// The prize of a draw: restaked rewards, the pending bucket, and the newly
/// observed pending reward.
pub open spec fn draw_prize(sp: SupplyPool, observed_reward: u128) -> int {
    sp.total_rewards_restaked + sp.pending_staking_rewards + observed_reward
}

/// The triggerer's fee: `share` is a fixed-point percentage where 100 stands
/// for one percent, so the fee is `prize * share * 1_000_000 / 10_000_000_000`
/// with integer truncation.
pub open spec fn draw_fee(prize: int, share: u64) -> int {
    prize * ((share as int) * 1000000) / 10000000000
}

/// The entropy after a draw attempt: the old accumulator with the block height
/// and time mixed in, folded through the digest so it never grows.
pub open spec fn new_entropy_of(l: Lottery, height: u64, now: u64) -> Seq<u8> {
    sha256_of(l.entropy@ + be_bytes64(height) + be_bytes64(now))
}

/// The 32-byte seed a draw hands the generator: the digest of the immutable
/// seed followed by the entropy.
pub open spec fn draw_seed_of(prng_seed: Seq<u8>, entropy: Seq<u8>) -> Seq<u8> {
    sha256_of(prng_seed + entropy)
}

/// Every draw attempt, winning or degenerate, leaves this window behind.
pub open spec fn window_advanced(old_l: Lottery, new_l: Lottery, height: u64, now: u64) -> bool {
    &&& new_l.entropy@ == new_entropy_of(old_l, height, now)
    &&& new_l.seed == old_l.seed
    &&& new_l.duration == old_l.duration
    &&& new_l.start_time == now
    &&& new_l.end_time == now + old_l.duration
}

/// Run the draw. Only the triggerer may call it, only when the window is due.
/// The entropy and the window advance on every successful attempt. Over the
/// closing window's weights, a winner is picked by the seeded generator and
/// paid the prize less the triggerer's fee; the restaked bucket is redeemed
/// (the returned `redeem_amount`). An empty entry set or an all-zero weight
/// set is a soft failure: the window still advances and no one is paid. A
/// draw whose payout would be zero is a hard error and changes nothing.
#[verifier::rlimit(50)]
pub fn claim_rewards(
    state: &mut PoolState,
    sender: &String,
    height: u64,
    now: u64,
    observed_reward: u128,
) -> (r: Result<DrawOutcome, ContractError>)
    requires
        well_formed(*old(state)),
        now + old(state).lottery.duration <= u64::MAX,
        draw_prize(old(state).supply_pool, observed_reward) <= u128::MAX,
        old(state).config.triggerer_share_percentage <= 10000,
        draw_prize(old(state).supply_pool, observed_reward) * ((old(
            state,
        ).config.triggerer_share_percentage as int) * 1000000) <= u128::MAX,
        forall|a: Seq<char>| (#[trigger] old(state).users.account(a)).total_won + draw_prize(
            old(state).supply_pool,
            observed_reward,
        ) <= u128::MAX && old(state).users.account(a).available + draw_prize(
            old(state).supply_pool,
            observed_reward,
        ) <= u128::MAX,
    ensures
        well_formed(*final(state)),
        conserved(*old(state)) ==> conserved(*final(state)),
        r is Err ==> *final(state) == *old(state),
        old(state).config.is_stopped ==> r == Err::<DrawOutcome, ContractError>(
            ContractError::ContractStopped,
        ),
        !old(state).config.is_stopped && old(state).config.triggerer@ != sender@ ==> r == Err::<
            DrawOutcome,
            ContractError,
        >(ContractError::NotTriggerer),
        !old(state).config.is_stopped && old(state).config.triggerer@ == sender@ && now < old(
            state,
        ).lottery.end_time ==> r == Err::<DrawOutcome, ContractError>(
            ContractError::LotteryNotEnded,
        ),
        !old(state).config.is_stopped && old(state).config.triggerer@ == sender@ && now >= old(
            state,
        ).lottery.end_time && now < old(state).lottery.start_time ==> r == Err::<
            DrawOutcome,
            ContractError,
        >(ContractError::LotteryInFuture),
        !old(state).config.is_stopped && old(state).config.triggerer@ == sender@ && now >= old(
            state,
        ).lottery.end_time && now >= old(state).lottery.start_time ==> ({
            let old_l = old(state).lottery;
            let occ = old(state).entries.occupied();
            let ws = weights_of(occ, old_l.end_time, old_l.duration);
            let prize = draw_prize(old(state).supply_pool, observed_reward);
            let fee = draw_fee(prize, old(state).config.triggerer_share_percentage);
            let payout = prize - fee;
            let advanced = window_advanced(old_l, final(state).lottery, height, now);
            let untouched_rest = final(state).supply_pool == old(state).supply_pool && final(state).users == old(state).users && final(state).entries == old(state).entries && final(state).user_history == old(state).user_history && final(state).last_lottery_results == old(
                state,
            ).last_lottery_results && final(state).config == old(state).config;
            &&& (occ.len() == 0 ==> r == Ok::<DrawOutcome, ContractError>(DrawOutcome::NoEntries)
                && advanced && untouched_rest)
            &&& (occ.len() > 0 && (forall|k: int| 0 <= k < ws.len() ==> #[trigger] ws[k] == 0)
                ==> r == Ok::<DrawOutcome, ContractError>(DrawOutcome::AllZeroWeight) && advanced
                && untouched_rest)
            &&& (occ.len() > 0 && (exists|k: int| 0 <= k < ws.len() && #[trigger] ws[k] > 0)
                ==> ({
                let pick = weighted_choice(
                    draw_seed_of(old(state).config.prng_seed@, new_entropy_of(old_l, height, now)),
                    ws,
                );
                let winner_addr = occ[pick].user_address@;
                let acct_old = old(state).users.account(winner_addr);
                let rec = UserWinningHistory { winning_amount: payout as u64, time: now };
                &&& (payout == 0 ==> r == Err::<DrawOutcome, ContractError>(
                    ContractError::NoRewardsAvailable,
                ))
                &&& (payout > 0 ==> {
                    &&& r matches Ok(o) && o matches DrawOutcome::Winner {
                        winner: wn,
                        amount_won: aw,
                        redeem_amount: ra,
                    } && wn@ == winner_addr && aw == payout && ra == old(
                        state,
                    ).supply_pool.total_rewards_restaked
                    &&& advanced
                    &&& final(state).supply_pool == (SupplyPool {
                        total_tokens_staked: old(state).supply_pool.total_tokens_staked,
                        total_rewards_restaked: 0,
                        pending_staking_rewards: 0,
                        triggering_cost: fee as u128,
                    })
                    &&& final(state).users.account(winner_addr) == (AccountView {
                        available: acct_old.available + payout,
                        total_won: acct_old.total_won + payout,
                        ..acct_old
                    })
                    &&& forall|a: Seq<char>| a != winner_addr ==> #[trigger] final(state).users.account(a) == old(state).users.account(a)
                    &&& final(state).entries == old(state).entries
                    &&& records_of(final(state).user_history@, winner_addr) == records_of(
                        old(state).user_history@,
                        winner_addr,
                    ).push(rec)
                    &&& forall|a: Seq<char>| a != winner_addr ==> #[trigger] records_of(
                        final(state).user_history@,
                        a,
                    ) == records_of(old(state).user_history@, a)
                    &&& final(state).last_lottery_results@ == old(
                        state,
                    ).last_lottery_results@.push(
                        LastLotteryResults { winning_amount: payout as u64, time: now },
                    )
                    &&& final(state).config == old(state).config
                })
            }))
        }),
{
    if state.config.is_stopped {
        return Err(ContractError::ContractStopped);
    }
    check_if_triggerer(&state.config, sender)?;
    validate_end_time(state.lottery.end_time, now)?;
    validate_start_time(state.lottery.start_time, now)?;
    let ghost old_slots = state.entries.slots@;
    let end_time_closing = state.lottery.end_time;
    let dur = state.lottery.duration;
    let mut ebuf = copy_bytes(&state.lottery.entropy);
    let hb = u64_be_bytes(height);
    extend_bytes(&mut ebuf, &hb);
    let tb = u64_be_bytes(now);
    extend_bytes(&mut ebuf, &tb);
    proof {
        assert(ebuf@ == old(state).lottery.entropy@ + be_bytes64(height) + be_bytes64(now));
    }
    let new_entropy = sha256(ebuf.as_slice());
    let occ = state.entries.occupied_entries();
    let ghost occs = old(state).entries.occupied();
    let ghost ws = weights_of(occs, end_time_closing, dur);
    let n = occ.len();
    if n == 0 {
        let new_end = now + dur;
        state.lottery.entropy = new_entropy;
        state.lottery.start_time = now;
        state.lottery.end_time = new_end;
        return Ok(DrawOutcome::NoEntries);
    }
    let mut weights: Vec<u128> = Vec::new();
    let mut i: usize = 0;
    while i < n
        invariant
            i <= n,
            n == occ@.len(),
            occ@ == occs,
            dur >= 1,
            weights@.len() == i,
            forall|k: int| 0 <= k < i ==> (#[trigger] weights@[k]) as int == weight_of(
                occs[k],
                end_time_closing,
                dur,
            ),
        decreases n - i,
    {
        let w = compute_weight(occ[i].amount, occ[i].entry_time, end_time_closing, dur);
        weights.push(w);
        i = i + 1;
    }
    proof {
        assert(weights@ =~= ws);
        lemma_weights_sum_le(occs, end_time_closing, dur);
        lemma_occupied_amounts(old_slots);
        assert(sum_by(ws, weight_measure()) <= u128::MAX);
    }
    let mut seed_input = copy_bytes(&state.config.prng_seed);
    extend_bytes(&mut seed_input, &new_entropy);
    let seed32 = sha256(seed_input.as_slice());
    proof {
        assert(seed32@ == draw_seed_of(
            old(state).config.prng_seed@,
            new_entropy_of(old(state).lottery, height, now),
        ));
    }
    let pick = pick_weighted(&seed32, &weights);
    match pick {
        None => {
            let new_end = now + dur;
            state.lottery.entropy = new_entropy;
            state.lottery.start_time = now;
            state.lottery.end_time = new_end;
            Ok(DrawOutcome::AllZeroWeight)
        },
        Some(idx) => {
            let winner = occ[idx].user_address.clone();
            let prize = state.supply_pool.total_rewards_restaked
                + state.supply_pool.pending_staking_rewards + observed_reward;
            let share_scaled = (state.config.triggerer_share_percentage as u128) * 1000000;
            proof {
                assert(prize as int * share_scaled as int / 10000000000 <= prize as int)
                    by (nonlinear_arith)
                    requires
                        0 <= (share_scaled as int) && (share_scaled as int) <= 10000000000,
                        prize >= 0,
                ;
                assert(prize as int * share_scaled as int / 10000000000 >= 0) by (nonlinear_arith)
                    requires
                        share_scaled >= 0,
                        prize >= 0,
                ;
            }
            let fee = prize * share_scaled / 10000000000;
            let payout = prize - fee;
            if payout == 0 {
                return Err(ContractError::NoRewardsAvailable);
            }
            let redeem_amount = state.supply_pool.total_rewards_restaked;
            let new_end = now + dur;
            state.lottery.entropy = new_entropy;
            state.lottery.start_time = now;
            state.lottery.end_time = new_end;
            state.supply_pool.triggering_cost = fee;
            state.supply_pool.pending_staking_rewards = 0;
            state.supply_pool.total_rewards_restaked = 0;
            let ghost acct_w_old = state.users.account(winner@);
            let user_opt = state.users.extract(&winner);
            let mut user = match user_opt {
                Some(u) => u,
                None => default_user(),
            };
            proof {
                assert(account_of(user) == acct_w_old);
            }
            user.total_won = user.total_won + payout;
            user.available_tokens_for_withdraw = user.available_tokens_for_withdraw + payout;
            state.users.insert_new(winner.clone(), user);
            let rec = UserWinningHistory {
                winning_amount: #[verifier::truncate] (payout as u64),
                time: now,
            };
            let ghost hist_before = state.user_history@;
            state.user_history.push((winner.clone(), rec));
            proof {
                let pair = state.user_history@.last();
                assert(state.user_history@ == hist_before.push(pair));
                assert(pair.0@ == winner@);
                lemma_records_push(hist_before, pair, winner@);
                assert forall|a: Seq<char>| a != winner@ implies #[trigger] records_of(
                    state.user_history@,
                    a,
                ) == records_of(hist_before, a) by {
                    lemma_records_push(hist_before, pair, a);
                }
            }
            state.last_lottery_results.push(
                LastLotteryResults {
                    winning_amount: #[verifier::truncate] (payout as u64),
                    time: now,
                },
            );
            proof {
                let st = *state;
                assert forall|a: Seq<char>| user_entries_ok(
                    st.entries.slots@,
                    a,
                    #[trigger] st.users.account(a),
                ) by {
                    if a == winner@ {
                        assert(st.users.account(a).entry_index == acct_w_old.entry_index);
                        assert(user_entries_ok(old_slots, a, acct_w_old));
                    } else {
                        assert(st.users.account(a) == old(state).users.account(a));
                        assert(user_entries_ok(old_slots, a, old(state).users.account(a)));
                    }
                }
                assert forall|a1: Seq<char>, a2: Seq<char>, k1: int, k2: int|
                    a1 != a2 && 0 <= k1 < st.users.account(a1).entry_index.len() && 0 <= k2
                        < st.users.account(a2).entry_index.len() implies (
                #[trigger] st.users.account(a1).entry_index[k1]).slot != (
                #[trigger] st.users.account(a2).entry_index[k2]).slot by {
                    assert(st.users.account(a1).entry_index == old(state).users.account(
                        a1,
                    ).entry_index);
                    assert(st.users.account(a2).entry_index == old(state).users.account(
                        a2,
                    ).entry_index);
                }
            }
            Ok(DrawOutcome::Winner { winner, amount_won: payout, redeem_amount })
        },
    }
}

/// Principal currently forwarded to the yield source.
pub fn query_total_deposit(state: &PoolState) -> (r: u128)
    ensures
        r == state.supply_pool.total_tokens_staked,
{
    state.supply_pool.total_tokens_staked
}

/// All rewards the pool can account for right now: what the yield source
/// reports unclaimed, plus the restaked and pending buckets.
pub fn query_total_rewards(state: &PoolState, observed_reward: u128) -> (r: u128)
    requires
        observed_reward + state.supply_pool.total_rewards_restaked
            + state.supply_pool.pending_staking_rewards <= u128::MAX,
    ensures
        r == observed_reward + state.supply_pool.total_rewards_restaked
            + state.supply_pool.pending_staking_rewards,
{
    observed_reward + state.supply_pool.total_rewards_restaked
        + state.supply_pool.pending_staking_rewards
}

/// The principal delegated by `address`.
pub fn query_deposit(state: &PoolState, address: &String) -> (r: u128)
    requires
        well_formed(*state),
    ensures
        r == state.users.account(address@).delegated,
{
    match state.users.get(address) {
        Some(u) => u.amount_delegated,
        None => 0,
    }
}

/// What `address` could withdraw right now: the available balance, plus the
/// delegated principal when withdrawals from the stopped pool are allowed.
pub fn query_available_funds(state: &PoolState, address: &String) -> (r: u128)
    requires
        well_formed(*state),
        state.users.account(address@).available + state.users.account(address@).delegated
            <= u128::MAX,
    ensures
        r == state.users.account(address@).available
            + (if state.config.is_stopped_can_withdraw {
            state.users.account(address@).delegated
        } else {
            0int
        }),
{
    let (avail, delegated) = match state.users.get(address) {
        Some(u) => (u.available_tokens_for_withdraw, u.amount_delegated),
        None => (0, 0),
    };
    if state.config.is_stopped_can_withdraw {
        avail + delegated
    } else {
        avail
    }
}

/// All win records of `address`, in the order they were won.
fn collect_user_records(state: &PoolState, address: &String) -> (r: Vec<UserWinningHistory>)
    ensures
        r@ == records_of(state.user_history@, address@),
{
    let mut r: Vec<UserWinningHistory> = Vec::new();
    let n = state.user_history.len();
    let mut i: usize = 0;
    while i < n
        invariant
            n == state.user_history@.len(),
            i <= n,
            r@ == records_of(state.user_history@.take(i as int), address@),
        decreases n - i,
    {
        proof {
            assert(state.user_history@.take(i as int + 1) =~= state.user_history@.take(
                i as int,
            ).push(state.user_history@[i as int]));
            lemma_records_push(
                state.user_history@.take(i as int),
                state.user_history@[i as int],
                address@,
            );
        }
        if state.user_history[i].0 == *address {
            let rec = state.user_history[i].1;
            r.push(rec);
        }
        i = i + 1;
    }
    proof {
        assert(state.user_history@.take(n as int) =~= state.user_history@);
    }
    r
}

/// The bounded "recent" view of a win log: the last `bound` records at most,
/// most recent first, as (amount, time) pairs.
pub open spec fn recent_view(recs: Seq<UserWinningHistory>, bound: int) -> Seq<(u64, u64)> {
    let cnt = if recs.len() <= bound {
        recs.len() as int
    } else {
        bound
    };
    Seq::new(cnt as nat, |i: int| ((recs[recs.len() - 1 - i].winning_amount, recs[recs.len() - 1
        - i].time)),
    )
}

/// The full view of a win log, oldest first.
pub open spec fn full_view(recs: Seq<UserWinningHistory>) -> Seq<(u64, u64)> {
    Seq::new(recs.len(), |i: int| (recs[i].winning_amount, recs[i].time))
}

/// How many records the recent views are bounded to.
pub const RECENT_RECORDS_BOUND: usize = 5;

fn recent_of(recs: &Vec<UserWinningHistory>) -> (r: Vec<(u64, u64)>)
    ensures
        r@ == recent_view(recs@, RECENT_RECORDS_BOUND as int),
{
    let total = recs.len();
    let count = if total > RECENT_RECORDS_BOUND {
        RECENT_RECORDS_BOUND
    } else {
        total
    };
    let mut r: Vec<(u64, u64)> = Vec::new();
    let mut i: usize = 0;
    while i < count
        invariant
            count <= total,
            total == recs@.len(),
            i <= count,
            r@.len() == i,
            forall|j: int| 0 <= j < i ==> #[trigger] r@[j] == ((recs@[total - 1 - j].winning_amount,
            recs@[total - 1 - j].time)),
        decreases count - i,
    {
        let rec = recs[total - 1 - i];
        r.push((rec.winning_amount, rec.time));
        i = i + 1;
    }
    proof {
        assert(r@ =~= recent_view(recs@, RECENT_RECORDS_BOUND as int));
    }
    r
}

fn full_of(recs: &Vec<UserWinningHistory>) -> (r: Vec<(u64, u64)>)
    ensures
        r@ == full_view(recs@),
{
    let total = recs.len();
    let mut r: Vec<(u64, u64)> = Vec::new();
    let mut i: usize = 0;
    while i < total
        invariant
            total == recs@.len(),
            i <= total,
            r@.len() == i,
            forall|j: int| 0 <= j < i ==> #[trigger] r@[j] == ((recs@[j].winning_amount,
            recs@[j].time)),
        decreases total - i,
    {
        let rec = recs[i];
        r.push((rec.winning_amount, rec.time));
        i = i + 1;
    }
    proof {
        assert(r@ =~= full_view(recs@));
    }
    r
}

/// The five most recent wins of `address`, most recent first.
pub fn query_user_past_records(state: &PoolState, address: &String) -> (r: Vec<(u64, u64)>)
    ensures
        r@ == recent_view(records_of(state.user_history@, address@), RECENT_RECORDS_BOUND as int),
{
    let recs = collect_user_records(state, address);
    recent_of(&recs)
}

/// Every win of `address`, oldest first.
pub fn query_user_all_past_records(state: &PoolState, address: &String) -> (r: Vec<(u64, u64)>)
    ensures
        r@ == full_view(records_of(state.user_history@, address@)),
{
    let recs = collect_user_records(state, address);
    full_of(&recs)
}

/// Every draw's win, oldest first.
pub fn query_all_past_results(state: &PoolState) -> (r: Vec<(u64, u64)>)
    ensures
        r@.len() == state.last_lottery_results@.len(),
        forall|j: int| 0 <= j < r@.len() ==> #[trigger] r@[j] == ((
        state.last_lottery_results@[j].winning_amount, state.last_lottery_results@[j].time)),
{
    let total = state.last_lottery_results.len();
    let mut r: Vec<(u64, u64)> = Vec::new();
    let mut i: usize = 0;
    while i < total
        invariant
            total == state.last_lottery_results@.len(),
            i <= total,
            r@.len() == i,
            forall|j: int| 0 <= j < i ==> #[trigger] r@[j] == ((
            state.last_lottery_results@[j].winning_amount, state.last_lottery_results@[j].time)),
        decreases total - i,
    {
        let rec = state.last_lottery_results[i];
        r.push((rec.winning_amount, rec.time));
        i = i + 1;
    }
    r
}

/// The five most recent draws' wins, most recent first.
pub fn query_past_results(state: &PoolState) -> (r: Vec<(u64, u64)>)
    ensures
        r@.len() == (if state.last_lottery_results@.len() <= RECENT_RECORDS_BOUND as int {
            state.last_lottery_results@.len() as int
        } else {
            RECENT_RECORDS_BOUND as int
        }),
        forall|j: int| 0 <= j < r@.len() ==> #[trigger] r@[j] == ((
        state.last_lottery_results@[state.last_lottery_results@.len() - 1 - j].winning_amount,
        state.last_lottery_results@[state.last_lottery_results@.len() - 1 - j].time)),
{
    let total = state.last_lottery_results.len();
    let count = if total > RECENT_RECORDS_BOUND {
        RECENT_RECORDS_BOUND
    } else {
        total
    };
    let mut r: Vec<(u64, u64)> = Vec::new();
    let mut i: usize = 0;
    while i < count
        invariant
            count <= total,
            total == state.last_lottery_results@.len(),
            i <= count,
            r@.len() == i,
            forall|j: int| 0 <= j < i ==> #[trigger] r@[j] == ((
            state.last_lottery_results@[total - 1 - j].winning_amount,
            state.last_lottery_results@[total - 1 - j].time)),
        decreases count - i,
    {
        let rec = state.last_lottery_results[total - 1 - i];
        r.push((rec.winning_amount, rec.time));
        i = i + 1;
    }
    r
}

} // verus!
