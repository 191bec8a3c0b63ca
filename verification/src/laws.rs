//! The library's standing laws, stated once in the open so a reader need not
//! chase them through the operations' contracts.
use vstd::prelude::*;
use crate::contract::{
    PoolState, well_formed, conserved, accounts_ok, draw_seed_of, new_entropy_of, weights_of,
};
use crate::arena::{idx_sum, lemma_idx_sum_le_total};
use crate::rng::weighted_choice;

verus! {

/// Conservation: in a conserved, well-formed pool, the delegated principal of
/// all accounts together, the total held by the live stake entries, and the
/// staked bucket of the supply pool are one and the same number. `init`
/// establishes `conserved`, and `deposit`, `trigger_withdraw` and
/// `claim_rewards` each carry it forward (their contracts say so); only a
/// withdrawal from a stopped pool, which pays delegated principal out
/// directly, gives it up.
pub proof fn lemma_conservation(state: PoolState)
    requires
        well_formed(state),
        conserved(state),
    ensures
        state.users.delegated_total() == state.entries.total_amount(),
        state.users.delegated_total() == state.supply_pool.total_tokens_staked as int,
{
}

/// Each single account is covered: a well-formed pool's ledger holds at least
/// as much for an address as that address has delegated, so a full
/// withdrawal trigger can always be served from the address's own entries.
pub proof fn lemma_account_covered(state: PoolState, a: Seq<char>)
    requires
        well_formed(state),
    ensures
        state.users.account(a).delegated <= idx_sum(
            state.entries.slots@,
            state.users.account(a).entry_index,
        ),
        idx_sum(state.entries.slots@, state.users.account(a).entry_index)
            <= state.entries.total_amount(),
{
    assert(accounts_ok(state));
    assert(crate::contract::user_entries_ok(state.entries.slots@, a, state.users.account(a)));
    lemma_idx_sum_le_total(state.entries.slots@, state.users.account(a).entry_index);
}

/// Deterministic draw: two draws over the same immutable seed, the same
/// accumulated entropy, the same entry set and window, and the same block
/// height and time pick the same entry — and so the same winner. The drawn
/// index is `weighted_choice` of the generator seed and the weight set, a
/// function of its arguments alone, which is exactly what `claim_rewards`'
/// contract says the draw returns.
pub proof fn lemma_draw_deterministic(s1: PoolState, s2: PoolState, height: u64, now: u64)
    requires
        s1.config.prng_seed@ == s2.config.prng_seed@,
        s1.lottery.entropy@ == s2.lottery.entropy@,
        s1.lottery.end_time == s2.lottery.end_time,
        s1.lottery.duration == s2.lottery.duration,
        s1.entries.occupied() == s2.entries.occupied(),
    ensures
        ({
            let pick1 = weighted_choice(
                draw_seed_of(s1.config.prng_seed@, new_entropy_of(s1.lottery, height, now)),
                weights_of(s1.entries.occupied(), s1.lottery.end_time, s1.lottery.duration),
            );
            let pick2 = weighted_choice(
                draw_seed_of(s2.config.prng_seed@, new_entropy_of(s2.lottery, height, now)),
                weights_of(s2.entries.occupied(), s2.lottery.end_time, s2.lottery.duration),
            );
            &&& pick1 == pick2
            &&& (0 <= pick1 < s1.entries.occupied().len() ==> s1.entries.occupied()[
                pick1
            ].user_address@ == s2.entries.occupied()[pick2].user_address@)
        }),
{
}

} // verus!
