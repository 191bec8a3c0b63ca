//! Plain message and outcome types, the library's error taxonomy, and the
//! response padding helper.
use vstd::prelude::*;

verus! {

/// Responses to the host are padded to a multiple of this many bytes.
pub const RESPONSE_BLOCK_SIZE: usize = 256;

#[derive(Clone, Copy, Debug, PartialEq, Eq, Structural)]
pub enum ResponseStatus {
    Success,
    Failure,
}

#[derive(Clone, Copy, Debug, PartialEq, Eq, Structural)]
pub enum LPStakingResponseStatus {
    Success,
    Failure,
}

/// Requests this pool sends to the external yield contract.
#[derive(Clone, Copy, Debug, PartialEq, Eq, Structural)]
pub enum LPStakingHandleMsg {
    Redeem { amount: u128 },
    Deposit,
}

/// The yield contract's answer to a pending-reward query.
#[derive(Clone, Copy, Debug, PartialEq, Eq, Structural)]
pub struct RewardsInfo {
    pub rewards: u128,
}

#[derive(Clone, Copy, Debug, PartialEq, Eq, Structural)]
pub struct LPStakingRewardsResponse {
    pub rewards: RewardsInfo,
}

/// Every way a call can fail. A failing call leaves the state unchanged.
#[derive(Clone, Copy, Debug, PartialEq, Eq, Structural)]
pub enum ContractError {
    /// The caller is not the admin.
    NotAdmin,
    /// The caller is neither the admin nor the triggerer.
    NotTriggerer,
    /// The contract is stopped and the action is not allowed.
    ContractStopped,
    /// The action is not available in the current lifecycle state.
    ActionUnavailable,
    /// Tokens were sent from a contract other than the supported token.
    WrongToken,
    /// A deposit under the minimum of 1,000,000 minor units.
    DepositTooSmall,
    /// A withdrawal trigger with nothing staked.
    NoStake,
    /// A withdrawal trigger for more than the staked amount.
    WithdrawTooMuchStaked,
    /// A withdrawal with no tokens available.
    NoTokensAvailable,
    /// A withdrawal for more than the available balance.
    WithdrawTooMuchAvailable,
    /// A stopped-pool withdrawal for more than delegated plus available.
    WithdrawTooMuchTotal,
    /// The lottery window has not ended yet.
    LotteryNotEnded,
    /// The lottery window starts in the future.
    LotteryInFuture,
    /// A draw whose prize, after the fee, is zero.
    NoRewardsAvailable,
    /// A fee withdrawal with no fee accrued.
    TriggerShareNotSufficient,
}

/// What a draw call produced. The two degenerate outcomes are successes: the
/// window is advanced and the lottery goes on.
#[derive(Clone, Debug, PartialEq)]
pub enum DrawOutcome {
    Winner { winner: String, amount_won: u128, redeem_amount: u128 },
    NoEntries,
    AllZeroWeight,
}

/// Pad `message` up to a multiple of `block_size`, using spaces at the end.
pub fn space_pad(block_size: usize, message: &mut Vec<u8>)
    requires
        block_size > 0,
    ensures
        old(message)@.len() as int % (block_size as int) == 0 ==> final(message)@ == old(
            message,
        )@,
        old(message)@.len() as int % (block_size as int) != 0 ==> final(message)@.len() as int
            == old(message)@.len() + block_size - old(message)@.len() as int % (block_size as int),
        final(message)@.len() as int % (block_size as int) == 0,
        final(message)@.take(old(message)@.len() as int) == old(message)@,
        forall|i: int| old(message)@.len() <= i < final(message)@.len() ==> final(message)@[i]
            == 32u8,
{
    let len = message.len();
    let surplus = len % block_size;
    if surplus == 0 {
        proof {
            assert(final(message)@.take(len as int) =~= old(message)@);
        }
        return ;
    }
    let missing = block_size - surplus;
    let mut k: usize = 0;
    while k < missing
        invariant
            k <= missing,
            message@.len() == len + k,
            message@.take(len as int) =~= old(message)@,
            forall|i: int| len <= i < message@.len() ==> message@[i] == 32u8,
        decreases missing - k,
    {
        message.push(32u8);
        k = k + 1;
    }
    proof {
        let b = block_size as int;
        let l = len as int;
        assert((l + (b - l % b)) % b == 0) by (nonlinear_arith)
            requires
                b > 0,
        ;
    }
}

} // verus!
