//! A snapshot of a stake pool and of its validator list, and what the stake
//! pool program computes from it on a withdrawal.

use vstd::prelude::*;
use vstd::slice::slice_to_vec;
use crate::error::QuoteError;

verus! {

/// The address of an account: 32 bytes.
#[derive(Clone, Copy, Debug, PartialEq, Eq)]
pub struct Identity {
    pub bytes: [u8; 32],
}

/// What state the stake account of a validator is in.
#[derive(Clone, Copy, Debug, PartialEq, Eq)]
pub enum StakeStatus {
    Active,
    DeactivatingTransient,
    ReadyForRemoval,
    DeactivatingValidator,
    DeactivatingAll,
}

/// One entry of the validator list of a stake pool.
#[derive(Clone, Copy, Debug, PartialEq, Eq)]
pub struct ValidatorRecord {
    /// The vote account of the validator.
    pub identity: Identity,
    /// Lamports on the stake account of the validator.
    pub active_stake: u64,
    pub status: StakeStatus,
}

/// A fee as a ratio. A zero denominator charges nothing.
#[derive(Clone, Copy, Debug, PartialEq, Eq)]
pub struct WithdrawalFee {
    pub numerator: u64,
    pub denominator: u64,
}

/// What a withdrawal reads of the state of a stake pool.
#[derive(Clone, Copy, Debug, PartialEq, Eq)]
pub struct StakePoolConfig {
    /// The mint of the pool token.
    pub pool_mint: Identity,
    /// Pool tokens in circulation.
    pub pool_token_supply: u64,
    /// Lamports under management. With the supply it gives the exchange rate.
    pub total_lamports: u64,
    /// The fee that the stake pool takes, in pool tokens, on a withdrawal of stake.
    pub stake_withdrawal_fee: WithdrawalFee,
    /// The validator whose stake a withdrawal has to take first.
    pub preferred_withdraw_validator: Option<Identity>,
}

/// The pool tokens that the stake pool keeps of `pool_tokens` as its fee:
/// `pool_tokens * numerator / denominator`, rounded up.
pub open spec fn withdrawal_fee_tokens(fee: WithdrawalFee, pool_tokens: u64) -> int {
    if fee.denominator == 0 {
        0
    } else {
        (pool_tokens * fee.numerator + fee.denominator - 1) / (fee.denominator as int)
    }
}

/// The lamports that the stake pool releases for `pool_tokens`:
/// `pool_tokens * total_lamports / pool_token_supply`, rounded down, and
/// nothing where there is no supply.
pub open spec fn withdraw_lamports(pool: StakePoolConfig, pool_tokens: u64) -> int {
    if pool.pool_token_supply == 0 {
        0
    } else {
        pool_tokens * pool.total_lamports / (pool.pool_token_supply as int)
    }
}

/// Calls `spl_stake_pool::state::StakePool::calc_pool_tokens_stake_withdrawal_fee`
/// on a stake pool that has the given withdrawal fee. The fee is the amount
/// times the ratio, rounded up, and zero for a zero denominator; it comes
/// back as `None` where it does not fit in 64 bits.
#[verifier::external_body]
pub(crate) fn calc_pool_tokens_stake_withdrawal_fee(
    pool: &StakePoolConfig,
    pool_tokens: u64,
) -> (fee: Option<u64>)
    ensures
        withdrawal_fee_tokens(pool.stake_withdrawal_fee, pool_tokens) <= u64::MAX ==> fee == Some(
            withdrawal_fee_tokens(pool.stake_withdrawal_fee, pool_tokens) as u64,
        ),
        withdrawal_fee_tokens(pool.stake_withdrawal_fee, pool_tokens) > u64::MAX ==> fee is None,
{
    let state = spl_stake_pool::state::StakePool {
        stake_withdrawal_fee: spl_stake_pool::state::Fee {
            numerator: pool.stake_withdrawal_fee.numerator,
            denominator: pool.stake_withdrawal_fee.denominator,
        },
        ..Default::default()
    };
    state.calc_pool_tokens_stake_withdrawal_fee(pool_tokens)
}

/// Calls `spl_stake_pool::state::StakePool::calc_lamports_withdraw_amount` on
/// a stake pool that has the given supply and lamports. The amount is the
/// pool tokens times `total_lamports / pool_token_supply`, rounded down, and
/// zero for a zero supply; it comes back as `None` where it does not fit in
/// 64 bits.
#[verifier::external_body]
pub(crate) fn calc_lamports_withdraw_amount(pool: &StakePoolConfig, pool_tokens: u64) -> (lamports:
    Option<u64>)
    ensures
        withdraw_lamports(*pool, pool_tokens) <= u64::MAX ==> lamports == Some(
            withdraw_lamports(*pool, pool_tokens) as u64,
        ),
        withdraw_lamports(*pool, pool_tokens) > u64::MAX ==> lamports is None,
{
    let state = spl_stake_pool::state::StakePool {
        total_lamports: pool.total_lamports,
        pool_token_supply: pool.pool_token_supply,
        ..Default::default()
    };
    state.calc_lamports_withdraw_amount(pool_tokens)
}

impl StakePoolConfig {
    /// Whether the pool token of the stake pool is the token of the given
    /// mint. An unstake of another token is not for this stake pool.
    pub fn has_mint(&self, mint: &Identity) -> (same: bool)
        ensures
            same == (self.pool_mint == *mint),
    {
        self.pool_mint.same_as(mint)
    }

    /// Accepts the stake pool for an unstake of the token of the given mint:
    /// `PoolMintMismatch` where, and only where, that is not its pool token.
    pub fn check_mint(&self, mint: &Identity) -> (r: Result<(), QuoteError>)
        ensures
            self.pool_mint == *mint ==> r == Ok::<(), QuoteError>(()),
            self.pool_mint != *mint ==> r == Err::<(), QuoteError>(QuoteError::PoolMintMismatch),
    {
        if self.has_mint(mint) {
            Ok(())
        } else {
            Err(QuoteError::PoolMintMismatch)
        }
    }
}

impl Identity {
    /// The address as a vector of its bytes.
    pub fn to_vec(&self) -> (bytes: Vec<u8>)
        ensures
            bytes@ == self.bytes@,
    {
        slice_to_vec(self.bytes.as_slice())
    }

    /// Whether two addresses are the same, byte for byte.
    pub fn same_as(&self, other: &Identity) -> (same: bool)
        ensures
            same == (*self == *other),
    {
        let mut i: usize = 0;
        while i < 32
            invariant
                i <= 32,
                forall|k: int| 0 <= k < i ==> self.bytes[k] == other.bytes[k],
            decreases 32 - i,
        {
            if self.bytes[i] != other.bytes[i] {
                return false;
            }
            i += 1;
        }
        assert(self.bytes =~= other.bytes);
        true
    }
}

} // verus!
