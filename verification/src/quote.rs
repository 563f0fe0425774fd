//! What an unstake of pool tokens pays out.
//!
//! The stake pool keeps its withdrawal fee in pool tokens and releases
//! lamports for the rest. To these the rent of the new stake account is added:
//! the sum is what leaves the vault and what the fees are charged on. The
//! payout is that sum less the base fee, the manager fee and the rent.

use vstd::prelude::*;
use crate::error::{LiquidUnstakerErrorCode, QuoteError};
use crate::fee::{Fee, PoolConfig, FEE_PCT_DIVISOR, base_fee_rate};
use crate::stake_pool::{
    Identity,
    StakePoolConfig,
    calc_lamports_withdraw_amount,
    calc_pool_tokens_stake_withdrawal_fee,
    withdraw_lamports,
    withdrawal_fee_tokens,
};

verus! {

/// What an unstake costs and what it pays, in lamports.
#[derive(Clone, Copy, Debug, PartialEq, Eq)]
pub struct Quote {
    pub base_fee: u64,
    pub manager_fee: u64,
    pub payout_amount: u64,
}

/// What an unstake that pays in wrapped SOL costs and what it pays.
#[derive(Clone, Copy, Debug, PartialEq, Eq)]
pub struct WrappedQuote {
    pub base_fee: u64,
    pub manager_fee: u64,
    /// Wrapped SOL paid out. It includes the rent of the new stake account
    /// where the caller has paid that rent.
    pub wrapped_payout: u64,
    /// Lamports paid out beside the wrapped SOL: none.
    pub native_payout: u64,
}

/// The lamports that an unstake of `pool_tokens` moves out of the vault: what
/// the stake pool releases for the tokens that are left after its fee, plus
/// the rent.
pub open spec fn gross_lamports(
    stake_pool: StakePoolConfig,
    pool_tokens: u64,
    stake_account_rent: u64,
) -> Result<u64, LiquidUnstakerErrorCode> {
    let fee = withdrawal_fee_tokens(stake_pool.stake_withdrawal_fee, pool_tokens);
    if fee > u64::MAX {
        Err(LiquidUnstakerErrorCode::MathOverflow)
    } else if fee > pool_tokens {
        Err(LiquidUnstakerErrorCode::MathUnderflow)
    } else {
        let released = withdraw_lamports(stake_pool, (pool_tokens - fee) as u64);
        if released + stake_account_rent > u64::MAX {
            Err(LiquidUnstakerErrorCode::MathOverflow)
        } else {
            Ok((released + stake_account_rent) as u64)
        }
    }
}

/// The base fee on `total` lamports at `rate`.
pub open spec fn base_fee_on(rate: u64, total: u64) -> int {
    rate * total / (FEE_PCT_DIVISOR as int)
}

/// The manager fee on `total` lamports at `rate`: `manager_fee_pct` percent of
/// the exact base fee, rounded down once.
pub open spec fn manager_fee_on(pool: PoolConfig, rate: u64, total: u64) -> int {
    rate * total * pool.manager_fee_pct / (100 * FEE_PCT_DIVISOR)
}

/// The quote for moving `total` lamports out of the vault, `stake_account_rent`
/// of them being rent.
pub open spec fn priced(pool: PoolConfig, total: u64, stake_account_rent: u64) -> Result<
    Quote,
    LiquidUnstakerErrorCode,
> {
    if total > pool.sol_vault_lamports {
        Err(LiquidUnstakerErrorCode::InsufficientSolVaultBalance)
    } else {
        match base_fee_rate(pool, pool.sol_vault_lamports, total) {
            Err(e) => Err(e),
            Ok(rate) => {
                let base = base_fee_on(rate, total);
                let manager = manager_fee_on(pool, rate, total);
                if base > u64::MAX || manager > u64::MAX || base + manager > u64::MAX {
                    Err(LiquidUnstakerErrorCode::MathOverflow)
                } else if base + manager + stake_account_rent > total {
                    Err(LiquidUnstakerErrorCode::MathUnderflow)
                } else {
                    Ok(
                        Quote {
                            base_fee: base as u64,
                            manager_fee: manager as u64,
                            payout_amount: (total - base - manager - stake_account_rent) as u64,
                        },
                    )
                }
            },
        }
    }
}

/// The quote for an unstake of `pool_tokens`.
pub open spec fn quoted(
    stake_pool: StakePoolConfig,
    pool: PoolConfig,
    pool_tokens: u64,
    stake_account_rent: u64,
) -> Result<Quote, LiquidUnstakerErrorCode> {
    match gross_lamports(stake_pool, pool_tokens, stake_account_rent) {
        Err(e) => Err(e),
        Ok(total) => priced(pool, total, stake_account_rent),
    }
}

/// The quote of an unstake that pays in wrapped SOL, from the quote in
/// lamports. The caller who has paid the rent of the new stake account, which
/// is the case unless that account is a program derived address, has it back
/// in wrapped SOL.
pub open spec fn wrapped(
    quote: Quote,
    stake_account_rent: u64,
    new_stake_account_as_pda: bool,
) -> WrappedQuote {
    WrappedQuote {
        base_fee: quote.base_fee,
        manager_fee: quote.manager_fee,
        wrapped_payout: if new_stake_account_as_pda {
            quote.payout_amount
        } else {
            (quote.payout_amount + stake_account_rent) as u64
        },
        native_payout: 0,
    }
}

/// What is quoted for an unstake of the token of the given mint: where the
/// stake pool is not the pool of that token, `PoolMintMismatch`, whatever
/// else is handed in; else what `quoted` is, an error code as `Unstake`.
pub open spec fn quoted_for_mint<Q>(
    mint: Identity,
    stake_pool: StakePoolConfig,
    quoted: Result<Q, LiquidUnstakerErrorCode>,
) -> Result<Q, QuoteError> {
    if stake_pool.pool_mint != mint {
        Err(QuoteError::PoolMintMismatch)
    } else {
        match quoted {
            Ok(quote) => Ok(quote),
            Err(e) => Err(QuoteError::Unstake(e)),
        }
    }
}

/// A quote accounts for every lamport that leaves the vault: payout, base fee,
/// manager fee and rent add up to what the stake pool releases plus the rent.
/// The payout is at most what the stake pool releases.
pub proof fn lemma_quote_accounts_for_gross(
    stake_pool: StakePoolConfig,
    pool: PoolConfig,
    pool_tokens: u64,
    stake_account_rent: u64,
)
    requires
        quoted(stake_pool, pool, pool_tokens, stake_account_rent) is Ok,
    ensures
        gross_lamports(stake_pool, pool_tokens, stake_account_rent) is Ok,
        ({
            let quote = quoted(stake_pool, pool, pool_tokens, stake_account_rent)->Ok_0;
            let gross = gross_lamports(stake_pool, pool_tokens, stake_account_rent)->Ok_0;
            &&& quote.payout_amount + quote.base_fee + quote.manager_fee + stake_account_rent
                == gross
            &&& gross == withdraw_lamports(
                stake_pool,
                (pool_tokens - withdrawal_fee_tokens(
                    stake_pool.stake_withdrawal_fee,
                    pool_tokens,
                )) as u64,
            ) + stake_account_rent
            &&& gross <= pool.sol_vault_lamports
        }),
{
}

/// The lamports that an unstake of `pool_tokens` moves out of the vault.
///
/// `MathOverflow` where the fee of the stake pool, what it releases, or that
/// plus the rent is beyond 64 bits; `MathUnderflow` where the fee is more than
/// the pool tokens.
pub fn total_amount_to_unstake(
    stake_pool: &StakePoolConfig,
    pool_tokens: u64,
    stake_account_rent: u64,
) -> (r: Result<u64, LiquidUnstakerErrorCode>)
    ensures
        r == gross_lamports(*stake_pool, pool_tokens, stake_account_rent),
{
    let pool_tokens_fee = match calc_pool_tokens_stake_withdrawal_fee(stake_pool, pool_tokens) {
        Some(fee) => fee,
        None => {
            return Err(LiquidUnstakerErrorCode::MathOverflow);
        },
    };
    let pool_tokens_net = match pool_tokens.checked_sub(pool_tokens_fee) {
        Some(net) => net,
        None => {
            return Err(LiquidUnstakerErrorCode::MathUnderflow);
        },
    };
    let released = match calc_lamports_withdraw_amount(stake_pool, pool_tokens_net) {
        Some(lamports) => lamports,
        None => {
            return Err(LiquidUnstakerErrorCode::MathOverflow);
        },
    };
    match released.checked_add(stake_account_rent) {
        Some(total) => Ok(total),
        None => Err(LiquidUnstakerErrorCode::MathOverflow),
    }
}

proof fn lemma_product_bounds(rate: u64, total: u64, pct: u8)
    by (nonlinear_arith)
    requires
        rate <= u32::MAX,
    ensures
        0 <= rate * total <= 0xffff_ffff * 0xffff_ffff_ffff_ffff,
        0 <= rate * total * pct <= 0xffff_ffff * 0xffff_ffff_ffff_ffff * 0xff,
{
    assert(0 <= rate * total <= 0xffff_ffff * 0xffff_ffff_ffff_ffff);
}

/// The quote for moving `total_amount_to_unstake` lamports out of the vault,
/// `stake_account_rent` of them being rent.
///
/// `InsufficientSolVaultBalance` where the vault holds less than that. Else
/// the error of the base fee rate, where it has none. Else `MathOverflow`
/// where a fee or their sum is beyond 64 bits, and `MathUnderflow` where fees
/// and rent together are more than the amount.
pub fn price_unstake(
    pool: &PoolConfig,
    total_amount_to_unstake: u64,
    stake_account_rent: u64,
) -> (r: Result<Quote, LiquidUnstakerErrorCode>)
    ensures
        r == priced(*pool, total_amount_to_unstake, stake_account_rent),
        r matches Ok(quote) ==> quote.payout_amount + quote.base_fee + quote.manager_fee
            + stake_account_rent == total_amount_to_unstake,
{
    if total_amount_to_unstake > pool.sol_vault_lamports {
        return Err(LiquidUnstakerErrorCode::InsufficientSolVaultBalance);
    }
    let rate: u64 = match Fee::calculate_base_fee(
        pool,
        pool.sol_vault_lamports,
        total_amount_to_unstake,
    ) {
        Ok(rate) => rate,
        Err(e) => {
            return Err(e);
        },
    };
    proof {
        lemma_product_bounds(rate, total_amount_to_unstake, pool.manager_fee_pct);
    }
    let charged: u128 = (rate as u128) * (total_amount_to_unstake as u128);
    let base: u128 = charged / (FEE_PCT_DIVISOR as u128);
    let manager: u128 = charged * (pool.manager_fee_pct as u128) / (100 * (FEE_PCT_DIVISOR
        as u128));
    if base > u64::MAX as u128 || manager > u64::MAX as u128 {
        return Err(LiquidUnstakerErrorCode::MathOverflow);
    }
    let fee = Fee { base_fee: base as u64, manager_fee: manager as u64 };
    let fee_amount = match fee.total_fee() {
        Ok(amount) => amount,
        Err(e) => {
            return Err(e);
        },
    };
    let after_fees = match total_amount_to_unstake.checked_sub(fee_amount) {
        Some(left) => left,
        None => {
            return Err(LiquidUnstakerErrorCode::MathUnderflow);
        },
    };
    match after_fees.checked_sub(stake_account_rent) {
        Some(payout) => Ok(
            Quote { base_fee: fee.base_fee, manager_fee: fee.manager_fee, payout_amount: payout },
        ),
        None => Err(LiquidUnstakerErrorCode::MathUnderflow),
    }
}

/// The quote for an unstake of `pool_tokens` that pays in lamports.
///
/// The errors are those of [`total_amount_to_unstake`] and then those of
/// [`price_unstake`]. A quote accounts for every lamport: payout, fees and
/// rent add up to what the stake pool releases plus the rent.
pub fn quote_lst_unstake(
    stake_pool_state: &StakePoolConfig,
    liquid_unstake_pool_state: &PoolConfig,
    pool_tokens: u64,
    stake_account_rent: u64,
) -> (r: Result<Quote, LiquidUnstakerErrorCode>)
    ensures
        r == quoted(*stake_pool_state, *liquid_unstake_pool_state, pool_tokens, stake_account_rent),
        r matches Ok(quote) ==> gross_lamports(*stake_pool_state, pool_tokens, stake_account_rent)
            == Ok::<u64, LiquidUnstakerErrorCode>(
            (quote.payout_amount + quote.base_fee + quote.manager_fee + stake_account_rent) as u64,
        ),
{
    match total_amount_to_unstake(stake_pool_state, pool_tokens, stake_account_rent) {
        Ok(total) => price_unstake(liquid_unstake_pool_state, total, stake_account_rent),
        Err(e) => Err(e),
    }
}

/// The quote for an unstake of `pool_tokens` that pays in wrapped SOL.
///
/// It fails where [`quote_lst_unstake`] fails. The fees are the same. The
/// wrapped payout is the payout in lamports, plus the rent unless the new
/// stake account is a program derived address.
pub fn quote_lst_unstake_wrapped(
    stake_pool_state: &StakePoolConfig,
    liquid_unstake_pool_state: &PoolConfig,
    pool_tokens: u64,
    new_stake_account_as_pda: bool,
    stake_account_rent: u64,
) -> (r: Result<WrappedQuote, LiquidUnstakerErrorCode>)
    ensures
        match quoted(
            *stake_pool_state,
            *liquid_unstake_pool_state,
            pool_tokens,
            stake_account_rent,
        ) {
            Ok(quote) => r == Ok::<WrappedQuote, LiquidUnstakerErrorCode>(
                wrapped(quote, stake_account_rent, new_stake_account_as_pda),
            ),
            Err(e) => r == Err::<WrappedQuote, LiquidUnstakerErrorCode>(e),
        },
{
    let quote = match quote_lst_unstake(
        stake_pool_state,
        liquid_unstake_pool_state,
        pool_tokens,
        stake_account_rent,
    ) {
        Ok(quote) => quote,
        Err(e) => {
            return Err(e);
        },
    };
    let refund: u64 = if new_stake_account_as_pda {
        0
    } else {
        stake_account_rent
    };
    Ok(
        WrappedQuote {
            base_fee: quote.base_fee,
            manager_fee: quote.manager_fee,
            wrapped_payout: quote.payout_amount + refund,
            native_payout: 0,
        },
    )
}

/// The quote for an unstake, paid in lamports, of `pool_tokens` of the token
/// of the given mint.
///
/// Before anything is computed the stake pool is held against the mint:
/// where it is not the pool of that token, the result is `PoolMintMismatch`.
/// Else it is what [`quote_lst_unstake`] gives.
pub fn quote_lst_unstake_for_mint(
    mint: &Identity,
    stake_pool_state: &StakePoolConfig,
    liquid_unstake_pool_state: &PoolConfig,
    pool_tokens: u64,
    stake_account_rent: u64,
) -> (r: Result<Quote, QuoteError>)
    ensures
        r == quoted_for_mint(
            *mint,
            *stake_pool_state,
            quoted(*stake_pool_state, *liquid_unstake_pool_state, pool_tokens, stake_account_rent),
        ),
{
    match stake_pool_state.check_mint(mint) {
        Ok(()) => {},
        Err(e) => {
            return Err(e);
        },
    }
    match quote_lst_unstake(
        stake_pool_state,
        liquid_unstake_pool_state,
        pool_tokens,
        stake_account_rent,
    ) {
        Ok(quote) => Ok(quote),
        Err(e) => Err(QuoteError::Unstake(e)),
    }
}

/// The quote for an unstake, paid in wrapped SOL, of `pool_tokens` of the
/// token of the given mint.
///
/// Before anything is computed the stake pool is held against the mint:
/// where it is not the pool of that token, the result is `PoolMintMismatch`.
/// Else it is what [`quote_lst_unstake_wrapped`] gives.
pub fn quote_lst_unstake_wrapped_for_mint(
    mint: &Identity,
    stake_pool_state: &StakePoolConfig,
    liquid_unstake_pool_state: &PoolConfig,
    pool_tokens: u64,
    new_stake_account_as_pda: bool,
    stake_account_rent: u64,
) -> (r: Result<WrappedQuote, QuoteError>)
    ensures
        r == quoted_for_mint(
            *mint,
            *stake_pool_state,
            match quoted(
                *stake_pool_state,
                *liquid_unstake_pool_state,
                pool_tokens,
                stake_account_rent,
            ) {
                Ok(quote) => Ok(wrapped(quote, stake_account_rent, new_stake_account_as_pda)),
                Err(e) => Err(e),
            },
        ),
{
    match stake_pool_state.check_mint(mint) {
        Ok(()) => {},
        Err(e) => {
            return Err(e);
        },
    }
    match quote_lst_unstake_wrapped(
        stake_pool_state,
        liquid_unstake_pool_state,
        pool_tokens,
        new_stake_account_as_pda,
        stake_account_rent,
    ) {
        Ok(quote) => Ok(quote),
        Err(e) => Err(QuoteError::Unstake(e)),
    }
}

} // verus!
