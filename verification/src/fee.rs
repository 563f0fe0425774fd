//! The tiered base fee that an unstake pays against the liquidity of the vault.
//!
//! While a withdrawal leaves the vault at or above `min_sol_for_min_fee`, the
//! rate is `fee_min`. Below that threshold the rate rises linearly towards
//! `fee_max`, which it reaches when the vault is empty. Rates are in units of
//! which [`FEE_PCT_DIVISOR`] make 100%. Products are taken in 128 bits, so
//! that no rate is lost to an overflow on the way.

use vstd::prelude::*;
use crate::error::LiquidUnstakerErrorCode;

verus! {

/// What a fee rate of 100% is, in the units of `fee_min` and `fee_max`.
pub const FEE_PCT_DIVISOR: u32 = 100_000;

/// The fee parameters and the vault balance of a liquid unstake pool.
#[derive(Clone, Copy, Debug, PartialEq, Eq)]
pub struct PoolConfig {
    /// Rate charged while the vault stays at or above `min_sol_for_min_fee`.
    pub fee_min: u32,
    /// Rate that an empty vault charges.
    pub fee_max: u32,
    /// Vault balance below which the rate starts to rise.
    pub min_sol_for_min_fee: u64,
    /// Share of the base fee, in percent, that the manager takes on top.
    pub manager_fee_pct: u8,
    /// Lamports that the vault holds.
    pub sol_vault_lamports: u64,
}

/// The two parts of what an unstake costs, in lamports.
#[derive(Clone, Copy, Debug, PartialEq, Eq)]
pub struct Fee {
    pub base_fee: u64,
    pub manager_fee: u64,
}

/// `amount * numerator / denominator`, rounded down; `amount` itself where the
/// denominator is zero.
pub open spec fn linear_fee(amount: int, numerator: int, denominator: int) -> int {
    if denominator == 0 {
        amount
    } else {
        amount * numerator / denominator
    }
}

/// How far `fee_max` lies above `fee_min`.
pub open spec fn fee_span(pool: PoolConfig) -> int {
    pool.fee_max - pool.fee_min
}

/// The part of a withdrawal of `amount` from a vault of `vault_before` that
/// takes the vault below the threshold.
pub open spec fn amount_below_threshold(pool: PoolConfig, vault_before: int, amount: int) -> int {
    amount - (vault_before - pool.min_sol_for_min_fee)
}

/// What the rate has risen by, above `fee_min`, halfway through taking
/// `below` lamports out of a vault that stood at the threshold.
pub open spec fn midpoint_rise(pool: PoolConfig, below: int) -> int {
    linear_fee(fee_span(pool), below, pool.min_sol_for_min_fee as int) / 2
}

/// The rate of a withdrawal that starts at or above the threshold and ends
/// below it: the average, weighted by lamports, of `fee_min` on the part above
/// the threshold and of the midpoint rate on the part below.
pub open spec fn blended_rate(pool: PoolConfig, vault_before: int, amount: int) -> int {
    let below = amount_below_threshold(pool, vault_before, amount);
    let above = amount - below;
    (pool.fee_min * above + (pool.fee_min + midpoint_rise(pool, below)) * below) / amount
}

/// The rate of a withdrawal from a vault that is below the threshold already.
pub open spec fn depleted_rate(pool: PoolConfig, vault_before: int) -> int {
    pool.fee_min + linear_fee(
        fee_span(pool),
        pool.min_sol_for_min_fee - vault_before,
        pool.min_sol_for_min_fee as int,
    )
}

/// The base fee rate of taking `amount` lamports out of a vault that holds
/// `vault_before`, or the reason why there is none.
pub open spec fn base_fee_rate(pool: PoolConfig, vault_before: u64, amount: u64) -> Result<
    u64,
    LiquidUnstakerErrorCode,
> {
    if amount > vault_before {
        Err(LiquidUnstakerErrorCode::MathUnderflow)
    } else if vault_before - amount >= pool.min_sol_for_min_fee {
        Ok(pool.fee_min as u64)
    } else if pool.fee_max < pool.fee_min {
        Err(LiquidUnstakerErrorCode::FeeMaxLessThanFeeMin)
    } else if vault_before >= pool.min_sol_for_min_fee {
        Ok(blended_rate(pool, vault_before as int, amount as int) as u64)
    } else {
        Ok(depleted_rate(pool, vault_before as int) as u64)
    }
}

/// Whether a withdrawal starts at or above the threshold and ends below it.
pub open spec fn crosses_threshold(pool: PoolConfig, vault_before: u64, amount: u64) -> bool {
    &&& amount <= vault_before
    &&& vault_before >= pool.min_sol_for_min_fee
    &&& vault_before - amount < pool.min_sol_for_min_fee
}

proof fn lemma_div_monotone(a: int, b: int, c: int)
    by (nonlinear_arith)
    requires
        0 <= a <= b,
        c > 0,
    ensures
        0 <= a / c <= b / c,
{
}

proof fn lemma_scaled_part(d: int, x: int, y: int, m: int)
    by (nonlinear_arith)
    requires
        0 <= d,
        0 <= x <= y,
        m > 0,
    ensures
        0 <= d * x / m <= d * y / m,
        y <= m ==> d * y / m <= d,
{
    assert(d * x <= d * y);
    assert(y <= m ==> d * y <= d * m);
}

proof fn lemma_div_add_multiple(k: int, x: int, c: int)
    by (nonlinear_arith)
    requires
        c > 0,
        0 <= x,
        0 <= k,
    ensures
        (k * c + x) / c == k + x / c,
{
}

proof fn lemma_mul_monotone(a: int, b: int, c: int, d: int)
    by (nonlinear_arith)
    requires
        0 <= a <= b,
        0 <= c <= d,
    ensures
        0 <= a * c <= b * d,
{
}

/// What the blended rate lies above `fee_min`:
/// `midpoint_rise * below / amount`, rounded down.
pub open spec fn blended_excess(pool: PoolConfig, vault_before: int, amount: int) -> int {
    let below = amount_below_threshold(pool, vault_before, amount);
    midpoint_rise(pool, below) * below / amount
}

/// The blended rate is `fee_min` plus an excess that is at most the midpoint
/// rise, and so lies between `fee_min` and `fee_max`.
pub proof fn lemma_blended_rate_bounds(pool: PoolConfig, vault_before: u64, amount: u64)
    requires
        pool.fee_min <= pool.fee_max,
        crosses_threshold(pool, vault_before, amount),
    ensures
        blended_rate(pool, vault_before as int, amount as int) == pool.fee_min + blended_excess(
            pool,
            vault_before as int,
            amount as int,
        ),
        0 <= blended_excess(pool, vault_before as int, amount as int) <= midpoint_rise(
            pool,
            amount_below_threshold(pool, vault_before as int, amount as int),
        ),
        midpoint_rise(pool, amount_below_threshold(pool, vault_before as int, amount as int))
            <= fee_span(pool) / 2,
        pool.fee_min <= blended_rate(pool, vault_before as int, amount as int) <= pool.fee_max,
{
    let min = pool.min_sol_for_min_fee as int;
    let below = amount_below_threshold(pool, vault_before as int, amount as int);
    let above = amount - below;
    let span = fee_span(pool);
    let rise = midpoint_rise(pool, below);
    let f = pool.fee_min as int;
    assert(0 < below <= amount && below <= min);
    lemma_scaled_part(span, below, below, min);
    lemma_div_monotone(span * below / min, span, 2);
    assert(0 <= rise <= span / 2);
    assert(f * above + (f + rise) * below == f * amount + rise * below) by (nonlinear_arith)
        requires
            above + below == amount,
    ;
    lemma_mul_monotone(rise, rise, below, amount as int);
    lemma_div_add_multiple(f, rise * below, amount as int);
    lemma_div_monotone(rise * below, rise * amount, amount as int);
    assert(rise * amount / (amount as int) == rise) by (nonlinear_arith)
        requires
            amount > 0,
    ;
}

/// The rate of a depleted vault lies between `fee_min` and `fee_max`.
pub proof fn lemma_depleted_rate_bounds(pool: PoolConfig, vault_before: u64)
    requires
        pool.fee_min <= pool.fee_max,
        vault_before < pool.min_sol_for_min_fee,
    ensures
        pool.fee_min <= depleted_rate(pool, vault_before as int) <= pool.fee_max,
{
    let min = pool.min_sol_for_min_fee as int;
    lemma_scaled_part(fee_span(pool), min - vault_before, min - vault_before, min);
}

/// A withdrawal that leaves the vault at or above the threshold pays exactly
/// `fee_min`.
pub proof fn lemma_base_fee_is_fee_min_above_threshold(
    pool: PoolConfig,
    vault_before: u64,
    amount: u64,
)
    requires
        vault_before >= pool.min_sol_for_min_fee,
        amount <= vault_before - pool.min_sol_for_min_fee,
    ensures
        base_fee_rate(pool, vault_before, amount) == Ok::<u64, LiquidUnstakerErrorCode>(
            pool.fee_min as u64,
        ),
{
}

/// The rate is continuous where a withdrawal starts to cross the threshold.
/// The largest withdrawal that does not cross it pays `fee_min`; one that
/// goes `below` lamports further pays at least `fee_min` and at most
/// `fee_span * below / min_sol_for_min_fee / 2` more, which is nothing
/// while `fee_span * below` is under twice the threshold.
pub proof fn lemma_base_fee_continuous_at_threshold(
    pool: PoolConfig,
    vault_before: u64,
    amount: u64,
)
    requires
        pool.fee_min <= pool.fee_max,
        crosses_threshold(pool, vault_before, amount),
    ensures
        base_fee_rate(
            pool,
            vault_before,
            (vault_before - pool.min_sol_for_min_fee) as u64,
        ) == Ok::<u64, LiquidUnstakerErrorCode>(pool.fee_min as u64),
        base_fee_rate(pool, vault_before, amount) matches Ok(rate) && pool.fee_min <= rate
            <= pool.fee_min + fee_span(pool) * amount_below_threshold(
            pool,
            vault_before as int,
            amount as int,
        ) / (pool.min_sol_for_min_fee as int) / 2,
        fee_span(pool) * amount_below_threshold(pool, vault_before as int, amount as int) < 2
            * pool.min_sol_for_min_fee ==> base_fee_rate(pool, vault_before, amount) == Ok::<
            u64,
            LiquidUnstakerErrorCode,
        >(pool.fee_min as u64),
{
    lemma_blended_rate_bounds(pool, vault_before, amount);
    let min = pool.min_sol_for_min_fee as int;
    let below = amount_below_threshold(pool, vault_before as int, amount as int);
    let scaled = fee_span(pool) * below;
    if scaled < 2 * min {
        assert(scaled / min / 2 == 0) by (nonlinear_arith)
            requires
                0 <= scaled < 2 * min,
                min > 0,
        ;
    }
}

/// With the amount fixed, a smaller vault never pays a lower rate, where both
/// vaults have a rate.
///
/// Left out are the pairs in which the larger vault crosses the threshold
/// during the withdrawal, the smaller one is below it already, and the smaller
/// one lacks less than half of what the larger one ends below the threshold
/// by: the rate of a depleted vault goes by the balance before the withdrawal,
/// that of a crossing one by the balance halfway through its lower part.
pub proof fn lemma_base_fee_monotonic_in_vault(
    pool: PoolConfig,
    larger_vault: u64,
    smaller_vault: u64,
    amount: u64,
)
    requires
        smaller_vault <= larger_vault,
        base_fee_rate(pool, larger_vault, amount) is Ok,
        base_fee_rate(pool, smaller_vault, amount) is Ok,
        crosses_threshold(pool, larger_vault, amount) && smaller_vault
            < pool.min_sol_for_min_fee ==> 2 * (pool.min_sol_for_min_fee - smaller_vault)
            >= amount_below_threshold(pool, larger_vault as int, amount as int),
    ensures
        base_fee_rate(pool, smaller_vault, amount)->Ok_0 >= base_fee_rate(
            pool,
            larger_vault,
            amount,
        )->Ok_0,
{
    let min = pool.min_sol_for_min_fee as int;
    let span = fee_span(pool);
    if larger_vault - amount >= min {
        if smaller_vault - amount >= min {
        } else if smaller_vault >= min {
            lemma_blended_rate_bounds(pool, smaller_vault, amount);
        } else {
            lemma_depleted_rate_bounds(pool, smaller_vault);
        }
    } else if larger_vault >= min {
        lemma_blended_rate_bounds(pool, larger_vault, amount);
        let below_hi = amount_below_threshold(pool, larger_vault as int, amount as int);
        if smaller_vault >= min {
            lemma_blended_rate_bounds(pool, smaller_vault, amount);
            let below_lo = amount_below_threshold(pool, smaller_vault as int, amount as int);
            lemma_scaled_part(span, below_hi, below_lo, min);
            lemma_div_monotone(span * below_hi / min, span * below_lo / min, 2);
            lemma_mul_monotone(
                midpoint_rise(pool, below_hi),
                midpoint_rise(pool, below_lo),
                below_hi,
                below_lo,
            );
            lemma_div_monotone(
                midpoint_rise(pool, below_hi) * below_hi,
                midpoint_rise(pool, below_lo) * below_lo,
                amount as int,
            );
        } else {
            lemma_depleted_rate_bounds(pool, smaller_vault);
            let lacking = min - smaller_vault;
            lemma_scaled_part(span, below_hi, 2 * lacking, min);
            lemma_div_monotone(span * below_hi / min, span * (2 * lacking) / min, 2);
            assert(span * (2 * lacking) / min / 2 <= span * lacking / min) by (nonlinear_arith)
                requires
                    span >= 0,
                    lacking >= 0,
                    min > 0,
            ;
        }
    } else {
        lemma_depleted_rate_bounds(pool, larger_vault);
        lemma_depleted_rate_bounds(pool, smaller_vault);
        lemma_scaled_part(span, min - larger_vault, min - smaller_vault, min);
    }
}

impl Fee {
    /// The total fee: the base fee plus the manager fee, or `MathOverflow`
    /// where the sum is beyond 64 bits.
    pub fn total_fee(&self) -> (r: Result<u64, LiquidUnstakerErrorCode>)
        ensures
            self.base_fee + self.manager_fee <= u64::MAX ==> r == Ok::<
                u64,
                LiquidUnstakerErrorCode,
            >((self.base_fee + self.manager_fee) as u64),
            self.base_fee + self.manager_fee > u64::MAX ==> r == Err::<
                u64,
                LiquidUnstakerErrorCode,
            >(LiquidUnstakerErrorCode::MathOverflow),
    {
        match self.base_fee.checked_add(self.manager_fee) {
            Some(total) => Ok(total),
            None => Err(LiquidUnstakerErrorCode::MathOverflow),
        }
    }

    /// Scales `amount` by `numerator / denominator` through a 128-bit product.
    /// A zero denominator leaves the amount unscaled; a quotient beyond 64
    /// bits is `MathOverflow`.
    pub fn calculate_linear_base_fee(amount: u64, numerator: u64, denominator: u64) -> (r: Result<
        u64,
        LiquidUnstakerErrorCode,
    >)
        ensures
            linear_fee(amount as int, numerator as int, denominator as int) <= u64::MAX ==> r
                == Ok::<u64, LiquidUnstakerErrorCode>(
                linear_fee(amount as int, numerator as int, denominator as int) as u64,
            ),
            linear_fee(amount as int, numerator as int, denominator as int) > u64::MAX ==> r
                == Err::<u64, LiquidUnstakerErrorCode>(LiquidUnstakerErrorCode::MathOverflow),
    {
        if denominator == 0 {
            return Ok(amount);
        }
        assert(amount as int * numerator as int <= u64::MAX as int * u64::MAX as int)
            by (nonlinear_arith);
        let product: u128 = (amount as u128) * (numerator as u128);
        let quotient: u128 = product / (denominator as u128);
        if quotient > u64::MAX as u128 {
            Err(LiquidUnstakerErrorCode::MathOverflow)
        } else {
            Ok(quotient as u64)
        }
    }

    /// The base fee rate of taking `unstake_lamports` out of a vault that
    /// holds `current_sol_vault_lamports`.
    ///
    /// A withdrawal larger than the vault is `MathUnderflow`. One that leaves
    /// the vault at or above the threshold pays `fee_min`, whatever `fee_max`
    /// is. Any other needs `fee_max >= fee_min`, else it is
    /// `FeeMaxLessThanFeeMin`, and its rate lies between the two: one that
    /// crosses the threshold pays the average, weighted by lamports, of
    /// `fee_min` on the part above the threshold and of the rate halfway
    /// through the part below; one from a vault that is below the threshold
    /// already pays the rate of the vault as it stands before the withdrawal.
    pub fn calculate_base_fee(
        pool: &PoolConfig,
        current_sol_vault_lamports: u64,
        unstake_lamports: u64,
    ) -> (r: Result<u64, LiquidUnstakerErrorCode>)
        ensures
            r == base_fee_rate(*pool, current_sol_vault_lamports, unstake_lamports),
            current_sol_vault_lamports >= pool.min_sol_for_min_fee && unstake_lamports
                <= current_sol_vault_lamports - pool.min_sol_for_min_fee ==> r == Ok::<
                u64,
                LiquidUnstakerErrorCode,
            >(pool.fee_min as u64),
            r matches Ok(rate) ==> pool.fee_min <= rate && (rate <= pool.fee_max || rate
                == pool.fee_min),
    {
        let remaining_lamports = match current_sol_vault_lamports.checked_sub(unstake_lamports) {
            Some(remaining) => remaining,
            None => {
                return Err(LiquidUnstakerErrorCode::MathUnderflow);
            },
        };
        if remaining_lamports >= pool.min_sol_for_min_fee {
            return Ok(pool.fee_min as u64);
        }
        if pool.fee_max < pool.fee_min {
            return Err(LiquidUnstakerErrorCode::FeeMaxLessThanFeeMin);
        }
        let span: u64 = (pool.fee_max - pool.fee_min) as u64;
        if current_sol_vault_lamports >= pool.min_sol_for_min_fee {
            let above: u64 = current_sol_vault_lamports - pool.min_sol_for_min_fee;
            let below: u64 = unstake_lamports - above;
            proof {
                lemma_blended_rate_bounds(*pool, current_sol_vault_lamports, unstake_lamports);
                lemma_scaled_part(
                    span as int,
                    below as int,
                    below as int,
                    pool.min_sol_for_min_fee as int,
                );
            }
            let rise: u64 = match Fee::calculate_linear_base_fee(
                span,
                below,
                pool.min_sol_for_min_fee,
            ) {
                Ok(linear) => linear / 2,
                Err(e) => {
                    return Err(e);
                },
            };
            let rate_below: u64 = pool.fee_min as u64 + rise;
            proof {
                lemma_mul_monotone(
                    pool.fee_min as int,
                    u32::MAX as int,
                    above as int,
                    u64::MAX as int,
                );
                lemma_mul_monotone(
                    rate_below as int,
                    u32::MAX as int,
                    below as int,
                    u64::MAX as int,
                );
            }
            let weighted: u128 = (pool.fee_min as u128) * (above as u128) + (rate_below as u128)
                * (below as u128);
            let rate: u128 = weighted / (unstake_lamports as u128);
            Ok(rate as u64)
        } else {
            proof {
                lemma_depleted_rate_bounds(*pool, current_sol_vault_lamports);
            }
            match Fee::calculate_linear_base_fee(
                span,
                pool.min_sol_for_min_fee - current_sol_vault_lamports,
                pool.min_sol_for_min_fee,
            ) {
                Ok(linear) => Ok(linear + pool.fee_min as u64),
                Err(e) => Err(e),
            }
        }
    }
}

} // verus!
