use unstake_quote::error::LiquidUnstakerErrorCode;
use unstake_quote::fee::{Fee, PoolConfig, FEE_PCT_DIVISOR};

fn pool(sol_vault_lamports: u64) -> PoolConfig {
    PoolConfig {
        fee_min: 10,
        fee_max: 1000,
        min_sol_for_min_fee: 1_000_000,
        manager_fee_pct: 10,
        sol_vault_lamports,
    }
}

#[test]
fn rate_is_fee_min_while_vault_stays_above_threshold() {
    let pool = pool(2_000_000);
    assert_eq!(Fee::calculate_base_fee(&pool, 2_000_000, 500_000), Ok(10));
}

#[test]
fn rate_is_fee_min_when_vault_ends_on_threshold() {
    let pool = pool(1_500_000);
    assert_eq!(Fee::calculate_base_fee(&pool, 1_500_000, 500_000), Ok(10));
}

#[test]
fn rate_is_blended_when_withdrawal_crosses_threshold() {
    let pool = pool(1_200_000);
    let rate = Fee::calculate_base_fee(&pool, 1_200_000, 500_000).unwrap();
    assert!(rate > 10 && rate < 1000);
    // 200_000 at 10; 300_000 at 10 + (990 * 300_000 / 1_000_000) / 2 = 158
    assert_eq!(rate, (10 * 200_000 + 158 * 300_000) / 500_000);
    assert_eq!(rate, 98);
}

#[test]
fn rate_is_linear_when_vault_is_below_threshold() {
    let pool = pool(500_000);
    assert_eq!(Fee::calculate_base_fee(&pool, 500_000, 100), Ok(505));
}

#[test]
fn rate_of_empty_vault_is_fee_max() {
    let pool = pool(0);
    assert_eq!(Fee::calculate_base_fee(&pool, 0, 0), Ok(1000));
}

#[test]
fn withdrawal_larger_than_vault_is_underflow() {
    let pool = pool(100);
    assert_eq!(
        Fee::calculate_base_fee(&pool, 100, 101),
        Err(LiquidUnstakerErrorCode::MathUnderflow)
    );
}

#[test]
fn fee_max_below_fee_min_is_rejected_below_threshold_only() {
    let mut pool = pool(2_000_000);
    pool.fee_min = 50;
    pool.fee_max = 20;
    assert_eq!(Fee::calculate_base_fee(&pool, 2_000_000, 500_000), Ok(50));
    assert_eq!(
        Fee::calculate_base_fee(&pool, 1_200_000, 500_000),
        Err(LiquidUnstakerErrorCode::FeeMaxLessThanFeeMin)
    );
    assert_eq!(
        Fee::calculate_base_fee(&pool, 500_000, 1),
        Err(LiquidUnstakerErrorCode::FeeMaxLessThanFeeMin)
    );
}

#[test]
fn zero_threshold_always_charges_fee_min() {
    let mut pool = pool(10);
    pool.min_sol_for_min_fee = 0;
    assert_eq!(Fee::calculate_base_fee(&pool, 10, 10), Ok(10));
    assert_eq!(Fee::calculate_base_fee(&pool, 0, 0), Ok(10));
}

#[test]
fn rate_does_not_jump_at_threshold() {
    let pool = pool(1_200_000);
    // the largest withdrawal that does not cross the threshold
    assert_eq!(Fee::calculate_base_fee(&pool, 1_200_000, 200_000), Ok(10));
    // one lamport further, and as long as 990 * below < 2 * 1_000_000
    assert_eq!(Fee::calculate_base_fee(&pool, 1_200_000, 200_001), Ok(10));
    assert_eq!(Fee::calculate_base_fee(&pool, 1_200_000, 202_020), Ok(10));
    // 990 * 100_000 / 1_000_000 / 2 = 49 on a third of the amount
    assert_eq!(Fee::calculate_base_fee(&pool, 1_200_000, 300_000), Ok(10 + 49 / 3));
}

#[test]
fn smaller_vault_never_pays_less_on_either_side_of_threshold() {
    let amount = 500_000;
    let vaults = [2_000_000u64, 1_500_000, 1_400_000, 1_300_000, 1_200_000, 1_000_000];
    let rates: Vec<u64> = vaults
        .iter()
        .map(|vault| Fee::calculate_base_fee(&pool(*vault), *vault, amount).unwrap())
        .collect();
    assert_eq!(rates, vec![10, 10, 19, 49, 98, 257]);
    let depleted = [900_000u64, 700_000, 500_000];
    let rates: Vec<u64> = depleted
        .iter()
        .map(|vault| Fee::calculate_base_fee(&pool(*vault), *vault, amount).unwrap())
        .collect();
    assert_eq!(rates, vec![109, 307, 505]);
}

#[test]
fn linear_fee_scales_through_128_bits() {
    assert_eq!(Fee::calculate_linear_base_fee(990, 300_000, 1_000_000), Ok(297));
    assert_eq!(
        Fee::calculate_linear_base_fee(u64::MAX, u64::MAX, u64::MAX),
        Ok(u64::MAX)
    );
}

#[test]
fn linear_fee_with_zero_denominator_is_the_amount() {
    assert_eq!(Fee::calculate_linear_base_fee(990, 300_000, 0), Ok(990));
}

#[test]
fn linear_fee_beyond_64_bits_is_overflow() {
    assert_eq!(
        Fee::calculate_linear_base_fee(u64::MAX, 2, 1),
        Err(LiquidUnstakerErrorCode::MathOverflow)
    );
}

#[test]
fn total_fee_adds_base_and_manager_fee() {
    let fee = Fee { base_fee: 4282, manager_fee: 428 };
    assert_eq!(fee.total_fee(), Ok(4710));
}

#[test]
fn total_fee_beyond_64_bits_is_overflow() {
    let fee = Fee { base_fee: u64::MAX, manager_fee: 1 };
    assert_eq!(fee.total_fee(), Err(LiquidUnstakerErrorCode::MathOverflow));
}

#[test]
fn fee_divisor_is_one_hundred_thousand() {
    assert_eq!(FEE_PCT_DIVISOR, 100_000);
}

#[test]
fn smaller_vault_never_pays_less_unless_it_falls_from_crossing_to_depleted() {
    let amount = 300_000u64;
    let step = 12_500u64;
    let vaults: Vec<u64> = (0..=80).map(|i| 300_000 + i * step).collect();
    for larger in vaults.iter() {
        for smaller in vaults.iter().filter(|smaller| *smaller <= larger) {
            let crossing = *larger >= 1_000_000 && *larger - amount < 1_000_000;
            let below = amount as i128 - (*larger as i128 - 1_000_000);
            if crossing && *smaller < 1_000_000 && 2 * (1_000_000 - *smaller as i128) < below {
                continue;
            }
            let high = Fee::calculate_base_fee(&pool(*larger), *larger, amount).unwrap();
            let low = Fee::calculate_base_fee(&pool(*smaller), *smaller, amount).unwrap();
            assert!(low >= high, "{} pays {}, {} pays {}", smaller, low, larger, high);
        }
    }
}

#[test]
fn rate_of_a_crossing_vault_can_exceed_that_of_a_depleted_one() {
    let amount = 500_000;
    assert_eq!(Fee::calculate_base_fee(&pool(1_000_000), 1_000_000, amount), Ok(257));
    assert_eq!(Fee::calculate_base_fee(&pool(900_000), 900_000, amount), Ok(109));
}

#[test]
fn rate_lies_between_fee_min_and_fee_max() {
    for vault in (0..=2_000_000u64).step_by(62_500) {
        for amount in (0..=vault).step_by(125_000) {
            let rate = Fee::calculate_base_fee(&pool(vault), vault, amount).unwrap();
            assert!((10..=1000).contains(&rate));
            if vault - amount >= 1_000_000 {
                assert_eq!(rate, 10);
            }
        }
    }
}
