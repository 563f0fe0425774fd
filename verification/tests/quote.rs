use unstake_quote::error::{LiquidUnstakerErrorCode, QuoteError};
use unstake_quote::fee::PoolConfig;
use unstake_quote::quote::{
    price_unstake, quote_lst_unstake, quote_lst_unstake_for_mint, quote_lst_unstake_wrapped,
    quote_lst_unstake_wrapped_for_mint, total_amount_to_unstake, Quote, WrappedQuote,
};
use unstake_quote::stake_pool::{Identity, StakePoolConfig, WithdrawalFee};

const RENT: u64 = 2_282_880;

fn stake_pool(supply: u64, lamports: u64, numerator: u64, denominator: u64) -> StakePoolConfig {
    StakePoolConfig {
        pool_mint: Identity { bytes: [42; 32] },
        pool_token_supply: supply,
        total_lamports: lamports,
        stake_withdrawal_fee: WithdrawalFee { numerator, denominator },
        preferred_withdraw_validator: None,
    }
}

fn pool(fee_min: u32, sol_vault_lamports: u64) -> PoolConfig {
    PoolConfig {
        fee_min,
        fee_max: 1000,
        min_sol_for_min_fee: 1_000_000,
        manager_fee_pct: 10,
        sol_vault_lamports,
    }
}

#[test]
fn gross_amount_is_released_lamports_plus_rent() {
    let stake_pool = stake_pool(1_000_000_000, 2_000_000_000, 0, 0);
    assert_eq!(total_amount_to_unstake(&stake_pool, 1_000_000, RENT), Ok(4_282_880));
}

#[test]
fn stake_pool_fee_is_rounded_up_and_taken_before_the_exchange() {
    let stake_pool = stake_pool(1_000_000_000, 2_000_000_000, 1, 1000);
    // fee = ceil(1_000_001 / 1000) = 1001, net = 999_000 pool tokens
    assert_eq!(total_amount_to_unstake(&stake_pool, 1_000_001, 0), Ok(1_998_000));
    // an exact multiple is not rounded further up
    assert_eq!(total_amount_to_unstake(&stake_pool, 1_000_000, 0), Ok(1_998_000));
}

#[test]
fn released_lamports_are_rounded_down() {
    let stake_pool = stake_pool(3, 10, 0, 0);
    assert_eq!(total_amount_to_unstake(&stake_pool, 2, 0), Ok(6));
    assert_eq!(total_amount_to_unstake(&stake_pool, 1, 5), Ok(8));
}

#[test]
fn stake_pool_without_supply_releases_nothing() {
    let stake_pool = stake_pool(0, 2_000_000_000, 0, 0);
    assert_eq!(total_amount_to_unstake(&stake_pool, 1_000_000, RENT), Ok(RENT));
}

#[test]
fn stake_pool_fee_above_the_amount_is_underflow() {
    let stake_pool = stake_pool(1000, 1000, 3, 2);
    assert_eq!(
        total_amount_to_unstake(&stake_pool, 10, 0),
        Err(LiquidUnstakerErrorCode::MathUnderflow)
    );
}

#[test]
fn stake_pool_fee_beyond_64_bits_is_overflow() {
    let stake_pool = stake_pool(1000, 1000, u64::MAX, 1);
    assert_eq!(
        total_amount_to_unstake(&stake_pool, 2, 0),
        Err(LiquidUnstakerErrorCode::MathOverflow)
    );
}

#[test]
fn released_lamports_beyond_64_bits_are_overflow() {
    let stake_pool = stake_pool(1, u64::MAX, 0, 0);
    assert_eq!(
        total_amount_to_unstake(&stake_pool, 2, 0),
        Err(LiquidUnstakerErrorCode::MathOverflow)
    );
}

#[test]
fn gross_amount_beyond_64_bits_is_overflow() {
    let stake_pool = stake_pool(1, 1, 0, 0);
    assert_eq!(total_amount_to_unstake(&stake_pool, u64::MAX, 0), Ok(u64::MAX));
    assert_eq!(
        total_amount_to_unstake(&stake_pool, u64::MAX, 1),
        Err(LiquidUnstakerErrorCode::MathOverflow)
    );
}

#[test]
fn quote_charges_base_and_manager_fee_on_the_gross_amount() {
    let stake_pool = stake_pool(1_000_000_000, 2_000_000_000, 0, 0);
    let quote = quote_lst_unstake(&stake_pool, &pool(100, 10_000_000), 1_000_000, RENT);
    // rate 100 on 4_282_880: base 4282.88, manager 428.288, both rounded down
    assert_eq!(
        quote,
        Ok(Quote { base_fee: 4282, manager_fee: 428, payout_amount: 1_995_290 })
    );
}

#[test]
fn quote_with_stake_pool_fee() {
    let stake_pool = stake_pool(1_000_000_000, 2_000_000_000, 1, 1000);
    let quote = quote_lst_unstake(&stake_pool, &pool(100, 10_000_000), 1_000_001, 0);
    assert_eq!(
        quote,
        Ok(Quote { base_fee: 1998, manager_fee: 199, payout_amount: 1_995_803 })
    );
}

#[test]
fn quote_uses_the_blended_rate_when_the_vault_crosses_the_threshold() {
    let stake_pool = stake_pool(1000, 1000, 0, 0);
    let quote = quote_lst_unstake(&stake_pool, &pool(10, 1_200_000), 500_000, 0);
    // rate 98
    assert_eq!(
        quote,
        Ok(Quote { base_fee: 490, manager_fee: 49, payout_amount: 499_461 })
    );
}

#[test]
fn quote_accounts_for_every_lamport() {
    let stake_pool = stake_pool(1_000_000_000, 2_000_000_000, 1, 1000);
    let pool = pool(10, 10_000_000);
    for pool_tokens in [200_000u64, 999_999, 1_000_000, 2_000_000] {
        let gross = total_amount_to_unstake(&stake_pool, pool_tokens, RENT).unwrap();
        let quote = quote_lst_unstake(&stake_pool, &pool, pool_tokens, RENT).unwrap();
        assert_eq!(
            quote.payout_amount + quote.base_fee + quote.manager_fee + RENT,
            gross
        );
        assert!(quote.payout_amount <= gross - RENT);
    }
}

#[test]
fn quote_beyond_the_vault_is_insufficient_balance() {
    let stake_pool = stake_pool(1000, 1000, 0, 0);
    assert_eq!(
        quote_lst_unstake(&stake_pool, &pool(10, 100), 101, 0),
        Err(LiquidUnstakerErrorCode::InsufficientSolVaultBalance)
    );
    assert_eq!(
        quote_lst_unstake(&stake_pool, &pool(10, 100), 100, 1),
        Err(LiquidUnstakerErrorCode::InsufficientSolVaultBalance)
    );
    assert!(quote_lst_unstake(&stake_pool, &pool(10, 100), 100, 0).is_ok());
}

#[test]
fn quote_hands_on_the_error_of_the_fee_rate() {
    let stake_pool = stake_pool(1000, 1000, 0, 0);
    let mut pool = pool(2000, 500_000);
    assert_eq!(pool.fee_max, 1000);
    assert_eq!(
        quote_lst_unstake(&stake_pool, &pool, 100, 0),
        Err(LiquidUnstakerErrorCode::FeeMaxLessThanFeeMin)
    );
    pool.sol_vault_lamports = 2_000_000;
    assert!(quote_lst_unstake(&stake_pool, &pool, 100, 0).is_ok());
}

#[test]
fn fees_above_the_released_lamports_are_underflow() {
    // nothing released, rent 1_000_000, base fee 1000 on the rent
    assert_eq!(
        price_unstake(&pool(100, 10_000_000), 1_000_000, 1_000_000),
        Err(LiquidUnstakerErrorCode::MathUnderflow)
    );
    // 1_001_101 less base fee 1001, manager fee 100 and the rent: exactly nothing
    assert_eq!(
        price_unstake(&pool(100, 10_000_000), 1_001_101, 1_000_000),
        Ok(Quote { base_fee: 1001, manager_fee: 100, payout_amount: 0 })
    );
    assert_eq!(
        price_unstake(&pool(100, 10_000_000), 1_001_100, 1_000_000),
        Err(LiquidUnstakerErrorCode::MathUnderflow)
    );
}

#[test]
fn base_fee_beyond_64_bits_is_overflow() {
    let pool = PoolConfig {
        fee_min: 1_000_000,
        fee_max: 1_000_000,
        min_sol_for_min_fee: 0,
        manager_fee_pct: 0,
        sol_vault_lamports: u64::MAX,
    };
    assert_eq!(
        price_unstake(&pool, u64::MAX, 0),
        Err(LiquidUnstakerErrorCode::MathOverflow)
    );
}

#[test]
fn sum_of_fees_beyond_64_bits_is_overflow() {
    let pool = PoolConfig {
        fee_min: 100_000,
        fee_max: 100_000,
        min_sol_for_min_fee: 0,
        manager_fee_pct: 100,
        sol_vault_lamports: u64::MAX,
    };
    assert_eq!(
        price_unstake(&pool, u64::MAX, 0),
        Err(LiquidUnstakerErrorCode::MathOverflow)
    );
}

#[test]
fn full_rate_without_manager_share_leaves_nothing() {
    let pool = PoolConfig {
        fee_min: 100_000,
        fee_max: 100_000,
        min_sol_for_min_fee: 0,
        manager_fee_pct: 0,
        sol_vault_lamports: u64::MAX,
    };
    assert_eq!(
        price_unstake(&pool, u64::MAX, 0),
        Ok(Quote { base_fee: u64::MAX, manager_fee: 0, payout_amount: 0 })
    );
}

#[test]
fn wrapped_quote_refunds_rent_unless_new_account_is_derived() {
    let stake_pool = stake_pool(1_000_000_000, 2_000_000_000, 0, 0);
    let pool = pool(100, 10_000_000);
    assert_eq!(
        quote_lst_unstake_wrapped(&stake_pool, &pool, 1_000_000, true, RENT),
        Ok(WrappedQuote {
            base_fee: 4282,
            manager_fee: 428,
            wrapped_payout: 1_995_290,
            native_payout: 0
        })
    );
    assert_eq!(
        quote_lst_unstake_wrapped(&stake_pool, &pool, 1_000_000, false, RENT),
        Ok(WrappedQuote {
            base_fee: 4282,
            manager_fee: 428,
            wrapped_payout: 1_995_290 + RENT,
            native_payout: 0
        })
    );
}

#[test]
fn wrapped_quote_fails_where_the_quote_fails() {
    let stake_pool = stake_pool(1000, 1000, 0, 0);
    assert_eq!(
        quote_lst_unstake_wrapped(&stake_pool, &pool(10, 100), 101, false, 0),
        Err(LiquidUnstakerErrorCode::InsufficientSolVaultBalance)
    );
    assert_eq!(
        quote_lst_unstake_wrapped(&stake_pool, &pool(10, 100), 101, true, 0),
        Err(LiquidUnstakerErrorCode::InsufficientSolVaultBalance)
    );
}

#[test]
fn stake_pool_knows_its_mint() {
    let stake_pool = stake_pool(1000, 1000, 0, 0);
    assert!(stake_pool.has_mint(&Identity { bytes: [42; 32] }));
    let mut other = [42; 32];
    other[31] = 41;
    assert!(!stake_pool.has_mint(&Identity { bytes: other }));
}

#[test]
fn identities_are_compared_byte_for_byte() {
    let mut bytes = [0u8; 32];
    for (i, byte) in bytes.iter_mut().enumerate() {
        *byte = i as u8;
    }
    let identity = Identity { bytes };
    assert!(identity.same_as(&Identity { bytes }));
    assert_eq!(identity.to_vec(), bytes.to_vec());
    for i in 0..32 {
        let mut changed = bytes;
        changed[i] ^= 1;
        assert!(!identity.same_as(&Identity { bytes: changed }));
    }
}

#[test]
fn quotes_account_for_every_lamport_whatever_the_vault() {
    let stake_pool = stake_pool(1_000_000_000, 1_100_000_000, 3, 1000);
    for vault in (5_000_000u64..=40_000_000).step_by(2_500_000) {
        let mut pool = pool(30, vault);
        pool.min_sol_for_min_fee = 20_000_000;
        for pool_tokens in (1_000_000u64..=30_000_000).step_by(1_450_000) {
            let gross = total_amount_to_unstake(&stake_pool, pool_tokens, RENT).unwrap();
            match quote_lst_unstake(&stake_pool, &pool, pool_tokens, RENT) {
                Ok(quote) => {
                    assert!(gross <= vault);
                    assert_eq!(
                        quote.payout_amount + quote.base_fee + quote.manager_fee + RENT,
                        gross
                    );
                    assert_eq!(Ok(quote), price_unstake(&pool, gross, RENT));
                }
                Err(e) => {
                    assert_eq!(e, LiquidUnstakerErrorCode::InsufficientSolVaultBalance);
                    assert!(gross > vault);
                }
            }
        }
    }
}

#[test]
fn mint_of_another_token_is_a_mismatch() {
    let stake_pool = stake_pool(1000, 1000, 0, 0);
    let mint = Identity { bytes: [42; 32] };
    let other = Identity { bytes: [43; 32] };
    assert_eq!(stake_pool.check_mint(&mint), Ok(()));
    assert_eq!(stake_pool.check_mint(&other), Err(QuoteError::PoolMintMismatch));
}

#[test]
fn quote_for_a_mint_is_the_quote_of_its_pool() {
    let stake_pool = stake_pool(1_000_000_000, 2_000_000_000, 0, 0);
    let pool = pool(100, 10_000_000);
    let mint = Identity { bytes: [42; 32] };
    assert_eq!(
        quote_lst_unstake_for_mint(&mint, &stake_pool, &pool, 1_000_000, RENT),
        Ok(Quote { base_fee: 4282, manager_fee: 428, payout_amount: 1_995_290 })
    );
    assert_eq!(
        quote_lst_unstake_wrapped_for_mint(&mint, &stake_pool, &pool, 1_000_000, false, RENT),
        Ok(WrappedQuote {
            base_fee: 4282,
            manager_fee: 428,
            wrapped_payout: 1_995_290 + RENT,
            native_payout: 0
        })
    );
    assert_eq!(
        quote_lst_unstake_for_mint(&mint, &stake_pool, &pool, 100_000_000, RENT),
        Err(QuoteError::Unstake(LiquidUnstakerErrorCode::InsufficientSolVaultBalance))
    );
    assert_eq!(
        quote_lst_unstake_wrapped_for_mint(&mint, &stake_pool, &pool, 100_000_000, true, RENT),
        Err(QuoteError::Unstake(LiquidUnstakerErrorCode::InsufficientSolVaultBalance))
    );
}

#[test]
fn mint_is_held_against_the_pool_before_anything_is_computed() {
    let other = Identity { bytes: [43; 32] };
    let pool = pool(100, 10_000_000);
    // a quote that would do, one beyond the vault, and one whose arithmetic overflows
    let cases = [
        (stake_pool(1_000_000_000, 2_000_000_000, 0, 0), 1_000_000u64),
        (stake_pool(1_000_000_000, 2_000_000_000, 0, 0), 100_000_000),
        (stake_pool(1, u64::MAX, u64::MAX, 1), u64::MAX),
    ];
    for (stake_pool, pool_tokens) in cases {
        assert_eq!(
            quote_lst_unstake_for_mint(&other, &stake_pool, &pool, pool_tokens, RENT),
            Err(QuoteError::PoolMintMismatch)
        );
        assert_eq!(
            quote_lst_unstake_wrapped_for_mint(&other, &stake_pool, &pool, pool_tokens, true, RENT),
            Err(QuoteError::PoolMintMismatch)
        );
    }
}
