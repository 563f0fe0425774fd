//! Off-chain pricing and allocation for liquid unstaking.
//!
//! The crate predicts what an unstake of a liquid staking token will pay out
//! and what it will draw from: the fee rate that the unstake pool charges
//! against its vault ([`fee`]), the lamports that the stake pool releases for
//! the tokens and the payout that is left of them ([`quote`]), the validator
//! stake accounts that the withdrawal takes from and how much from each
//! ([`allocator`]), and the accounts that the unstake instruction names
//! ([`accounts`], [`address`]).
//!
//! Nothing here reads the chain. The state of the two pools is handed in as
//! plain values ([`fee::PoolConfig`], [`stake_pool::StakePoolConfig`]), and so
//! is the rent of a stake account.

pub mod accounts;
pub mod address;
pub mod allocator;
pub mod error;
pub mod fee;
pub mod quote;
pub mod stake_pool;

pub use accounts::{get_unstake_accounts, get_unstake_accounts_with_new_stake_account_as_pda};
pub use quote::{
    quote_lst_unstake, quote_lst_unstake_for_mint, quote_lst_unstake_wrapped,
    quote_lst_unstake_wrapped_for_mint,
};
