//! Error codes of the liquid unstake program and of the withdrawal planner.

use vstd::prelude::*;

verus! {

/// The error codes of the liquid unstake program, in the order in which the
/// program numbers them.
#[derive(Clone, Copy, Debug, PartialEq, Eq)]
pub enum LiquidUnstakerErrorCode {
    InsufficientSolVaultBalance,
    MathOverflow,
    MathUnderflow,
    NoFeesToClaim,
    StakePoolWithdrawalFailed,
    SetAuthorityFailed,
    DeactivateStakeFailed,
    InvalidWithdrawAuthority,
    InvalidStakeAccountOwner,
    InvalidStakeAccountState,
    UnauthorizedStakeAccount,
    StakeAccountAlreadyProcessed,
    StakeAccountMismatch,
    FailedToDeserialize,
    InvalidRemainingAccounts,
    StakeAccountLockupUnableToLoadLockup,
    StakeAccountLockupIsInForce,
    StakeAccountNotFullyDeactivated,
    InvalidStakePoolProgram,
    InsufficientLpTokenBalance,
    DepositMustBeLargerThanZero,
    InvalidUserLpAccount,
    LpTokensToMintIsZero,
    StakeAccountDoesNotBelongToPool,
    FeeMaxLessThanFeeMin,
    FeeMaxTooHigh,
    ManagerFeePctTooHigh,
    IncorrectMetadataAccount,
    SolVaultLamportsCapReached,
    SlippageExceeded,
    SplitStakeFailed,
    WithdrawToStakeIncorrectAmount,
    FlashLoanNotRepaidInSameTransaction,
    FlashLoanRepaymentAmountInsufficient,
    FlashLoanExceedsAvailableLiquidity,
    FlashBorrowAlreadyActive,
    NoActiveFlashLoan,
    FlashRepayInstructionNotFound,
    InvalidFlashRepayInstruction,
    FlashLoansDisabled,
    FlashLoanCpiNotAllowed,
    FlashLoanActive,
    InvalidFlashLoanFee,
    InvalidWithdrawFee,
    InvalidStakeAccountInfoAddress,
}

/// Why no quote could be made.
#[derive(Clone, Copy, Debug, PartialEq, Eq)]
pub enum QuoteError {
    /// The stake pool is not the pool of the token that was to be unstaked.
    PoolMintMismatch,
    /// The error code with which the pricing of the unstake failed.
    Unstake(LiquidUnstakerErrorCode),
}

/// Why no withdrawal plan could be made.
#[derive(Clone, Copy, Debug, PartialEq, Eq)]
pub enum AllocationError {
    /// The eligible validators together hold less than was asked for.
    InsufficientPoolTokens,
    /// The withdrawal fee of the stake pool is more than 100%.
    MathUnderflow,
    /// A sequence number of a new stake account is beyond 64 bits.
    MathOverflow,
    /// A program has no address for the seeds of an account.
    NoProgramAddress,
}

} // verus!
