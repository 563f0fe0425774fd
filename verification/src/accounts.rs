//! The accounts and amounts that an unstake instruction is given.
//!
//! For each step of the withdrawal plan the instruction names the stake
//! account of the validator, a new stake account that takes the stake split
//! off, and the record that the liquid unstake program keeps of the new
//! account.

use vstd::prelude::*;
use itertools::Itertools;
use crate::address::{
    new_stake_account_address,
    new_stake_account_seeds,
    program_address,
    stake_account_address,
    stake_account_info_address,
    stake_account_info_seeds,
    validator_stake_seeds,
};
use crate::allocator::{
    allocate,
    is_whole_and_in_order,
    planned,
    withdraw_order,
    WithdrawalEntry,
    WithdrawalPlan,
};
use crate::error::AllocationError;
use crate::stake_pool::{Identity, StakePoolConfig, ValidatorRecord};

verus! {

/// A withdrawal plan with the stake accounts that it names to the unstake
/// instruction.
#[derive(Clone, Debug, PartialEq, Eq)]
pub struct UnstakeAccounts {
    /// The steps of the withdrawal.
    pub plan: WithdrawalPlan,
    /// The stake account of the validator of each step.
    pub withdraw_stake_accounts: Vec<Identity>,
}

/// The new stake accounts of an unstake, one for each step.
#[derive(Clone, Debug, PartialEq, Eq)]
pub struct NewStakeAccounts {
    pub new_stake_accounts: Vec<Identity>,
    /// The record that the liquid unstake program keeps of each new account.
    pub new_stake_pda_accounts: Vec<Identity>,
}

/// The address that has the given bytes.
pub open spec fn identity_with(bytes: Seq<u8>) -> Identity {
    choose|identity: Identity| identity.bytes@ == bytes
}

/// The addresses, where each of them was found; else `NoProgramAddress`.
pub open spec fn found(addresses: Seq<Option<Seq<u8>>>) -> Result<Seq<Identity>, AllocationError> {
    if forall|k: int| 0 <= k < addresses.len() ==> (#[trigger] addresses[k]) is Some {
        Ok(Seq::new(addresses.len(), |k: int| identity_with(addresses[k]->Some_0)))
    } else {
        Err(AllocationError::NoProgramAddress)
    }
}

/// Whether a result holds the addresses, or the error, that `expected` gives.
pub open spec fn is_found(
    result: Result<Vec<Identity>, AllocationError>,
    expected: Result<Seq<Identity>, AllocationError>,
) -> bool {
    match expected {
        Ok(addresses) => result is Ok && result->Ok_0@ == addresses,
        Err(e) => result == Err::<Vec<Identity>, AllocationError>(e),
    }
}

/// The pool tokens that each entry redeems.
pub open spec fn lst_amounts_of(entries: Seq<WithdrawalEntry>) -> Seq<u64> {
    Seq::new(entries.len(), |k: int| entries[k].lst_amount)
}

/// For each entry, the address that the stake pool program has for the stake
/// account of its validator.
pub open spec fn stake_account_addresses(
    stake_pool_program: Identity,
    stake_pool_address: Identity,
    entries: Seq<WithdrawalEntry>,
) -> Seq<Option<Seq<u8>>> {
    Seq::new(
        entries.len(),
        |k: int|
            program_address(
                validator_stake_seeds(entries[k].source.identity, stake_pool_address),
                stake_pool_program.bytes@,
            ),
    )
}

/// The addresses that the liquid unstake program has for `count` new stake
/// accounts of the authority, numbered from `stake_account_seed` on.
pub open spec fn new_stake_account_addresses(
    unstake_program: Identity,
    token_transfer_authority: Identity,
    stake_account_seed: u64,
    count: nat,
) -> Seq<Option<Seq<u8>>> {
    Seq::new(
        count,
        |k: int|
            program_address(
                new_stake_account_seeds(token_transfer_authority, (stake_account_seed + k) as u64),
                unstake_program.bytes@,
            ),
    )
}

/// For each stake account, the address that the liquid unstake program has
/// for its record of it.
pub open spec fn stake_account_info_addresses(
    unstake_program: Identity,
    stake_accounts: Seq<Identity>,
) -> Seq<Option<Seq<u8>>> {
    Seq::new(
        stake_accounts.len(),
        |k: int|
            program_address(stake_account_info_seeds(stake_accounts[k]), unstake_program.bytes@),
    )
}

/// The new stake accounts numbered from `stake_account_seed` on:
/// `MathOverflow` where a number is beyond 64 bits.
pub open spec fn new_stake_accounts_found(
    unstake_program: Identity,
    token_transfer_authority: Identity,
    stake_account_seed: u64,
    count: nat,
) -> Result<Seq<Identity>, AllocationError> {
    if count > 0 && stake_account_seed + count - 1 > u64::MAX {
        Err(AllocationError::MathOverflow)
    } else {
        found(
            new_stake_account_addresses(
                unstake_program,
                token_transfer_authority,
                stake_account_seed,
                count,
            ),
        )
    }
}

/// An address is known by its bytes.
pub proof fn lemma_identity_with(identity: Identity)
    ensures
        identity_with(identity.bytes@) == identity,
{
    let chosen = identity_with(identity.bytes@);
    assert(chosen.bytes@ == identity.bytes@);
    assert(chosen.bytes =~= identity.bytes);
}

proof fn lemma_found_so_far(
    addresses: Seq<Option<Seq<u8>>>,
    so_far: Seq<Identity>,
    next: Option<Identity>,
)
    requires
        so_far.len() < addresses.len(),
        forall|k: int| 0 <= k < so_far.len() ==> Some(so_far[k].bytes@) == #[trigger] addresses[k],
        crate::address::bytes_of(next) == addresses[so_far.len() as int],
    ensures
        next is None ==> found(addresses) == Err::<Seq<Identity>, AllocationError>(
            AllocationError::NoProgramAddress,
        ),
        next matches Some(identity) ==> forall|k: int|
            0 <= k < so_far.len() + 1 ==> Some(so_far.push(identity)[k].bytes@)
                == #[trigger] addresses[k],
{
}

proof fn lemma_found_all(addresses: Seq<Option<Seq<u8>>>, all: Seq<Identity>)
    requires
        all.len() == addresses.len(),
        forall|k: int| 0 <= k < all.len() ==> Some(all[k].bytes@) == #[trigger] addresses[k],
    ensures
        found(addresses) == Ok::<Seq<Identity>, AllocationError>(all),
{
    assert forall|k: int| 0 <= k < addresses.len() implies identity_with(addresses[k]->Some_0)
        == all[k] by {
        lemma_identity_with(all[k]);
    }
    assert(Seq::new(addresses.len(), |k: int| identity_with(addresses[k]->Some_0)) =~= all);
}

/// The stake account of the validator of each step of the plan.
///
/// `NoProgramAddress` where the stake pool program has no address for one of
/// them.
pub fn withdraw_stake_accounts(
    stake_pool_program: &Identity,
    stake_pool_address: &Identity,
    plan: &WithdrawalPlan,
) -> (r: Result<Vec<Identity>, AllocationError>)
    ensures
        is_found(
            r,
            found(stake_account_addresses(*stake_pool_program, *stake_pool_address, plan@)),
        ),
        r matches Ok(accounts) ==> accounts.len() == plan@.len() && forall|k: int|
            0 <= k < accounts.len() ==> Some((#[trigger] accounts[k]).bytes@) == program_address(
                validator_stake_seeds(plan@[k].source.identity, *stake_pool_address),
                stake_pool_program.bytes@,
            ),
{
    let ghost addresses = stake_account_addresses(*stake_pool_program, *stake_pool_address, plan@);
    let mut accounts: Vec<Identity> = Vec::new();
    let mut i: usize = 0;
    while i < plan.entries.len()
        invariant
            i <= plan.entries.len(),
            accounts.len() == i,
            addresses == stake_account_addresses(*stake_pool_program, *stake_pool_address, plan@),
            forall|k: int| 0 <= k < i ==> Some(accounts[k].bytes@) == #[trigger] addresses[k],
        decreases plan.entries.len() - i,
    {
        let address = stake_account_address(
            stake_pool_program,
            &plan.entries[i].source.identity,
            stake_pool_address,
        );
        proof {
            lemma_found_so_far(addresses, accounts@, address);
        }
        match address {
            Some(account) => accounts.push(account),
            None => {
                return Err(AllocationError::NoProgramAddress);
            },
        }
        i += 1;
    }
    proof {
        lemma_found_all(addresses, accounts@);
    }
    Ok(accounts)
}

/// The addresses of `count` new stake accounts of the authority, numbered
/// from `stake_account_seed` on.
///
/// `MathOverflow` where a number is beyond 64 bits, else `NoProgramAddress`
/// where the liquid unstake program has no address for one of them.
pub fn new_stake_accounts_as_pda(
    unstake_program: &Identity,
    token_transfer_authority: &Identity,
    stake_account_seed: u64,
    count: usize,
) -> (r: Result<Vec<Identity>, AllocationError>)
    ensures
        is_found(
            r,
            new_stake_accounts_found(
                *unstake_program,
                *token_transfer_authority,
                stake_account_seed,
                count as nat,
            ),
        ),
        r matches Ok(accounts) ==> accounts.len() == count && forall|k: int|
            0 <= k < accounts.len() ==> stake_account_seed + k <= u64::MAX && Some(
                (#[trigger] accounts[k]).bytes@,
            ) == program_address(
                new_stake_account_seeds(*token_transfer_authority, (stake_account_seed + k) as u64),
                unstake_program.bytes@,
            ),
{
    if count > 0 && (count - 1) as u64 > u64::MAX - stake_account_seed {
        return Err(AllocationError::MathOverflow);
    }
    let ghost addresses = new_stake_account_addresses(
        *unstake_program,
        *token_transfer_authority,
        stake_account_seed,
        count as nat,
    );
    let mut accounts: Vec<Identity> = Vec::new();
    let mut i: usize = 0;
    while i < count
        invariant
            i <= count,
            accounts.len() == i,
            count > 0 ==> stake_account_seed + count - 1 <= u64::MAX,
            addresses == new_stake_account_addresses(
                *unstake_program,
                *token_transfer_authority,
                stake_account_seed,
                count as nat,
            ),
            forall|k: int| 0 <= k < i ==> Some(accounts[k].bytes@) == #[trigger] addresses[k],
        decreases count - i,
    {
        let address = new_stake_account_address(
            unstake_program,
            token_transfer_authority,
            stake_account_seed + i as u64,
        );
        proof {
            lemma_found_so_far(addresses, accounts@, address);
        }
        match address {
            Some(account) => accounts.push(account),
            None => {
                return Err(AllocationError::NoProgramAddress);
            },
        }
        i += 1;
    }
    proof {
        lemma_found_all(addresses, accounts@);
    }
    Ok(accounts)
}

/// The record that the liquid unstake program keeps of each of the stake
/// accounts.
///
/// `NoProgramAddress` where the program has no address for one of them.
pub fn new_stake_pda_accounts(unstake_program: &Identity, new_stake_accounts: &Vec<Identity>) -> (r:
    Result<Vec<Identity>, AllocationError>)
    ensures
        is_found(r, found(stake_account_info_addresses(*unstake_program, new_stake_accounts@))),
        r matches Ok(records) ==> records.len() == new_stake_accounts.len() && forall|k: int|
            0 <= k < records.len() ==> Some((#[trigger] records[k]).bytes@) == program_address(
                stake_account_info_seeds(new_stake_accounts[k]),
                unstake_program.bytes@,
            ),
{
    let ghost addresses = stake_account_info_addresses(*unstake_program, new_stake_accounts@);
    let mut accounts: Vec<Identity> = Vec::new();
    let mut i: usize = 0;
    while i < new_stake_accounts.len()
        invariant
            i <= new_stake_accounts.len(),
            accounts.len() == i,
            addresses == stake_account_info_addresses(*unstake_program, new_stake_accounts@),
            forall|k: int| 0 <= k < i ==> Some(accounts[k].bytes@) == #[trigger] addresses[k],
        decreases new_stake_accounts.len() - i,
    {
        let address = stake_account_info_address(unstake_program, &new_stake_accounts[i]);
        proof {
            lemma_found_so_far(addresses, accounts@, address);
        }
        match address {
            Some(account) => accounts.push(account),
            None => {
                return Err(AllocationError::NoProgramAddress);
            },
        }
        i += 1;
    }
    proof {
        lemma_found_all(addresses, accounts@);
    }
    Ok(accounts)
}

/// How many steps an unstake instruction takes.
pub const MAX_WITHDRAWALS: usize = 5;

/// The amounts followed by as many of the filler as they are short of `min`.
pub open spec fn padded(amounts: Seq<u64>, min: nat, filler: u64) -> Seq<u64> {
    let missing = if min > amounts.len() {
        min - amounts.len()
    } else {
        0
    };
    amounts + Seq::new(missing as nat, |k: int| filler)
}

/// Calls `itertools::Itertools::pad_using`, which brings the sequence to a
/// length of at least `min` by filling in what a closure gives for each
/// missing place: here the filler, whatever the place.
#[verifier::external_body]
fn pad_using(amounts: Vec<u64>, min: usize, filler: u64) -> (all: Vec<u64>)
    ensures
        all@ == padded(amounts@, min as nat, filler),
{
    amounts.into_iter().pad_using(min, |_| filler).collect()
}

/// Calls `itertools::Itertools::collect_array`, which gives the items as an
/// array where there are exactly as many as the array holds, and `None`
/// otherwise.
#[verifier::external_body]
fn collect_array<const N: usize>(items: Vec<u64>) -> (array: Option<[u64; N]>)
    ensures
        items.len() == N ==> array is Some && array->Some_0@ == items@,
        items.len() != N ==> array is None,
{
    items.into_iter().collect_array::<N>()
}

impl WithdrawalPlan {
    /// The pool tokens of the steps as the unstake instruction takes them:
    /// those of the plan, then zeros up to [`MAX_WITHDRAWALS`]. `None` for a
    /// plan of more steps than that.
    pub fn padded_lst_amounts(&self) -> (amounts: Option<[u64; MAX_WITHDRAWALS]>)
        ensures
            self@.len() <= MAX_WITHDRAWALS ==> amounts is Some && amounts->Some_0@ == padded(
                lst_amounts_of(self@),
                MAX_WITHDRAWALS as nat,
                0,
            ),
            self@.len() > MAX_WITHDRAWALS ==> amounts is None,
    {
        collect_array::<MAX_WITHDRAWALS>(pad_using(self.lst_amounts(), MAX_WITHDRAWALS, 0))
    }

    /// The pool tokens that each step redeems.
    pub fn lst_amounts(&self) -> (amounts: Vec<u64>)
        ensures
            amounts@ == lst_amounts_of(self@),
    {
        let mut amounts: Vec<u64> = Vec::new();
        let mut i: usize = 0;
        while i < self.entries.len()
            invariant
                i <= self.entries.len(),
                amounts@ == lst_amounts_of(self@.take(i as int)),
            decreases self.entries.len() - i,
        {
            amounts.push(self.entries[i].lst_amount);
            assert(amounts@ =~= lst_amounts_of(self@.take(i + 1)));
            i += 1;
        }
        assert(self@.take(i as int) =~= self@);
        amounts
    }
}

/// Whether each step of the plan goes with the stake account that the stake
/// pool program has for the validator of the step.
pub open spec fn names_stake_accounts(
    given: UnstakeAccounts,
    stake_pool_program: Identity,
    stake_pool_address: Identity,
) -> bool {
    &&& given.withdraw_stake_accounts.len() == given.plan@.len()
    &&& forall|k: int|
        0 <= k < given.plan@.len() ==> Some((#[trigger] given.withdraw_stake_accounts[k]).bytes@)
            == program_address(
            validator_stake_seeds(given.plan@[k].source.identity, stake_pool_address),
            stake_pool_program.bytes@,
        )
}

/// What [`get_unstake_accounts`] returns.
pub open spec fn unstake_accounts(
    stake_pool_program: Identity,
    stake_pool_address: Identity,
    stake_pool_state: StakePoolConfig,
    validators: Seq<ValidatorRecord>,
    amount_in: u64,
) -> Result<(Seq<WithdrawalEntry>, Seq<Identity>), AllocationError> {
    match planned(stake_pool_state, withdraw_order(stake_pool_state, validators), amount_in) {
        Err(e) => Err(e),
        Ok(entries) => match found(
            stake_account_addresses(stake_pool_program, stake_pool_address, entries),
        ) {
            Err(e) => Err(e),
            Ok(accounts) => Ok((entries, accounts)),
        },
    }
}

/// The plan and the stake accounts of a withdrawal of `amount_in` pool
/// tokens from the stake pool.
///
/// The plan is the one that [`allocate`] makes, and it fails where `allocate`
/// fails. Each step names the stake account that the stake pool keeps for its
/// validator; where the stake pool program has no address for one, the
/// result is `NoProgramAddress`.
pub fn get_unstake_accounts(
    stake_pool_program: &Identity,
    stake_pool_address: &Identity,
    stake_pool_state: &StakePoolConfig,
    stake_pool_validator_list: &Vec<ValidatorRecord>,
    amount_in: u64,
) -> (r: Result<UnstakeAccounts, AllocationError>)
    ensures
        match unstake_accounts(
            *stake_pool_program,
            *stake_pool_address,
            *stake_pool_state,
            stake_pool_validator_list@,
            amount_in,
        ) {
            Ok((entries, accounts)) => r matches Ok(given) && given.plan@ == entries
                && given.withdraw_stake_accounts@ == accounts,
            Err(e) => r == Err::<UnstakeAccounts, AllocationError>(e),
        },
        r matches Ok(given) ==> is_whole_and_in_order(
            given.plan@,
            *stake_pool_state,
            stake_pool_validator_list@,
            amount_in,
        ) && names_stake_accounts(given, *stake_pool_program, *stake_pool_address),
{
    let plan = match allocate(stake_pool_state, stake_pool_validator_list, amount_in) {
        Ok(plan) => plan,
        Err(e) => {
            return Err(e);
        },
    };
    let withdraw_stake_accounts = match withdraw_stake_accounts(
        stake_pool_program,
        stake_pool_address,
        &plan,
    ) {
        Ok(accounts) => accounts,
        Err(e) => {
            return Err(e);
        },
    };
    Ok(UnstakeAccounts { plan, withdraw_stake_accounts })
}

/// What [`get_unstake_accounts_with_new_stake_account_as_pda`] returns.
pub open spec fn unstake_accounts_with_pda(
    stake_pool_program: Identity,
    stake_pool_address: Identity,
    stake_pool_state: StakePoolConfig,
    validators: Seq<ValidatorRecord>,
    stake_account_seed: u64,
    token_transfer_authority: Identity,
    unstake_program: Identity,
    amount_in: u64,
) -> Result<(Seq<WithdrawalEntry>, Seq<Identity>, Seq<Identity>, Seq<Identity>), AllocationError> {
    match unstake_accounts(
        stake_pool_program,
        stake_pool_address,
        stake_pool_state,
        validators,
        amount_in,
    ) {
        Err(e) => Err(e),
        Ok((entries, accounts)) => match new_stake_accounts_found(
            unstake_program,
            token_transfer_authority,
            stake_account_seed,
            entries.len(),
        ) {
            Err(e) => Err(e),
            Ok(new_accounts) => match found(
                stake_account_info_addresses(unstake_program, new_accounts),
            ) {
                Err(e) => Err(e),
                Ok(records) => Ok((entries, accounts, new_accounts, records)),
            },
        },
    }
}

/// The plan and the accounts of a withdrawal of `amount_in` pool tokens
/// whose new stake accounts the liquid unstake program derives.
///
/// The plan and the stake accounts are those of [`get_unstake_accounts`], and
/// it fails where that fails. The new stake account of step `i` is the one
/// that the liquid unstake program derives for the authority and the number
/// `stake_account_seed + i`; a number beyond 64 bits is `MathOverflow`. With
/// each goes the record that the program keeps of it. Where the program has
/// no address for one of them, the result is `NoProgramAddress`.
pub fn get_unstake_accounts_with_new_stake_account_as_pda(
    stake_pool_program: &Identity,
    stake_pool_address: &Identity,
    stake_pool_state: &StakePoolConfig,
    stake_pool_validator_list: &Vec<ValidatorRecord>,
    stake_account_seed: u64,
    token_transfer_authority: &Identity,
    unstake_program: &Identity,
    amount_in: u64,
) -> (r: Result<(UnstakeAccounts, NewStakeAccounts), AllocationError>)
    ensures
        match unstake_accounts_with_pda(
            *stake_pool_program,
            *stake_pool_address,
            *stake_pool_state,
            stake_pool_validator_list@,
            stake_account_seed,
            *token_transfer_authority,
            *unstake_program,
            amount_in,
        ) {
            Ok((entries, accounts, new_accounts, records)) => r matches Ok(given)
                && given.0.plan@ == entries && given.0.withdraw_stake_accounts@ == accounts
                && given.1.new_stake_accounts@ == new_accounts && given.1.new_stake_pda_accounts@
                == records,
            Err(e) => r == Err::<(UnstakeAccounts, NewStakeAccounts), AllocationError>(e),
        },
        r matches Ok(given) ==> {
            &&& is_whole_and_in_order(
                given.0.plan@,
                *stake_pool_state,
                stake_pool_validator_list@,
                amount_in,
            )
            &&& names_stake_accounts(given.0, *stake_pool_program, *stake_pool_address)
            &&& given.1.new_stake_accounts.len() == given.0.plan@.len()
            &&& given.1.new_stake_pda_accounts.len() == given.0.plan@.len()
            &&& forall|k: int|
                0 <= k < given.0.plan@.len() ==> {
                    let new_account = #[trigger] given.1.new_stake_accounts[k];
                    &&& stake_account_seed + k <= u64::MAX
                    &&& Some(new_account.bytes@) == program_address(
                        new_stake_account_seeds(
                            *token_transfer_authority,
                            (stake_account_seed + k) as u64,
                        ),
                        unstake_program.bytes@,
                    )
                    &&& Some(given.1.new_stake_pda_accounts[k].bytes@) == program_address(
                        stake_account_info_seeds(new_account),
                        unstake_program.bytes@,
                    )
                }
        },
{
    let unstake = match get_unstake_accounts(
        stake_pool_program,
        stake_pool_address,
        stake_pool_state,
        stake_pool_validator_list,
        amount_in,
    ) {
        Ok(unstake) => unstake,
        Err(e) => {
            return Err(e);
        },
    };
    let new_stake_accounts = match new_stake_accounts_as_pda(
        unstake_program,
        token_transfer_authority,
        stake_account_seed,
        unstake.plan.entries.len(),
    ) {
        Ok(accounts) => accounts,
        Err(e) => {
            return Err(e);
        },
    };
    let records = new_stake_pda_accounts(unstake_program, &new_stake_accounts);
    let new_stake_pda_accounts = match records {
        Ok(records) => records,
        Err(e) => {
            return Err(e);
        },
    };
    Ok((unstake, NewStakeAccounts { new_stake_accounts, new_stake_pda_accounts }))
}

} // verus!
