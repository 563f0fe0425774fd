//! The addresses that a program derives from seeds.
//!
//! A stake pool keeps the stake of each validator on an account whose address
//! it derives from the vote account of the validator. The liquid unstake
//! program derives the address of a new stake account from the authority that
//! pays for it and a sequence number, and that of the record it keeps of a
//! stake account from the address of the stake account.

use vstd::prelude::*;
use vstd::bytes::{spec_u64_to_le_bytes, u64_to_le_bytes};
use vstd::slice::slice_to_vec;
use vstd::string::StringSliceAdditionalSpecFns;
use solana_pubkey::Pubkey;
use crate::stake_pool::Identity;

verus! {

/// The address that a program with the given id derives from the seeds, as
/// `Pubkey::try_find_program_address` finds it: the seeds and a bump seed are
/// hashed with the program id, with the largest bump seed whose hash is an
/// address that no key pair can have. `None` where no bump seed gives one, or
/// the seeds are too many or too long.
pub uninterp spec fn program_address(seeds: Seq<Seq<u8>>, program_id: Seq<u8>) -> Option<Seq<u8>>;

/// The bytes of an address, where there is one.
pub open spec fn bytes_of(address: Option<Identity>) -> Option<Seq<u8>> {
    match address {
        Some(found) => Some(found.bytes@),
        None => None,
    }
}

/// The seeds of the stake account that a stake pool keeps for a validator:
/// the vote account, the address of the stake pool, and no suffix.
pub open spec fn validator_stake_seeds(
    vote_account_address: Identity,
    stake_pool_address: Identity,
) -> Seq<Seq<u8>> {
    seq![vote_account_address.bytes@, stake_pool_address.bytes@, Seq::<u8>::empty()]
}

/// The seeds of the authority that withdraws from a stake pool: the address
/// of the stake pool and the text `withdraw`.
pub open spec fn withdraw_authority_seeds(stake_pool_address: Identity) -> Seq<Seq<u8>> {
    seq![stake_pool_address.bytes@, "withdraw".spec_bytes()]
}

/// The seeds of a new stake account: the text `stake_account`, the authority
/// that pays for it, and the sequence number in eight bytes, lowest first.
pub open spec fn new_stake_account_seeds(authority: Identity, sequence_number: u64) -> Seq<
    Seq<u8>,
> {
    seq!["stake_account".spec_bytes(), authority.bytes@, spec_u64_to_le_bytes(sequence_number)]
}

/// The seeds of the record that is kept of a stake account: the text
/// `stake_account_info` and the address of the stake account.
pub open spec fn stake_account_info_seeds(stake_account: Identity) -> Seq<Seq<u8>> {
    seq!["stake_account_info".spec_bytes(), stake_account.bytes@]
}

/// Calls `solana_pubkey::Pubkey::try_find_program_address`, and hands on the
/// address without the bump seed. It is a function of the seeds and the
/// program id alone; [`program_address`] is its name.
#[verifier::external_body]
pub(crate) fn try_find_program_address(seeds: &Vec<Vec<u8>>, program_id: &Identity) -> (address:
    Option<Identity>)
    ensures
        bytes_of(address) == program_address(seeds.deep_view(), program_id.bytes@),
{
    let seeds: Vec<&[u8]> = seeds.iter().map(|seed| seed.as_slice()).collect();
    Pubkey::try_find_program_address(&seeds, &Pubkey::from(program_id.bytes)).map(
        |(address, _)| Identity { bytes: address.to_bytes() },
    )
}

/// Calls `spl_stake_pool::find_stake_program_address` without a seed suffix.
/// It derives, through `Pubkey::find_program_address`, the address that the
/// stake pool program has for [`validator_stake_seeds`], and panics where
/// there is none: hence the `requires`.
#[verifier::external_body]
pub(crate) fn find_stake_program_address(
    program_id: &Identity,
    vote_account_address: &Identity,
    stake_pool_address: &Identity,
) -> (address: Identity)
    requires
        program_address(
            validator_stake_seeds(*vote_account_address, *stake_pool_address),
            program_id.bytes@,
        ) is Some,
    ensures
        Some(address.bytes@) == program_address(
            validator_stake_seeds(*vote_account_address, *stake_pool_address),
            program_id.bytes@,
        ),
{
    let (address, _) = spl_stake_pool::find_stake_program_address(
        &Pubkey::from(program_id.bytes),
        &Pubkey::from(vote_account_address.bytes),
        &Pubkey::from(stake_pool_address.bytes),
        None,
    );
    Identity { bytes: address.to_bytes() }
}

/// The address of the stake account that the stake pool keeps for the
/// validator, or `None` where the stake pool program has no address for it.
pub fn stake_account_address(
    stake_pool_program: &Identity,
    vote_account_address: &Identity,
    stake_pool_address: &Identity,
) -> (address: Option<Identity>)
    ensures
        bytes_of(address) == program_address(
            validator_stake_seeds(*vote_account_address, *stake_pool_address),
            stake_pool_program.bytes@,
        ),
{
    let mut seeds: Vec<Vec<u8>> = Vec::new();
    seeds.push(vote_account_address.to_vec());
    seeds.push(stake_pool_address.to_vec());
    seeds.push(Vec::new());
    assert(seeds.deep_view() =~~= validator_stake_seeds(
        *vote_account_address,
        *stake_pool_address,
    ));
    // the probe tells whether the stake pool program has an address to give
    match try_find_program_address(&seeds, stake_pool_program) {
        Some(_) => Some(
            find_stake_program_address(
                stake_pool_program,
                vote_account_address,
                stake_pool_address,
            ),
        ),
        None => None,
    }
}

/// The address of the authority that withdraws from the stake pool, or `None`
/// where the stake pool program has no address for it.
pub fn withdraw_authority_address(
    stake_pool_program: &Identity,
    stake_pool_address: &Identity,
) -> (address: Option<Identity>)
    ensures
        bytes_of(address) == program_address(
            withdraw_authority_seeds(*stake_pool_address),
            stake_pool_program.bytes@,
        ),
{
    let mut seeds: Vec<Vec<u8>> = Vec::new();
    seeds.push(stake_pool_address.to_vec());
    seeds.push(slice_to_vec("withdraw".as_bytes()));
    assert(seeds.deep_view() =~~= withdraw_authority_seeds(*stake_pool_address));
    try_find_program_address(&seeds, stake_pool_program)
}

/// The address of the new stake account that the liquid unstake program
/// derives for the authority and the sequence number, or `None` where it has
/// none.
pub fn new_stake_account_address(
    unstake_program: &Identity,
    token_transfer_authority: &Identity,
    sequence_number: u64,
) -> (address: Option<Identity>)
    ensures
        bytes_of(address) == program_address(
            new_stake_account_seeds(*token_transfer_authority, sequence_number),
            unstake_program.bytes@,
        ),
{
    let mut seeds: Vec<Vec<u8>> = Vec::new();
    seeds.push(slice_to_vec("stake_account".as_bytes()));
    seeds.push(token_transfer_authority.to_vec());
    seeds.push(u64_to_le_bytes(sequence_number));
    assert(seeds.deep_view() =~~= new_stake_account_seeds(
        *token_transfer_authority,
        sequence_number,
    ));
    try_find_program_address(&seeds, unstake_program)
}

/// The address of the record that the liquid unstake program keeps of the
/// stake account, or `None` where it has none.
pub fn stake_account_info_address(unstake_program: &Identity, stake_account: &Identity) -> (address:
    Option<Identity>)
    ensures
        bytes_of(address) == program_address(
            stake_account_info_seeds(*stake_account),
            unstake_program.bytes@,
        ),
{
    let mut seeds: Vec<Vec<u8>> = Vec::new();
    seeds.push(slice_to_vec("stake_account_info".as_bytes()));
    seeds.push(stake_account.to_vec());
    assert(seeds.deep_view() =~~= stake_account_info_seeds(*stake_account));
    try_find_program_address(&seeds, unstake_program)
}

} // verus!
