use solana_pubkey::Pubkey;
use unstake_quote::accounts::{
    get_unstake_accounts, get_unstake_accounts_with_new_stake_account_as_pda,
    new_stake_accounts_as_pda, new_stake_pda_accounts, withdraw_stake_accounts,
};
use unstake_quote::address::{
    new_stake_account_address, stake_account_address, stake_account_info_address,
    withdraw_authority_address,
};
use unstake_quote::allocator::allocate;
use unstake_quote::error::AllocationError;
use unstake_quote::stake_pool::{
    Identity, StakePoolConfig, StakeStatus, ValidatorRecord, WithdrawalFee,
};

fn identity(byte: u8) -> Identity {
    Identity { bytes: [byte; 32] }
}

fn key(identity: &Identity) -> Pubkey {
    Pubkey::from(identity.bytes)
}

fn validator(byte: u8, active_stake: u64) -> ValidatorRecord {
    ValidatorRecord { identity: identity(byte), active_stake, status: StakeStatus::Active }
}

fn stake_pool() -> StakePoolConfig {
    StakePoolConfig {
        pool_mint: Identity { bytes: [42; 32] },
        pool_token_supply: 0,
        total_lamports: 0,
        stake_withdrawal_fee: WithdrawalFee { numerator: 0, denominator: 0 },
        preferred_withdraw_validator: None,
    }
}

fn derived(seeds: &[&[u8]], program: &Identity) -> Identity {
    Identity { bytes: Pubkey::find_program_address(seeds, &key(program)).0.to_bytes() }
}

#[test]
fn stake_account_address_is_the_one_of_the_stake_pool_program() {
    let (program, vote, pool) = (identity(9), identity(1), identity(2));
    let address = stake_account_address(&program, &vote, &pool).unwrap();
    let expected =
        spl_stake_pool::find_stake_program_address(&key(&program), &key(&vote), &key(&pool), None).0;
    assert_eq!(address.bytes, expected.to_bytes());
    assert_eq!(address, derived(&[&vote.bytes, &pool.bytes, &[]], &program));
    assert_ne!(address, program);
    assert_ne!(address, vote);
    assert_ne!(address, pool);
}

#[test]
fn stake_account_address_depends_on_each_argument() {
    let address = stake_account_address(&identity(9), &identity(1), &identity(2)).unwrap();
    assert_ne!(address, stake_account_address(&identity(8), &identity(1), &identity(2)).unwrap());
    assert_ne!(address, stake_account_address(&identity(9), &identity(3), &identity(2)).unwrap());
    assert_ne!(address, stake_account_address(&identity(9), &identity(1), &identity(3)).unwrap());
    assert_ne!(address, stake_account_address(&identity(9), &identity(2), &identity(1)).unwrap());
}

#[test]
fn new_stake_account_address_is_derived_from_authority_and_number() {
    let (program, authority) = (identity(7), identity(4));
    let number: u64 = 0x0102_0304_0506_0708;
    let address = new_stake_account_address(&program, &authority, number).unwrap();
    let expected = derived(
        &[b"stake_account", &authority.bytes, &[8, 7, 6, 5, 4, 3, 2, 1]],
        &program,
    );
    assert_eq!(address, expected);
    assert_ne!(address, new_stake_account_address(&program, &authority, number + 1).unwrap());
    assert_ne!(address, authority);
}

#[test]
fn stake_account_info_address_is_derived_from_the_stake_account() {
    let (program, account) = (identity(7), identity(5));
    let address = stake_account_info_address(&program, &account).unwrap();
    assert_eq!(address, derived(&[b"stake_account_info", &account.bytes], &program));
    assert_ne!(address, account);
}

#[test]
fn unstake_accounts_follow_the_plan() {
    let (program, pool_address) = (identity(9), identity(2));
    let validators = vec![validator(11, 300), validator(12, 500), validator(13, 700)];
    let accounts =
        get_unstake_accounts(&program, &pool_address, &stake_pool(), &validators, 1300).unwrap();
    assert_eq!(accounts.plan.lst_amounts(), vec![700, 500, 100]);
    assert_eq!(
        accounts.withdraw_stake_accounts,
        vec![
            stake_account_address(&program, &identity(13), &pool_address).unwrap(),
            stake_account_address(&program, &identity(12), &pool_address).unwrap(),
            stake_account_address(&program, &identity(11), &pool_address).unwrap(),
        ]
    );
    let plan = allocate(&stake_pool(), &validators, 1300).unwrap();
    assert_eq!(plan, accounts.plan);
    assert_eq!(
        withdraw_stake_accounts(&program, &pool_address, &plan),
        Ok(accounts.withdraw_stake_accounts)
    );
}

#[test]
fn unstake_accounts_fail_where_the_plan_fails() {
    let (program, pool_address) = (identity(9), identity(2));
    let validators = vec![validator(11, 300)];
    assert_eq!(
        get_unstake_accounts(&program, &pool_address, &stake_pool(), &validators, 301),
        Err(AllocationError::InsufficientPoolTokens)
    );
    let mut pool = stake_pool();
    pool.stake_withdrawal_fee = WithdrawalFee { numerator: 2, denominator: 1 };
    assert_eq!(
        get_unstake_accounts(&program, &pool_address, &pool, &validators, 1),
        Err(AllocationError::MathUnderflow)
    );
    assert_eq!(
        get_unstake_accounts_with_new_stake_account_as_pda(
            &program,
            &pool_address,
            &stake_pool(),
            &validators,
            0,
            &identity(4),
            &identity(7),
            301
        ),
        Err(AllocationError::InsufficientPoolTokens)
    );
}

#[test]
fn new_stake_accounts_are_numbered_from_the_seed_on() {
    let (program, pool_address, authority, unstake_program) =
        (identity(9), identity(2), identity(4), identity(7));
    let validators = vec![validator(11, 300), validator(12, 500), validator(13, 700)];
    let (accounts, new_accounts) = get_unstake_accounts_with_new_stake_account_as_pda(
        &program,
        &pool_address,
        &stake_pool(),
        &validators,
        41,
        &authority,
        &unstake_program,
        1300,
    )
    .unwrap();
    assert_eq!(
        Ok(accounts),
        get_unstake_accounts(&program, &pool_address, &stake_pool(), &validators, 1300)
    );
    assert_eq!(
        new_accounts.new_stake_accounts,
        vec![
            new_stake_account_address(&unstake_program, &authority, 41).unwrap(),
            new_stake_account_address(&unstake_program, &authority, 42).unwrap(),
            new_stake_account_address(&unstake_program, &authority, 43).unwrap(),
        ]
    );
    assert_eq!(
        new_accounts.new_stake_pda_accounts,
        vec![
            stake_account_info_address(&unstake_program, &new_accounts.new_stake_accounts[0])
                .unwrap(),
            stake_account_info_address(&unstake_program, &new_accounts.new_stake_accounts[1])
                .unwrap(),
            stake_account_info_address(&unstake_program, &new_accounts.new_stake_accounts[2])
                .unwrap(),
        ]
    );
}

#[test]
fn number_of_a_new_stake_account_beyond_64_bits_is_overflow() {
    let (authority, unstake_program) = (identity(4), identity(7));
    assert_eq!(
        new_stake_accounts_as_pda(&unstake_program, &authority, u64::MAX, 2),
        Err(AllocationError::MathOverflow)
    );
    assert_eq!(
        new_stake_accounts_as_pda(&unstake_program, &authority, u64::MAX, 1),
        Ok(vec![new_stake_account_address(&unstake_program, &authority, u64::MAX).unwrap()])
    );
    assert_eq!(new_stake_accounts_as_pda(&unstake_program, &authority, u64::MAX, 0), Ok(vec![]));
    let validators = vec![validator(11, 300), validator(12, 500)];
    assert_eq!(
        get_unstake_accounts_with_new_stake_account_as_pda(
            &identity(9),
            &identity(2),
            &stake_pool(),
            &validators,
            u64::MAX,
            &authority,
            &unstake_program,
            800
        ),
        Err(AllocationError::MathOverflow)
    );
}

#[test]
fn records_go_with_the_stake_accounts_they_are_given() {
    let unstake_program = identity(7);
    let new_accounts = vec![identity(21), identity(22)];
    assert_eq!(
        new_stake_pda_accounts(&unstake_program, &new_accounts),
        Ok(vec![
            stake_account_info_address(&unstake_program, &identity(21)).unwrap(),
            stake_account_info_address(&unstake_program, &identity(22)).unwrap(),
        ])
    );
    assert_eq!(new_stake_pda_accounts(&unstake_program, &Vec::new()), Ok(vec![]));
}

#[test]
fn every_identity_is_a_seed_that_the_derivation_accepts() {
    for byte in [0u8, 1, 127, 255] {
        assert!(stake_account_address(&identity(byte), &identity(byte), &identity(byte)).is_some());
    }
}

#[test]
fn withdraw_authority_is_derived_from_the_stake_pool() {
    let (program, pool_address) = (identity(9), identity(2));
    let address = withdraw_authority_address(&program, &pool_address).unwrap();
    assert_eq!(address, derived(&[&pool_address.bytes, b"withdraw"], &program));
    assert_ne!(address, pool_address);
}

#[test]
fn amounts_are_padded_with_zeros_to_five() {
    let validators = vec![validator(11, 300), validator(12, 500), validator(13, 700)];
    let plan = allocate(&stake_pool(), &validators, 1300).unwrap();
    assert_eq!(plan.padded_lst_amounts(), Some([700, 500, 100, 0, 0]));
    let plan = allocate(&stake_pool(), &validators, 0).unwrap();
    assert_eq!(plan.padded_lst_amounts(), Some([0, 0, 0, 0, 0]));
}

#[test]
fn five_amounts_are_not_padded_and_six_are_too_many() {
    let mut validators: Vec<ValidatorRecord> =
        (1..=6).map(|byte| validator(byte, 100 * byte as u64)).collect();
    let plan = allocate(&stake_pool(), &validators, 2100).unwrap();
    assert_eq!(plan.entries.len(), 6);
    assert_eq!(plan.padded_lst_amounts(), None);
    validators.pop();
    let plan = allocate(&stake_pool(), &validators, 1500).unwrap();
    assert_eq!(plan.padded_lst_amounts(), Some([500, 400, 300, 200, 100]));
}

#[test]
fn nothing_asked_for_names_no_account_even_at_a_fee_of_all() {
    let mut pool = stake_pool();
    pool.stake_withdrawal_fee = WithdrawalFee { numerator: 5, denominator: 5 };
    for validators in [Vec::new(), vec![validator(11, 300), validator(12, 500)]] {
        let (accounts, new_accounts) = get_unstake_accounts_with_new_stake_account_as_pda(
            &identity(9),
            &identity(2),
            &pool,
            &validators,
            u64::MAX,
            &identity(4),
            &identity(7),
            0,
        )
        .unwrap();
        assert_eq!(accounts.plan.lst_amounts(), Vec::<u64>::new());
        assert_eq!(accounts.withdraw_stake_accounts, Vec::new());
        assert_eq!(new_accounts.new_stake_accounts, Vec::new());
        assert_eq!(new_accounts.new_stake_pda_accounts, Vec::new());
        let accounts =
            get_unstake_accounts(&identity(9), &identity(2), &pool, &validators, 0).unwrap();
        assert!(accounts.plan.entries.is_empty() && accounts.withdraw_stake_accounts.is_empty());
    }
}
