//! Which validator stake accounts a withdrawal of pool tokens draws from.
//!
//! Only validators that are active and hold stake are drawn from. Those that
//! the stake pool prefers for withdrawals come first, then the others; within
//! each group the larger stake comes first, and equal stakes keep the order of
//! the validator list. Each account in turn gives what it can, until the
//! amount is met.

use vstd::prelude::*;
use std::cmp::Ordering;
use itertools::Itertools;
use crate::error::AllocationError;
use crate::stake_pool::{Identity, StakePoolConfig, StakeStatus, ValidatorRecord, WithdrawalFee};

verus! {

/// The stake account of a validator that a withdrawal may draw from.
#[derive(Clone, Copy, Debug, PartialEq, Eq)]
pub struct StakeAccount {
    /// Where the validator stands in the validator list.
    pub validator_index: usize,
    /// The vote account of the validator.
    pub identity: Identity,
    /// Whether the stake pool prefers this validator for withdrawals.
    pub is_preferred: bool,
    /// Lamports on the stake account.
    pub lamports: u64,
}

/// One step of a withdrawal: the account and the pool tokens to redeem on it.
#[derive(Clone, Copy, Debug, PartialEq, Eq)]
pub struct WithdrawalEntry {
    pub source: StakeAccount,
    pub lst_amount: u64,
}

/// The steps of a withdrawal, in the order in which they are taken.
#[derive(Clone, Debug, PartialEq, Eq)]
pub struct WithdrawalPlan {
    pub entries: Vec<WithdrawalEntry>,
}

impl View for WithdrawalPlan {
    type V = Seq<WithdrawalEntry>;

    open spec fn view(&self) -> Seq<WithdrawalEntry> {
        self.entries@
    }
}

/// Whether a withdrawal may draw from the validator.
pub open spec fn is_eligible(validator: ValidatorRecord) -> bool {
    validator.status == StakeStatus::Active && validator.active_stake != 0
}

/// Whether the validator is the one that the stake pool prefers for withdrawals.
pub open spec fn is_preferred(pool: StakePoolConfig, validator: ValidatorRecord) -> bool {
    pool.preferred_withdraw_validator == Some(validator.identity)
}

/// The stake account of the validator at `index` of the list.
pub open spec fn account_of(
    pool: StakePoolConfig,
    validators: Seq<ValidatorRecord>,
    index: int,
) -> StakeAccount {
    StakeAccount {
        validator_index: index as usize,
        identity: validators[index].identity,
        is_preferred: is_preferred(pool, validators[index]),
        lamports: validators[index].active_stake,
    }
}

/// The accounts of the eligible validators among the first `n` of the list
/// that are preferred, or that are not, in the order of the list.
pub open spec fn group_upto(
    pool: StakePoolConfig,
    validators: Seq<ValidatorRecord>,
    preferred: bool,
    n: int,
) -> Seq<StakeAccount>
    decreases n,
{
    if n <= 0 {
        Seq::empty()
    } else if is_eligible(validators[n - 1]) && is_preferred(pool, validators[n - 1]) == preferred {
        group_upto(pool, validators, preferred, n - 1).push(account_of(pool, validators, n - 1))
    } else {
        group_upto(pool, validators, preferred, n - 1)
    }
}

/// The accounts of all eligible validators that are preferred, or that are
/// not, in the order of the list.
pub open spec fn group(
    pool: StakePoolConfig,
    validators: Seq<ValidatorRecord>,
    preferred: bool,
) -> Seq<StakeAccount> {
    group_upto(pool, validators, preferred, validators.len() as int)
}

/// Whether the accounts stand in the order of the validator list.
pub open spec fn in_list_order(accounts: Seq<StakeAccount>) -> bool {
    forall|j: int, k: int|
        0 <= j < k < accounts.len() ==> accounts[j].validator_index < accounts[k].validator_index
}

/// Whether `a` is drawn from before `b`: it holds more stake, or as much and
/// stands earlier in the validator list.
pub open spec fn comes_before(a: StakeAccount, b: StakeAccount) -> bool {
    a.lamports > b.lamports || (a.lamports == b.lamports && a.validator_index < b.validator_index)
}

/// Whether each account of the sequence comes before all that follow it.
pub open spec fn each_comes_before_the_next(accounts: Seq<StakeAccount>) -> bool {
    forall|j: int, k: int| 0 <= j < k < accounts.len() ==> comes_before(accounts[j], accounts[k])
}

/// Whether `sorted` holds the accounts of `accounts`, the larger stake first
/// and equal stakes in the order of the validator list.
pub open spec fn is_sorted_by_stake(
    accounts: Seq<StakeAccount>,
    sorted: Seq<StakeAccount>,
) -> bool {
    &&& sorted.len() == accounts.len()
    &&& forall|k: int| 0 <= k < sorted.len() ==> accounts.contains(#[trigger] sorted[k])
    &&& forall|k: int| 0 <= k < accounts.len() ==> sorted.contains(#[trigger] accounts[k])
    &&& each_comes_before_the_next(sorted)
}

/// The accounts with the larger stake first and equal stakes in the order of
/// the validator list. [`lemma_sorted_by_stake_is`] shows that there is only
/// one such sequence.
pub open spec fn sorted_by_stake(accounts: Seq<StakeAccount>) -> Seq<StakeAccount> {
    choose|sorted: Seq<StakeAccount>| is_sorted_by_stake(accounts, sorted)
}

/// The order in which a withdrawal goes through the accounts: the preferred
/// ones by stake, then the others by stake.
pub open spec fn withdraw_order(
    pool: StakePoolConfig,
    validators: Seq<ValidatorRecord>,
) -> Seq<StakeAccount> {
    sorted_by_stake(group(pool, validators, true)) + sorted_by_stake(
        group(pool, validators, false),
    )
}

/// Whether the withdrawal fee is at most 100%: the fee can then be taken from
/// what is withdrawn.
pub open spec fn fee_is_at_most_all(fee: WithdrawalFee) -> bool {
    fee.numerator <= fee.denominator
}

/// The pool tokens that `lamports` of stake are worth: one for one while the
/// pool has no supply or no lamports, else at `pool_token_supply /
/// total_lamports`, rounded down.
pub open spec fn pool_tokens_for_stake(pool: StakePoolConfig, lamports: u64) -> int {
    if pool.pool_token_supply == 0 || pool.total_lamports == 0 {
        lamports as int
    } else {
        lamports * pool.pool_token_supply / (pool.total_lamports as int)
    }
}

/// The pool tokens that can be redeemed on an account that holds `lamports`:
/// what the stake is worth, raised by what the stake pool will keep as its
/// withdrawal fee. It is not raised where the fee is nothing, nor where the
/// fee is all, for which there is no such amount.
pub open spec fn withdrawable_pool_tokens(pool: StakePoolConfig, lamports: u64) -> int {
    let fee = pool.stake_withdrawal_fee;
    if fee.numerator == 0 || fee.numerator == fee.denominator {
        pool_tokens_for_stake(pool, lamports)
    } else {
        pool_tokens_for_stake(pool, lamports) * fee.denominator / (fee.denominator - fee.numerator)
    }
}

/// The pool tokens that a withdrawal which still lacks `remaining` redeems on
/// an account that holds `lamports`.
pub open spec fn taken_from(pool: StakePoolConfig, lamports: u64, remaining: int) -> int {
    if withdrawable_pool_tokens(pool, lamports) < remaining {
        withdrawable_pool_tokens(pool, lamports)
    } else {
        remaining
    }
}

/// The steps that draw `remaining` pool tokens from `order`, each account in
/// turn giving what it can and those that can give nothing being passed over;
/// `None` where the accounts run out first.
pub open spec fn drawn_from(
    pool: StakePoolConfig,
    order: Seq<StakeAccount>,
    remaining: int,
) -> Option<Seq<WithdrawalEntry>>
    decreases order.len(),
{
    if remaining == 0 {
        Some(Seq::empty())
    } else if order.len() == 0 {
        None
    } else {
        let taken = taken_from(pool, order[0].lamports, remaining);
        if taken == 0 {
            drawn_from(pool, order.skip(1), remaining)
        } else {
            match drawn_from(pool, order.skip(1), remaining - taken) {
                Some(rest) => Some(
                    seq![WithdrawalEntry { source: order[0], lst_amount: taken as u64 }] + rest,
                ),
                None => None,
            }
        }
    }
}

/// The plan that draws `amount` pool tokens from `order`.
pub open spec fn planned(pool: StakePoolConfig, order: Seq<StakeAccount>, amount: u64) -> Result<
    Seq<WithdrawalEntry>,
    AllocationError,
> {
    if !fee_is_at_most_all(pool.stake_withdrawal_fee) {
        Err(AllocationError::MathUnderflow)
    } else {
        match drawn_from(pool, order, amount as int) {
            Some(entries) => Ok(entries),
            None => Err(AllocationError::InsufficientPoolTokens),
        }
    }
}

/// The pool tokens that the entries redeem together.
pub open spec fn total_lst_amount(entries: Seq<WithdrawalEntry>) -> int
    decreases entries.len(),
{
    if entries.len() == 0 {
        0
    } else {
        entries[0].lst_amount + total_lst_amount(entries.skip(1))
    }
}

/// Whether no account that is not preferred stands before a preferred one,
/// and within each of the two groups no stake before a larger one.
pub open spec fn preferred_first_then_by_stake(accounts: Seq<StakeAccount>) -> bool {
    forall|j: int, k: int|
        0 <= j < k < accounts.len() ==> {
            &&& accounts[j].is_preferred || !accounts[k].is_preferred
            &&& accounts[j].is_preferred == accounts[k].is_preferred ==> accounts[j].lamports
                >= accounts[k].lamports
        }
}

/// Whether no two of the accounts are of the same validator.
pub open spec fn no_validator_twice(accounts: Seq<StakeAccount>) -> bool {
    forall|j: int, k: int|
        0 <= j < k < accounts.len() ==> accounts[j].validator_index
            != accounts[k].validator_index
}

/// The accounts that the entries draw from.
pub open spec fn sources(entries: Seq<WithdrawalEntry>) -> Seq<StakeAccount> {
    entries.map_values(|entry: WithdrawalEntry| entry.source)
}

/// Whether the entries redeem `amount_in` exactly, each of them something
/// and no more than its account can give, on eligible validators of the list,
/// on none of them twice, the preferred ones first and within each of the two
/// groups the larger stake first.
pub open spec fn is_whole_and_in_order(
    entries: Seq<WithdrawalEntry>,
    pool: StakePoolConfig,
    validators: Seq<ValidatorRecord>,
    amount_in: u64,
) -> bool {
    &&& total_lst_amount(entries) == amount_in
    &&& preferred_first_then_by_stake(sources(entries))
    &&& no_validator_twice(sources(entries))
    &&& entries.len() <= validators.len()
    &&& forall|k: int|
        0 <= k < entries.len() ==> {
            let entry = #[trigger] entries[k];
            &&& 0 < entry.lst_amount <= withdrawable_pool_tokens(pool, entry.source.lamports)
            &&& entry.source.validator_index < validators.len()
            &&& entry.source == account_of(pool, validators, entry.source.validator_index as int)
            &&& is_eligible(validators[entry.source.validator_index as int])
        }
}

/// Whether a result holds the plan, or the error, that `expected` gives.
pub open spec fn is_plan(
    result: Result<WithdrawalPlan, AllocationError>,
    expected: Result<Seq<WithdrawalEntry>, AllocationError>,
) -> bool {
    match expected {
        Ok(entries) => result is Ok && result->Ok_0@ == entries,
        Err(e) => result == Err::<WithdrawalPlan, AllocationError>(e),
    }
}

/// What the accounts of a group are: each is the account of an eligible
/// validator of the list, preferred or not as the group is, and they stand in
/// the order of the list.
pub proof fn lemma_group_members(
    pool: StakePoolConfig,
    validators: Seq<ValidatorRecord>,
    preferred: bool,
    n: int,
)
    requires
        0 <= n <= validators.len() <= usize::MAX,
    ensures
        group_upto(pool, validators, preferred, n).len() <= n,
        in_list_order(group_upto(pool, validators, preferred, n)),
        forall|k: int|
            0 <= k < group_upto(pool, validators, preferred, n).len() ==> {
                let account = #[trigger] group_upto(pool, validators, preferred, n)[k];
                &&& account.validator_index < n
                &&& account == account_of(pool, validators, account.validator_index as int)
                &&& is_eligible(validators[account.validator_index as int])
                &&& account.is_preferred == preferred
            },
    decreases n,
{
    if n > 0 {
        lemma_group_members(pool, validators, preferred, n - 1);
    }
}

/// The two groups together hold no more accounts than the list has
/// validators.
pub proof fn lemma_groups_within_list(
    pool: StakePoolConfig,
    validators: Seq<ValidatorRecord>,
    n: int,
)
    requires
        0 <= n <= validators.len(),
    ensures
        group_upto(pool, validators, true, n).len() + group_upto(pool, validators, false, n).len()
            <= n,
    decreases n,
{
    if n > 0 {
        lemma_groups_within_list(pool, validators, n - 1);
    }
}

/// Two sequences in which each account comes before all that follow it, and
/// which hold the same accounts, are the same sequence.
pub proof fn lemma_same_accounts_same_order(a: Seq<StakeAccount>, b: Seq<StakeAccount>)
    requires
        each_comes_before_the_next(a),
        each_comes_before_the_next(b),
        forall|k: int| 0 <= k < a.len() ==> b.contains(#[trigger] a[k]),
        forall|k: int| 0 <= k < b.len() ==> a.contains(#[trigger] b[k]),
    ensures
        a == b,
    decreases a.len(),
{
    if a.len() == 0 {
        if b.len() > 0 {
            assert(a.contains(b[0]));
        }
        assert(a =~= b);
    } else {
        assert(b.contains(a[0]));
        let k = choose|k: int| 0 <= k < b.len() && b[k] == a[0];
        assert(a.contains(b[0]));
        let m = choose|m: int| 0 <= m < a.len() && a[m] == b[0];
        if k > 0 {
            assert(comes_before(b[0], b[k]));
            if m > 0 {
                assert(comes_before(a[0], a[m]));
            }
            assert(false);
        }
        let ta = a.skip(1);
        let tb = b.skip(1);
        assert forall|i: int| 0 <= i < ta.len() implies tb.contains(#[trigger] ta[i]) by {
            assert(comes_before(a[0], a[i + 1]));
            assert(b.contains(a[i + 1]));
            let j = choose|j: int| 0 <= j < b.len() && b[j] == a[i + 1];
            assert(j > 0);
            assert(tb[j - 1] == ta[i]);
        }
        assert forall|i: int| 0 <= i < tb.len() implies ta.contains(#[trigger] tb[i]) by {
            assert(comes_before(b[0], b[i + 1]));
            assert(a.contains(b[i + 1]));
            let j = choose|j: int| 0 <= j < a.len() && a[j] == b[i + 1];
            assert(j > 0);
            assert(ta[j - 1] == tb[i]);
        }
        assert(each_comes_before_the_next(ta)) by {
            assert forall|j: int, k: int| 0 <= j < k < ta.len() implies comes_before(
                ta[j],
                ta[k],
            ) by {
                assert(comes_before(a[j + 1], a[k + 1]));
            }
        }
        assert(each_comes_before_the_next(tb)) by {
            assert forall|j: int, k: int| 0 <= j < k < tb.len() implies comes_before(
                tb[j],
                tb[k],
            ) by {
                assert(comes_before(b[j + 1], b[k + 1]));
            }
        }
        lemma_same_accounts_same_order(ta, tb);
        assert(a =~= seq![a[0]] + ta);
        assert(b =~= seq![b[0]] + tb);
    }
}

/// There is one way only to sort accounts by stake: a sequence that holds the
/// accounts sorted is what [`sorted_by_stake`] stands for.
pub proof fn lemma_sorted_by_stake_is(accounts: Seq<StakeAccount>, sorted: Seq<StakeAccount>)
    requires
        is_sorted_by_stake(accounts, sorted),
    ensures
        sorted_by_stake(accounts) == sorted,
{
    let chosen = sorted_by_stake(accounts);
    assert(is_sorted_by_stake(accounts, chosen));
    assert forall|k: int| 0 <= k < chosen.len() implies sorted.contains(#[trigger] chosen[k]) by {
        assert(accounts.contains(chosen[k]));
        let j = choose|j: int| 0 <= j < accounts.len() && accounts[j] == chosen[k];
        assert(sorted.contains(accounts[j]));
    }
    assert forall|k: int| 0 <= k < sorted.len() implies chosen.contains(#[trigger] sorted[k]) by {
        assert(accounts.contains(sorted[k]));
        let j = choose|j: int| 0 <= j < accounts.len() && accounts[j] == sorted[k];
        assert(chosen.contains(accounts[j]));
    }
    lemma_same_accounts_same_order(chosen, sorted);
}

spec fn inserted(sorted: Seq<StakeAccount>, account: StakeAccount) -> Seq<StakeAccount>
    decreases sorted.len(),
{
    if sorted.len() == 0 {
        seq![account]
    } else if comes_before(account, sorted[0]) {
        seq![account] + sorted
    } else {
        seq![sorted[0]] + inserted(sorted.skip(1), account)
    }
}

spec fn sorted_by_insertion(accounts: Seq<StakeAccount>) -> Seq<StakeAccount>
    decreases accounts.len(),
{
    if accounts.len() == 0 {
        Seq::empty()
    } else {
        inserted(sorted_by_insertion(accounts.drop_last()), accounts.last())
    }
}

proof fn lemma_inserted(sorted: Seq<StakeAccount>, account: StakeAccount)
    requires
        each_comes_before_the_next(sorted),
        forall|k: int|
            0 <= k < sorted.len() ==> (#[trigger] sorted[k]).validator_index
                != account.validator_index,
    ensures
        inserted(sorted, account).len() == sorted.len() + 1,
        each_comes_before_the_next(inserted(sorted, account)),
        inserted(sorted, account).contains(account),
        forall|k: int|
            0 <= k < sorted.len() ==> inserted(sorted, account).contains(#[trigger] sorted[k]),
        forall|k: int|
            0 <= k < inserted(sorted, account).len() ==> (#[trigger] inserted(sorted, account)[k])
                == account || sorted.contains(inserted(sorted, account)[k]),
    decreases sorted.len(),
{
    let r = inserted(sorted, account);
    if sorted.len() == 0 {
        assert(r[0] == account);
    } else if comes_before(account, sorted[0]) {
        assert(r[0] == account);
        assert forall|k: int| 0 <= k < sorted.len() implies r.contains(#[trigger] sorted[k]) by {
            assert(r[k + 1] == sorted[k]);
        }
        assert forall|k: int| 0 <= k < r.len() implies (#[trigger] r[k]) == account
            || sorted.contains(r[k]) by {
            if k > 0 {
                assert(r[k] == sorted[k - 1]);
            }
        }
        assert forall|j: int, k: int| 0 <= j < k < r.len() implies comes_before(r[j], r[k]) by {
            assert(r[k] == sorted[k - 1]);
            if j == 0 {
                if k > 1 {
                    assert(comes_before(sorted[0], sorted[k - 1]));
                }
            } else {
                assert(r[j] == sorted[j - 1]);
            }
        }
    } else {
        let tail = sorted.skip(1);
        let rest = inserted(tail, account);
        assert forall|j: int, k: int| 0 <= j < k < tail.len() implies comes_before(
            tail[j],
            tail[k],
        ) by {
            assert(comes_before(sorted[j + 1], sorted[k + 1]));
        }
        assert forall|k: int| 0 <= k < tail.len() implies (#[trigger] tail[k]).validator_index
            != account.validator_index by {
            assert(tail[k] == sorted[k + 1]);
        }
        lemma_inserted(tail, account);
        assert(r == seq![sorted[0]] + rest);
        assert(r[0] == sorted[0]);
        let at = choose|at: int| 0 <= at < rest.len() && rest[at] == account;
        assert(r[at + 1] == account);
        assert forall|k: int| 0 <= k < sorted.len() implies r.contains(#[trigger] sorted[k]) by {
            if k > 0 {
                assert(tail[k - 1] == sorted[k]);
                assert(rest.contains(tail[k - 1]));
                let i = choose|i: int| 0 <= i < rest.len() && rest[i] == tail[k - 1];
                assert(r[i + 1] == sorted[k]);
            }
        }
        assert forall|k: int| 0 <= k < r.len() implies (#[trigger] r[k]) == account
            || sorted.contains(r[k]) by {
            if k > 0 {
                assert(r[k] == rest[k - 1]);
                if rest[k - 1] != account {
                    assert(tail.contains(rest[k - 1]));
                    let i = choose|i: int| 0 <= i < tail.len() && tail[i] == rest[k - 1];
                    assert(sorted[i + 1] == r[k]);
                }
            }
        }
        assert forall|j: int, k: int| 0 <= j < k < r.len() implies comes_before(r[j], r[k]) by {
            assert(r[k] == rest[k - 1]);
            if j == 0 {
                if rest[k - 1] != account {
                    assert(tail.contains(rest[k - 1]));
                    let i = choose|i: int| 0 <= i < tail.len() && tail[i] == rest[k - 1];
                    assert(comes_before(sorted[0], sorted[i + 1]));
                }
            } else {
                assert(r[j] == rest[j - 1]);
                assert(comes_before(rest[j - 1], rest[k - 1]));
            }
        }
    }
}

proof fn lemma_sorted_by_insertion(accounts: Seq<StakeAccount>)
    requires
        in_list_order(accounts),
    ensures
        is_sorted_by_stake(accounts, sorted_by_insertion(accounts)),
    decreases accounts.len(),
{
    if accounts.len() > 0 {
        let front = accounts.drop_last();
        let last = accounts.last();
        let before = sorted_by_insertion(front);
        assert forall|j: int, k: int| 0 <= j < k < front.len() implies front[j].validator_index
            < front[k].validator_index by {
            assert(front[j] == accounts[j] && front[k] == accounts[k]);
        }
        lemma_sorted_by_insertion(front);
        assert forall|k: int| 0 <= k < before.len() implies (#[trigger] before[k]).validator_index
            != last.validator_index by {
            assert(front.contains(before[k]));
            let i = choose|i: int| 0 <= i < front.len() && front[i] == before[k];
            assert(accounts[i].validator_index < accounts[accounts.len() - 1].validator_index);
        }
        lemma_inserted(before, last);
        let sorted = sorted_by_insertion(accounts);
        assert forall|k: int| 0 <= k < sorted.len() implies accounts.contains(
            #[trigger] sorted[k],
        ) by {
            if sorted[k] == last {
                assert(accounts[accounts.len() - 1] == last);
            } else {
                assert(before.contains(sorted[k]));
                let i = choose|i: int| 0 <= i < before.len() && before[i] == sorted[k];
                assert(front.contains(before[i]));
                let j = choose|j: int| 0 <= j < front.len() && front[j] == before[i];
                assert(accounts[j] == sorted[k]);
            }
        }
        assert forall|k: int| 0 <= k < accounts.len() implies sorted.contains(
            #[trigger] accounts[k],
        ) by {
            if k < front.len() {
                assert(front[k] == accounts[k]);
                assert(before.contains(front[k]));
                let i = choose|i: int| 0 <= i < before.len() && before[i] == front[k];
                assert(sorted.contains(before[i]));
            }
        }
    }
}

/// Accounts that stand in the order of the validator list can be sorted by
/// stake: [`sorted_by_stake`] stands for a sequence that holds them sorted.
pub proof fn lemma_sorted_by_stake_exists(accounts: Seq<StakeAccount>)
    requires
        in_list_order(accounts),
    ensures
        is_sorted_by_stake(accounts, sorted_by_stake(accounts)),
{
    lemma_sorted_by_insertion(accounts);
}

/// The order of a withdrawal holds accounts of eligible validators of the
/// list, the preferred ones first and within each of the two groups the
/// larger stake first.
pub proof fn lemma_withdraw_order(pool: StakePoolConfig, validators: Seq<ValidatorRecord>)
    requires
        validators.len() <= usize::MAX,
    ensures
        preferred_first_then_by_stake(withdraw_order(pool, validators)),
        no_validator_twice(withdraw_order(pool, validators)),
        withdraw_order(pool, validators).len() <= validators.len(),
        forall|k: int|
            0 <= k < withdraw_order(pool, validators).len() ==> {
                let account = #[trigger] withdraw_order(pool, validators)[k];
                &&& account.validator_index < validators.len()
                &&& account == account_of(pool, validators, account.validator_index as int)
                &&& is_eligible(validators[account.validator_index as int])
            },
{
    let preferred = group(pool, validators, true);
    let others = group(pool, validators, false);
    lemma_group_members(pool, validators, true, validators.len() as int);
    lemma_group_members(pool, validators, false, validators.len() as int);
    lemma_sorted_by_stake_exists(preferred);
    lemma_sorted_by_stake_exists(others);
    let first = sorted_by_stake(preferred);
    let second = sorted_by_stake(others);
    let order = withdraw_order(pool, validators);
    assert forall|k: int| 0 <= k < order.len() implies {
        let account = #[trigger] order[k];
        &&& account.validator_index < validators.len()
        &&& account == account_of(pool, validators, account.validator_index as int)
        &&& is_eligible(validators[account.validator_index as int])
        &&& account.is_preferred == (k < first.len())
    } by {
        if k < first.len() {
            assert(order[k] == first[k]);
            assert(preferred.contains(first[k]));
            let j = choose|j: int| 0 <= j < preferred.len() && preferred[j] == first[k];
            assert(preferred[j].is_preferred);
        } else {
            assert(order[k] == second[k - first.len()]);
            assert(others.contains(second[k - first.len()]));
            let j = choose|j: int| 0 <= j < others.len() && others[j] == second[k - first.len()];
            assert(!others[j].is_preferred);
        }
    }
    assert forall|j: int, k: int| 0 <= j < k < order.len() implies {
        &&& order[j].is_preferred || !order[k].is_preferred
        &&& order[j].is_preferred == order[k].is_preferred ==> order[j].lamports
            >= order[k].lamports
        &&& order[j].validator_index != order[k].validator_index
    } by {
        // an account is known by its place in the list, so two of one
        // validator would be one account twice
        if k < first.len() {
            assert(comes_before(first[j], first[k]));
        } else if j >= first.len() {
            assert(comes_before(second[j - first.len()], second[k - first.len()]));
        }
    }
    lemma_groups_within_list(pool, validators, validators.len() as int);
}

proof fn lemma_scaled_up(tokens: int, denominator: int, inverse: int)
    by (nonlinear_arith)
    requires
        0 <= tokens,
        0 < inverse <= denominator,
    ensures
        tokens * denominator / inverse >= tokens,
        tokens * denominator / inverse >= 0,
{
    assert(tokens * denominator >= tokens * inverse);
    assert(tokens * inverse / inverse == tokens);
}

proof fn lemma_quotient_is_natural(a: int, b: int, c: int)
    by (nonlinear_arith)
    requires
        0 <= a,
        0 <= b,
        0 < c,
    ensures
        0 <= a * b / c,
{
}

/// The entries so far followed by those still to come, where there are any.
spec fn after(
    entries: Seq<WithdrawalEntry>,
    rest: Option<Seq<WithdrawalEntry>>,
) -> Option<Seq<WithdrawalEntry>> {
    match rest {
        Some(tail) => Some(entries + tail),
        None => None,
    }
}

proof fn lemma_beyond_any_amount(tokens: int, denominator: int, inverse: int)
    by (nonlinear_arith)
    requires
        0 <= tokens,
        0 < inverse <= denominator <= u64::MAX,
        tokens * denominator > u128::MAX,
    ensures
        tokens * denominator / inverse > u64::MAX,
{
    assert(tokens * denominator >= 0x1_0000_0000_0000_0000 * 0x1_0000_0000_0000_0000);
    assert(0x1_0000_0000_0000_0000 * inverse <= 0x1_0000_0000_0000_0000 * 0x1_0000_0000_0000_0000);
    assert(tokens * denominator / inverse >= (0x1_0000_0000_0000_0000 * inverse) / inverse);
    assert((0x1_0000_0000_0000_0000 * inverse) / inverse == 0x1_0000_0000_0000_0000);
}

/// An account gives between nothing and what is still lacking.
pub proof fn lemma_taken_bounds(pool: StakePoolConfig, lamports: u64, remaining: int)
    requires
        fee_is_at_most_all(pool.stake_withdrawal_fee),
        0 <= remaining,
    ensures
        0 <= taken_from(pool, lamports, remaining) <= remaining,
        withdrawable_pool_tokens(pool, lamports) >= pool_tokens_for_stake(pool, lamports),
        pool_tokens_for_stake(pool, lamports) >= 0,
{
    let fee = pool.stake_withdrawal_fee;
    if pool.pool_token_supply != 0 && pool.total_lamports != 0 {
        lemma_quotient_is_natural(
            lamports as int,
            pool.pool_token_supply as int,
            pool.total_lamports as int,
        );
    }
    if fee.numerator != 0 && fee.numerator != fee.denominator {
        lemma_scaled_up(
            pool_tokens_for_stake(pool, lamports),
            fee.denominator as int,
            fee.denominator - fee.numerator,
        );
    }
}

/// A plan redeems exactly what was asked for, in steps that each redeem
/// something, on accounts of the order, in the order in which they stand there.
pub proof fn lemma_drawn_from(pool: StakePoolConfig, order: Seq<StakeAccount>, remaining: int)
    requires
        fee_is_at_most_all(pool.stake_withdrawal_fee),
        0 <= remaining <= u64::MAX,
    ensures
        drawn_from(pool, order, remaining) matches Some(entries) ==> {
            &&& total_lst_amount(entries) == remaining
            &&& entries.len() <= order.len()
            &&& forall|k: int|
                0 <= k < entries.len() ==> 0 < (#[trigger] entries[k]).lst_amount <= remaining
                    && entries[k].lst_amount <= withdrawable_pool_tokens(
                    pool,
                    entries[k].source.lamports,
                )
            &&& forall|k: int|
                0 <= k < entries.len() ==> order.contains((#[trigger] entries[k]).source)
            &&& preferred_first_then_by_stake(order) ==> preferred_first_then_by_stake(
                sources(entries),
            )
            &&& no_validator_twice(order) ==> no_validator_twice(sources(entries))
        },
    decreases order.len(),
{
    if remaining != 0 && order.len() != 0 {
        let taken = taken_from(pool, order[0].lamports, remaining);
        lemma_taken_bounds(pool, order[0].lamports, remaining);
        let tail = order.skip(1);
        assert forall|k: int| 0 <= k < tail.len() implies order.contains(#[trigger] tail[k]) by {
            assert(order[k + 1] == tail[k]);
        }
        assert(preferred_first_then_by_stake(order) ==> preferred_first_then_by_stake(tail)) by {
            if preferred_first_then_by_stake(order) {
                assert forall|j: int, k: int| 0 <= j < k < tail.len() implies {
                    &&& tail[j].is_preferred || !tail[k].is_preferred
                    &&& tail[j].is_preferred == tail[k].is_preferred ==> tail[j].lamports
                        >= tail[k].lamports
                } by {
                    assert(tail[j] == order[j + 1] && tail[k] == order[k + 1]);
                }
            }
        }
        assert(no_validator_twice(order) ==> no_validator_twice(tail)) by {
            if no_validator_twice(order) {
                assert forall|j: int, k: int|
                    0 <= j < k < tail.len() implies tail[j].validator_index
                    != tail[k].validator_index by {
                    assert(tail[j] == order[j + 1] && tail[k] == order[k + 1]);
                }
            }
        }
        if taken == 0 {
            lemma_drawn_from(pool, tail, remaining);
            if let Some(entries) = drawn_from(pool, tail, remaining) {
                assert forall|k: int| 0 <= k < entries.len() implies order.contains(
                    (#[trigger] entries[k]).source,
                ) by {
                    let j = choose|j: int| 0 <= j < tail.len() && tail[j] == entries[k].source;
                    assert(order[j + 1] == tail[j]);
                }
            }
        } else {
            lemma_drawn_from(pool, tail, remaining - taken);
            if let Some(rest) = drawn_from(pool, tail, remaining - taken) {
                let first = WithdrawalEntry { source: order[0], lst_amount: taken as u64 };
                let entries = seq![first] + rest;
                assert(entries.skip(1) =~= rest);
                assert(entries[0] == first);
                assert forall|k: int| 0 <= k < entries.len() implies order.contains(
                    (#[trigger] entries[k]).source,
                ) by {
                    if k > 0 {
                        assert(entries[k] == rest[k - 1]);
                        let j = choose|j: int| 0 <= j < tail.len() && tail[j] == rest[k - 1].source;
                        assert(order[j + 1] == tail[j]);
                    } else {
                        assert(order[0] == entries[0].source);
                    }
                }
                assert forall|k: int| 0 <= k < entries.len() implies 0 < (
                #[trigger] entries[k]).lst_amount <= remaining && entries[k].lst_amount
                    <= withdrawable_pool_tokens(pool, entries[k].source.lamports) by {
                    if k > 0 {
                        assert(entries[k] == rest[k - 1]);
                    }
                }
                if preferred_first_then_by_stake(order) {
                    let from = sources(entries);
                    assert forall|j: int, k: int| 0 <= j < k < from.len() implies {
                        &&& from[j].is_preferred || !from[k].is_preferred
                        &&& from[j].is_preferred == from[k].is_preferred ==> from[j].lamports
                            >= from[k].lamports
                    } by {
                        assert(from[k] == rest[k - 1].source);
                        assert(sources(rest)[k - 1] == rest[k - 1].source);
                        if j == 0 {
                            let i = choose|i: int|
                                0 <= i < tail.len() && tail[i] == rest[k - 1].source;
                            assert(order[i + 1] == tail[i]);
                            assert(from[0] == order[0]);
                        } else {
                            assert(from[j] == rest[j - 1].source);
                            assert(sources(rest)[j - 1] == rest[j - 1].source);
                        }
                    }
                }
                if no_validator_twice(order) {
                    let from = sources(entries);
                    assert forall|j: int, k: int|
                        0 <= j < k < from.len() implies from[j].validator_index
                        != from[k].validator_index by {
                        assert(from[k] == rest[k - 1].source);
                        assert(sources(rest)[k - 1] == rest[k - 1].source);
                        if j == 0 {
                            let i = choose|i: int|
                                0 <= i < tail.len() && tail[i] == rest[k - 1].source;
                            assert(order[i + 1] == tail[i]);
                            assert(from[0] == order[0]);
                        } else {
                            assert(from[j] == rest[j - 1].source);
                            assert(sources(rest)[j - 1] == rest[j - 1].source);
                        }
                    }
                }
            }
        }
    } else if remaining == 0 {
        assert(sources(Seq::<WithdrawalEntry>::empty()).len() == 0);
    }
}

/// There is no partial plan. While the withdrawal fee of the stake pool is
/// at most 100%, a withdrawal has a plan whose steps redeem exactly the amount
/// asked for, each of them something, or it fails with
/// `InsufficientPoolTokens`.
pub proof fn lemma_plan_redeems_the_amount_or_fails(
    pool: StakePoolConfig,
    validators: Seq<ValidatorRecord>,
    amount_in: u64,
)
    requires
        fee_is_at_most_all(pool.stake_withdrawal_fee),
    ensures
        match planned(pool, withdraw_order(pool, validators), amount_in) {
            Ok(entries) => total_lst_amount(entries) == amount_in && forall|k: int|
                0 <= k < entries.len() ==> (#[trigger] entries[k]).lst_amount > 0,
            Err(e) => e == AllocationError::InsufficientPoolTokens,
        },
{
    lemma_drawn_from(pool, withdraw_order(pool, validators), amount_in as int);
}

/// A plan draws from eligible validators of the list only, from none of them
/// twice, from the preferred ones before the others, and within each of the
/// two groups from the larger stake before the smaller.
pub proof fn lemma_plan_draws_preferred_first_then_by_stake(
    pool: StakePoolConfig,
    validators: Seq<ValidatorRecord>,
    amount_in: u64,
)
    requires
        validators.len() <= usize::MAX,
    ensures
        planned(pool, withdraw_order(pool, validators), amount_in) matches Ok(entries) ==> {
            &&& preferred_first_then_by_stake(sources(entries))
            &&& no_validator_twice(sources(entries))
            &&& entries.len() <= validators.len()
            &&& forall|k: int|
                0 <= k < entries.len() ==> {
                    let source = (#[trigger] entries[k]).source;
                    &&& source.validator_index < validators.len()
                    &&& source == account_of(pool, validators, source.validator_index as int)
                    &&& is_eligible(validators[source.validator_index as int])
                    &&& entries[k].lst_amount <= withdrawable_pool_tokens(pool, source.lamports)
                }
        },
{
    let order = withdraw_order(pool, validators);
    if fee_is_at_most_all(pool.stake_withdrawal_fee) {
        lemma_withdraw_order(pool, validators);
        lemma_drawn_from(pool, order, amount_in as int);
        if let Some(entries) = drawn_from(pool, order, amount_in as int) {
            assert forall|k: int| 0 <= k < entries.len() implies {
                let source = (#[trigger] entries[k]).source;
                &&& source.validator_index < validators.len()
                &&& source == account_of(pool, validators, source.validator_index as int)
                &&& is_eligible(validators[source.validator_index as int])
            } by {
                assert(order.contains(entries[k].source));
                let j = choose|j: int| 0 <= j < order.len() && order[j] == entries[k].source;
                assert(order[j] == entries[k].source);
            }
        }
    }
}

/// How the sort is to put two accounts: the one with the larger stake first.
pub fn by_stake_descending(a: &StakeAccount, b: &StakeAccount) -> (order: Ordering)
    ensures
        a.lamports > b.lamports ==> order == Ordering::Less,
        a.lamports == b.lamports ==> order == Ordering::Equal,
        a.lamports < b.lamports ==> order == Ordering::Greater,
{
    if a.lamports > b.lamports {
        Ordering::Less
    } else if a.lamports == b.lamports {
        Ordering::Equal
    } else {
        Ordering::Greater
    }
}

/// Calls `itertools::Itertools::sorted_by`, which sorts with the stable
/// `slice::sort_by`, with [`by_stake_descending`] as the order. What comes
/// back holds the same accounts, the larger stake first; accounts of equal
/// stake are not reordered, so, the accounts being handed over in the order
/// of the validator list, they stay in that order.
#[verifier::external_body]
fn sorted_by_stake_descending(accounts: Vec<StakeAccount>) -> (sorted: Vec<StakeAccount>)
    requires
        in_list_order(accounts@),
    ensures
        is_sorted_by_stake(accounts@, sorted@),
{
    accounts.into_iter().sorted_by(|a, b| by_stake_descending(a, b)).collect()
}

/// The accounts of the eligible validators that are preferred, or that are
/// not, in the order of the validator list.
pub fn accounts_of_group(
    stake_pool_state: &StakePoolConfig,
    stake_pool_validator_list: &Vec<ValidatorRecord>,
    preferred: bool,
) -> (accounts: Vec<StakeAccount>)
    ensures
        accounts@ == group(*stake_pool_state, stake_pool_validator_list@, preferred),
{
    let mut accounts: Vec<StakeAccount> = Vec::new();
    let mut i: usize = 0;
    while i < stake_pool_validator_list.len()
        invariant
            i <= stake_pool_validator_list.len(),
            accounts@ == group_upto(
                *stake_pool_state,
                stake_pool_validator_list@,
                preferred,
                i as int,
            ),
        decreases stake_pool_validator_list.len() - i,
    {
        let validator = stake_pool_validator_list[i];
        let active = match validator.status {
            StakeStatus::Active => true,
            _ => false,
        };
        let is_preferred = match stake_pool_state.preferred_withdraw_validator {
            Some(preferred_validator) => preferred_validator.same_as(&validator.identity),
            None => false,
        };
        if active && validator.active_stake != 0 && is_preferred == preferred {
            accounts.push(
                StakeAccount {
                    validator_index: i,
                    identity: validator.identity,
                    is_preferred,
                    lamports: validator.active_stake,
                },
            );
        }
        i += 1;
    }
    accounts
}

/// The accounts that a withdrawal may draw from, in the order in which it
/// goes through them: the preferred ones by stake, then the others by stake.
pub fn accounts_in_withdraw_order(
    stake_pool_state: &StakePoolConfig,
    stake_pool_validator_list: &Vec<ValidatorRecord>,
) -> (order: Vec<StakeAccount>)
    ensures
        order@ == withdraw_order(*stake_pool_state, stake_pool_validator_list@),
        preferred_first_then_by_stake(order@),
        forall|k: int|
            0 <= k < order.len() ==> {
                let account = #[trigger] order[k];
                &&& account.validator_index < stake_pool_validator_list.len()
                &&& account == account_of(
                    *stake_pool_state,
                    stake_pool_validator_list@,
                    account.validator_index as int,
                )
                &&& is_eligible(stake_pool_validator_list[account.validator_index as int])
            },
{
    let ghost pool = *stake_pool_state;
    let ghost validators = stake_pool_validator_list@;
    let preferred = accounts_of_group(stake_pool_state, stake_pool_validator_list, true);
    let others = accounts_of_group(stake_pool_state, stake_pool_validator_list, false);
    let count: usize = stake_pool_validator_list.len();
    proof {
        assert(validators.len() == count);
        lemma_group_members(pool, validators, true, validators.len() as int);
        lemma_group_members(pool, validators, false, validators.len() as int);
    }
    let mut order = sorted_by_stake_descending(preferred);
    let mut rest = sorted_by_stake_descending(others);
    let ghost first = order@;
    let ghost second = rest@;
    proof {
        lemma_sorted_by_stake_is(group(pool, validators, true), first);
        lemma_sorted_by_stake_is(group(pool, validators, false), second);
    }
    order.append(&mut rest);
    proof {
        assert(order@ == first + second);
        lemma_withdraw_order(pool, validators);
    }
    order
}

/// The pool tokens that a withdrawal which still lacks `remaining` redeems on
/// an account that holds `lamports`: what can be redeemed there, or
/// `remaining` if that is less.
///
/// `MathUnderflow` where the withdrawal fee of the stake pool is more than
/// 100%.
pub fn amount_taken_from(stake_pool_state: &StakePoolConfig, lamports: u64, remaining: u64) -> (r:
    Result<u64, AllocationError>)
    ensures
        fee_is_at_most_all(stake_pool_state.stake_withdrawal_fee) ==> r == Ok::<
            u64,
            AllocationError,
        >(taken_from(*stake_pool_state, lamports, remaining as int) as u64),
        !fee_is_at_most_all(stake_pool_state.stake_withdrawal_fee) ==> r == Err::<
            u64,
            AllocationError,
        >(AllocationError::MathUnderflow),
        r matches Ok(taken) ==> taken == taken_from(*stake_pool_state, lamports, remaining as int),
{
    let fee = stake_pool_state.stake_withdrawal_fee;
    let inverse: u64 = match fee.denominator.checked_sub(fee.numerator) {
        Some(inverse) => inverse,
        None => {
            return Err(AllocationError::MathUnderflow);
        },
    };
    proof {
        lemma_taken_bounds(*stake_pool_state, lamports, remaining as int);
        assert(lamports * stake_pool_state.pool_token_supply <= u64::MAX * u64::MAX)
            by (nonlinear_arith);
    }
    let pool_tokens: u128 = if stake_pool_state.pool_token_supply == 0
        || stake_pool_state.total_lamports == 0 {
        lamports as u128
    } else {
        (lamports as u128) * (stake_pool_state.pool_token_supply as u128) / (
        stake_pool_state.total_lamports as u128)
    };
    let available: u128 = if fee.numerator == 0 || inverse == 0 {
        pool_tokens
    } else {
        match pool_tokens.checked_mul(fee.denominator as u128) {
            Some(scaled) => scaled / (inverse as u128),
            None => {
                proof {
                    lemma_beyond_any_amount(
                        pool_tokens as int,
                        fee.denominator as int,
                        inverse as int,
                    );
                }
                return Ok(remaining);
            },
        }
    };
    if available < remaining as u128 {
        Ok(available as u64)
    } else {
        Ok(remaining)
    }
}

/// The plan that draws `amount_in` pool tokens from the accounts, each in
/// turn giving what it can.
///
/// `MathUnderflow` where the withdrawal fee of the stake pool is more than
/// 100%, whatever the amount and the accounts; else `InsufficientPoolTokens`
/// where the accounts together give less than `amount_in`.
pub fn plan_withdrawals(
    stake_pool_state: &StakePoolConfig,
    order: &Vec<StakeAccount>,
    amount_in: u64,
) -> (r: Result<WithdrawalPlan, AllocationError>)
    ensures
        is_plan(r, planned(*stake_pool_state, order@, amount_in)),
{
    let fee = stake_pool_state.stake_withdrawal_fee;
    if fee.numerator > fee.denominator {
        return Err(AllocationError::MathUnderflow);
    }
    let ghost pool = *stake_pool_state;
    let mut entries: Vec<WithdrawalEntry> = Vec::new();
    let mut remaining_amount: u64 = amount_in;
    let mut i: usize = 0;
    proof {
        assert(order@.skip(0) =~= order@);
        if let Some(all) = drawn_from(pool, order@, amount_in as int) {
            assert(entries@ + all =~= all);
        }
    }
    while i < order.len() && remaining_amount > 0
        invariant
            i <= order.len(),
            pool == *stake_pool_state,
            fee_is_at_most_all(pool.stake_withdrawal_fee),
            drawn_from(pool, order@, amount_in as int) == after(
                entries@,
                drawn_from(pool, order@.skip(i as int), remaining_amount as int),
            ),
        decreases order.len() - i,
    {
        let account = order[i];
        let pool_amount = match amount_taken_from(
            stake_pool_state,
            account.lamports,
            remaining_amount,
        ) {
            Ok(taken) => taken,
            Err(e) => {
                return Err(e);
            },
        };
        proof {
            lemma_taken_bounds(pool, account.lamports, remaining_amount as int);
            let here = order@.skip(i as int);
            assert(here[0] == order@[i as int]);
            assert(here.skip(1) =~= order@.skip(i + 1));
            if pool_amount != 0 {
                let entry = WithdrawalEntry { source: account, lst_amount: pool_amount };
                let rest = drawn_from(pool, order@.skip(i + 1), remaining_amount - pool_amount);
                if let Some(tail) = rest {
                    assert(entries@ + (seq![entry] + tail) =~= entries@.push(entry) + tail);
                }
            }
        }
        if pool_amount != 0 {
            entries.push(WithdrawalEntry { source: account, lst_amount: pool_amount });
            remaining_amount -= pool_amount;
        }
        i += 1;
    }
    if remaining_amount > 0 {
        assert(order@.skip(i as int).len() == 0);
        Err(AllocationError::InsufficientPoolTokens)
    } else {
        assert(entries@ + Seq::<WithdrawalEntry>::empty() =~= entries@);
        Ok(WithdrawalPlan { entries })
    }
}

/// The plan of a withdrawal of `amount_in` pool tokens from the stake pool.
///
/// The plan is the one that [`planned`] gives for the validators in
/// [`withdraw_order`]. It redeems `amount_in` exactly, each step something, on
/// eligible validators, on none of them twice, the preferred ones first and
/// within each group the larger stake first. There is no plan that redeems less: where the
/// eligible validators together give less than `amount_in`, the result is
/// `InsufficientPoolTokens`. Where the withdrawal fee of the stake pool is
/// more than 100%, it is `MathUnderflow`, whatever the amount and the
/// validators.
pub fn allocate(
    stake_pool_state: &StakePoolConfig,
    stake_pool_validator_list: &Vec<ValidatorRecord>,
    amount_in: u64,
) -> (r: Result<WithdrawalPlan, AllocationError>)
    ensures
        is_plan(
            r,
            planned(
                *stake_pool_state,
                withdraw_order(*stake_pool_state, stake_pool_validator_list@),
                amount_in,
            ),
        ),
        r matches Ok(plan) ==> is_whole_and_in_order(
            plan@,
            *stake_pool_state,
            stake_pool_validator_list@,
            amount_in,
        ),
        r matches Err(e) ==> e == AllocationError::InsufficientPoolTokens || (e
            == AllocationError::MathUnderflow && !fee_is_at_most_all(
            stake_pool_state.stake_withdrawal_fee,
        )),
{
    let order = accounts_in_withdraw_order(stake_pool_state, stake_pool_validator_list);
    let count: usize = stake_pool_validator_list.len();
    proof {
        let validators = stake_pool_validator_list@;
        assert(validators.len() == count);
        lemma_plan_draws_preferred_first_then_by_stake(*stake_pool_state, validators, amount_in);
        if fee_is_at_most_all(stake_pool_state.stake_withdrawal_fee) {
            lemma_plan_redeems_the_amount_or_fails(*stake_pool_state, validators, amount_in);
        }
    }
    plan_withdrawals(stake_pool_state, &order, amount_in)
}

} // verus!
