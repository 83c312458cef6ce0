//! Account balances, and the step that pays an epoch's rewards.
use vstd::prelude::*;

use crate::bytes::{same_hash, ValidatorId};
use crate::epoch::{staked_total, StakingValidator};
use crate::rewards::{
    all_credits, credit_total, credited_balance, payable, plan_epoch_rewards, reward_receipt,
    rewardable, rewards_conserve_supply, sound_staking, Credit, Delegation,
};
use crate::types::ExecutionReceipt;

verus! {

/// What an account holds.
#[derive(Clone, Copy, Debug, PartialEq, Eq)]
pub struct Balance {
    pub account: ValidatorId,
    pub amount: u128,
}

/// What `account` holds, by the first entry for it. An account that is not listed
/// holds nothing.
pub open spec fn held_by(balances: Seq<Balance>, account: ValidatorId) -> u128
    decreases balances.len(),
{
    if balances.len() == 0 {
        0
    } else if balances[0].account == account {
        balances[0].amount
    } else {
        held_by(balances.drop_first(), account)
    }
}

/// The sum, or the largest number where it is larger.
pub open spec fn capped_sum(a: u128, b: u128) -> u128 {
    if a + b > u128::MAX {
        u128::MAX
    } else {
        (a + b) as u128
    }
}

/// The difference, or zero where it is less.
pub open spec fn floored_difference(a: u128, b: u128) -> u128 {
    if a < b {
        0
    } else {
        (a - b) as u128
    }
}

/// The balances with `amount` more for `account`. An account that is not listed gets
/// nothing.
pub open spec fn credited(balances: Seq<Balance>, account: ValidatorId, amount: u128) -> Seq<
    Balance,
> {
    Seq::new(
        balances.len(),
        |i: int|
            if balances[i].account == account {
                Balance { amount: capped_sum(balances[i].amount, amount), ..balances[i] }
            } else {
                balances[i]
            },
    )
}

/// The balances with `amount` less for `account`.
pub open spec fn debited(balances: Seq<Balance>, account: ValidatorId, amount: u128) -> Seq<
    Balance,
> {
    Seq::new(
        balances.len(),
        |i: int|
            if balances[i].account == account {
                Balance { amount: floored_difference(balances[i].amount, amount), ..balances[i] }
            } else {
                balances[i]
            },
    )
}

/// The balances with each of `credits` paid, in order.
pub open spec fn all_credited(balances: Seq<Balance>, credits: Seq<Credit>) -> Seq<Balance>
    decreases credits.len(),
{
    if credits.len() == 0 {
        balances
    } else {
        let rest = all_credited(balances, credits.drop_last());
        credited(rest, credits.last().account, credits.last().amount)
    }
}

/// The credits of an epoch, out of what the pool holds.
pub open spec fn epoch_credits(
    pool: ValidatorId,
    balances: Seq<Balance>,
    staking: Seq<StakingValidator>,
    delegations: Seq<Delegation>,
) -> Seq<Credit> {
    if staked_total(staking) == 0 || held_by(balances, pool) == 0 {
        Seq::empty()
    } else {
        all_credits(
            payable(held_by(balances, pool)),
            staked_total(staking) as u128,
            staking,
            delegations,
        )
    }
}

/// The balances after an epoch's rewards were taken out of the pool and paid. Nothing
/// moves where nobody stakes or the pool is empty.
pub open spec fn rewarded(
    pool: ValidatorId,
    balances: Seq<Balance>,
    staking: Seq<StakingValidator>,
    delegations: Seq<Delegation>,
) -> Seq<Balance> {
    if staked_total(staking) == 0 || held_by(balances, pool) == 0 {
        balances
    } else {
        all_credited(
            debited(balances, pool, payable(held_by(balances, pool))),
            epoch_credits(pool, balances, staking, delegations),
        )
    }
}

/// The sum of all balances.
pub open spec fn coins(balances: Seq<Balance>) -> int
    decreases balances.len(),
{
    if balances.len() == 0 {
        0
    } else {
        coins(balances.drop_last()) + balances.last().amount
    }
}

/// No account is listed twice.
pub open spec fn accounts_distinct(balances: Seq<Balance>) -> bool {
    forall|i: int, j: int|
        0 <= i < j < balances.len() ==> (#[trigger] balances[i]).account != (
        #[trigger] balances[j]).account
}

/// What `account` holds.
pub fn balance_of(balances: &Vec<Balance>, account: &ValidatorId) -> (amount: u128)
    ensures
        amount == held_by(balances@, *account),
{
    let mut i: usize = 0;
    assert(balances@.skip(0) =~= balances@);
    while i < balances.len()
        invariant
            i <= balances@.len(),
            held_by(balances@, *account) == held_by(balances@.skip(i as int), *account),
        decreases balances@.len() - i,
    {
        let ghost rest = balances@.skip(i as int);
        assert(rest[0] == balances@[i as int]);
        if same_hash(&balances[i].account, account) {
            return balances[i].amount;
        }
        assert(rest.drop_first() =~= balances@.skip(i + 1));
        i += 1;
    }
    0
}

/// Adds `amount` to the balance of `account`, where it is listed.
pub fn credit_account(balances: &mut Vec<Balance>, account: &ValidatorId, amount: u128)
    ensures
        final(balances)@ == credited(old(balances)@, *account, amount),
{
    let ghost before = balances@;
    let ghost after = credited(before, *account, amount);
    let mut i: usize = 0;
    while i < balances.len()
        invariant
            i <= balances@.len(),
            balances@.len() == before.len(),
            after == credited(before, *account, amount),
            forall|j: int| 0 <= j < i ==> #[trigger] balances@[j] == after[j],
            forall|j: int| i <= j < before.len() ==> #[trigger] balances@[j] == before[j],
        decreases balances@.len() - i,
    {
        let held = balances[i];
        assert(held == before[i as int]);
        if same_hash(&held.account, account) {
            let entry = Balance {
                account: held.account,
                amount: credited_balance(held.amount, amount),
            };
            balances.set(i, entry);
        }
        i += 1;
    }
    assert(balances@ =~= after);
}

/// Takes `amount` off the balance of `account`, where it is listed.
pub fn debit_account(balances: &mut Vec<Balance>, account: &ValidatorId, amount: u128)
    ensures
        final(balances)@ == debited(old(balances)@, *account, amount),
{
    let ghost before = balances@;
    let ghost after = debited(before, *account, amount);
    let mut i: usize = 0;
    while i < balances.len()
        invariant
            i <= balances@.len(),
            balances@.len() == before.len(),
            after == debited(before, *account, amount),
            forall|j: int| 0 <= j < i ==> #[trigger] balances@[j] == after[j],
            forall|j: int| i <= j < before.len() ==> #[trigger] balances@[j] == before[j],
        decreases balances@.len() - i,
    {
        let held = balances[i];
        assert(held == before[i as int]);
        if same_hash(&held.account, account) {
            let entry = Balance {
                account: held.account,
                amount: held.amount.saturating_sub(amount),
            };
            balances.set(i, entry);
        }
        i += 1;
    }
    assert(balances@ =~= after);
}

/// Pays an epoch's rewards: takes them out of the pool and credits the validators and
/// their delegators. Returns the receipt that notes the credits, where there are any.
pub fn distribute_epoch_rewards(
    pool: &ValidatorId,
    balances: &mut Vec<Balance>,
    staking: &Vec<StakingValidator>,
    delegations: &Vec<Delegation>,
) -> (receipt: Option<ExecutionReceipt>)
    requires
        rewardable(held_by(old(balances)@, *pool), staking@, delegations@),
    ensures
        final(balances)@ == rewarded(*pool, old(balances)@, staking@, delegations@),
        ({
            let credits = epoch_credits(*pool, old(balances)@, staking@, delegations@);
            match receipt {
                Some(receipt) => credits.len() > 0 && receipt@ == reward_receipt(*pool, credits),
                None => credits.len() == 0,
            }
        }),
{
    let ghost before = balances@;
    let pool_balance = balance_of(balances, pool);
    let plan = match plan_epoch_rewards(pool, pool_balance, staking, delegations) {
        Some(plan) => plan,
        None => {
            return None;
        },
    };
    debit_account(balances, pool, plan.deducted);
    let ghost taken = balances@;
    let credits = plan.credits;
    let mut i: usize = 0;
    assert(credits@.take(0).len() == 0);
    while i < credits.len()
        invariant
            i <= credits@.len(),
            balances@ == all_credited(taken, credits@.take(i as int)),
        decreases credits@.len() - i,
    {
        proof {
            let next = credits@.take(i + 1);
            assert(next.drop_last() =~= credits@.take(i as int));
            assert(next.last() == credits@[i as int]);
        }
        let credit = credits[i];
        credit_account(balances, &credit.account, credit.amount);
        i += 1;
    }
    assert(credits@.take(i as int) =~= credits@);
    plan.receipt
}

proof fn credit_adds_at_most(balances: Seq<Balance>, account: ValidatorId, amount: u128)
    requires
        accounts_distinct(balances),
    ensures
        coins(credited(balances, account, amount)) <= coins(balances) + amount,
        accounts_distinct(credited(balances, account, amount)),
        (forall|i: int| 0 <= i < balances.len() ==> (#[trigger] balances[i]).account != account)
            ==> credited(balances, account, amount) == balances,
    decreases balances.len(),
{
    let after = credited(balances, account, amount);
    if balances.len() > 0 {
        let shorter = balances.drop_last();
        let last = balances[balances.len() - 1];
        assert(after.drop_last() =~= credited(shorter, account, amount));
        assert forall|i: int, j: int| 0 <= i < j < shorter.len() implies (
        #[trigger] shorter[i]).account != (#[trigger] shorter[j]).account by {
            assert(balances[i].account != balances[j].account);
        }
        credit_adds_at_most(shorter, account, amount);
        if last.account == account {
            assert forall|i: int| 0 <= i < shorter.len() implies (#[trigger] shorter[i]).account
                != account by {
                assert(balances[i].account != balances[balances.len() - 1].account);
            }
        }
    }
    assert forall|i: int, j: int| 0 <= i < j < after.len() implies (#[trigger] after[i]).account
        != (#[trigger] after[j]).account by {
        assert(balances[i].account != balances[j].account);
    }
    if forall|i: int| 0 <= i < balances.len() ==> (#[trigger] balances[i]).account != account {
        assert(after =~= balances);
    }
}

proof fn credits_add_at_most(balances: Seq<Balance>, credits: Seq<Credit>)
    requires
        accounts_distinct(balances),
    ensures
        coins(all_credited(balances, credits)) <= coins(balances) + credit_total(credits),
        accounts_distinct(all_credited(balances, credits)),
    decreases credits.len(),
{
    if credits.len() > 0 {
        credits_add_at_most(balances, credits.drop_last());
        credit_adds_at_most(
            all_credited(balances, credits.drop_last()),
            credits.last().account,
            credits.last().amount,
        );
    }
}

proof fn debit_takes(balances: Seq<Balance>, account: ValidatorId, amount: u128)
    requires
        amount <= held_by(balances, account),
    ensures
        coins(debited(balances, account, amount)) <= coins(balances) - amount,
{
    if amount > 0 {
        listed(balances, account);
        let at = choose|at: int|
            0 <= at < balances.len() && (#[trigger] balances[at]).account == account
                && balances[at].amount == held_by(balances, account);
        debit_takes_at(balances, account, amount, balances.len() as int, at);
    } else {
        debit_takes_at(balances, account, amount, balances.len() as int, -1);
    }
    assert(debited(balances, account, amount).take(balances.len() as int) =~= debited(
        balances,
        account,
        amount,
    ));
    assert(balances.take(balances.len() as int) =~= balances);
}

proof fn listed(balances: Seq<Balance>, account: ValidatorId)
    requires
        held_by(balances, account) > 0,
    ensures
        exists|at: int|
            0 <= at < balances.len() && (#[trigger] balances[at]).account == account
                && balances[at].amount == held_by(balances, account),
    decreases balances.len(),
{
    if balances[0].account != account {
        let rest = balances.drop_first();
        listed(rest, account);
        let at = choose|at: int|
            0 <= at < rest.len() && (#[trigger] rest[at]).account == account && rest[at].amount
                == held_by(rest, account);
        assert(balances[at + 1] == rest[at]);
    }
}

proof fn debit_takes_at(
    balances: Seq<Balance>,
    account: ValidatorId,
    amount: u128,
    n: int,
    at: int,
)
    requires
        0 <= n <= balances.len(),
        0 <= at < balances.len() ==> balances[at].account == account && balances[at].amount
            >= amount,
    ensures
        coins(debited(balances, account, amount).take(n)) <= coins(balances.take(n)) - (if 0 <= at
            < n {
            amount as int
        } else {
            0
        }),
    decreases n,
{
    if n > 0 {
        debit_takes_at(balances, account, amount, n - 1, at);
        let after = debited(balances, account, amount);
        assert(after.take(n).drop_last() =~= after.take(n - 1));
        assert(balances.take(n).drop_last() =~= balances.take(n - 1));
    }
}

/// Paying rewards creates no coins: the sum of all balances does not grow.
pub proof fn rewards_create_no_coins(
    pool: ValidatorId,
    balances: Seq<Balance>,
    staking: Seq<StakingValidator>,
    delegations: Seq<Delegation>,
)
    requires
        accounts_distinct(balances),
        rewardable(held_by(balances, pool), staking, delegations),
        sound_staking(staking, delegations),
    ensures
        coins(rewarded(pool, balances, staking, delegations)) <= coins(balances),
{
    let held = held_by(balances, pool);
    if staked_total(staking) != 0 && held != 0 {
        let reward = payable(held);
        let taken = debited(balances, pool, reward);
        rewards_conserve_supply(held, staking, delegations);
        debit_takes(balances, pool, reward);
        assert forall|i: int, j: int| 0 <= i < j < taken.len() implies (#[trigger] taken[i]).account
            != (#[trigger] taken[j]).account by {
            assert(balances[i].account != balances[j].account);
        }
        credits_add_at_most(taken, epoch_credits(pool, balances, staking, delegations));
    }
}

} // verus!
