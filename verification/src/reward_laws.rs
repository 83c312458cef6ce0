//! Who is paid what at the end of an epoch.
use vstd::arithmetic::div_mod::*;
use vstd::arithmetic::mul::*;
use vstd::bytes::*;
use vstd::prelude::*;
use vstd::string::*;

use crate::bytes::ValidatorId;
use crate::epoch::{staked_total, StakingValidator};
use crate::ledger::{accounts_distinct, all_credited, held_by, rewarded, Balance};
use crate::rewards::{
    all_credits, delegator_credits, payable, reward_receipt, validator_credits, Credit, Delegation,
};

verus! {

/// An epoch pays a fixed reward, or what the pool still holds.
pub proof fn epoch_reward_is_fixed(pool_balance: u128)
    ensures
        payable(pool_balance) <= pool_balance,
        payable(pool_balance) <= 31_700_000_000,
        payable(pool_balance) == pool_balance || payable(pool_balance) == 31_700_000_000,
{
}

/// The stake that shares are measured by is that of the active validators.
pub proof fn only_active_stake_shares(first: Seq<StakingValidator>, v: StakingValidator)
    ensures
        staked_total(Seq::empty()) == 0,
        staked_total(first.push(v)) == staked_total(first) + if v.is_active {
            v.total_stake as int
        } else {
            0
        },
{
    assert(first.push(v).drop_last() =~= first);
}

/// A validator's share of the reward is to the reward as its stake to all stake, rounded
/// down. Of the share, what its delegators' stake earned goes to them but for its
/// commission, a fraction of ten thousandths; the rest is its own. A share of nothing is
/// credited to nobody.
pub proof fn reward_is_split_by_stake(
    reward: u128,
    total: u128,
    v: StakingValidator,
    delegations: Seq<Delegation>,
)
    requires
        0 < total,
        v.total_stake <= total,
        v.total_delegated <= v.total_stake,
        v.commission_rate_bps <= 10_000,
    ensures
        ({
            let share = (reward * v.total_stake) / (total as int);
            let part = if v.total_delegated > 0 {
                (share * v.total_delegated) / (v.total_stake as int)
            } else {
                0
            };
            let fee = (part * v.commission_rate_bps) / 10_000;
            let net = part - fee;
            let credits = validator_credits(reward, total, v, delegations);
            &&& share * total <= reward * v.total_stake < (share + 1) * total
            &&& 0 <= fee <= part <= share <= reward
            &&& share == 0 <==> credits.len() == 0
            &&& share > 0 ==> {
                &&& credits[0].account == v.id
                &&& credits[0].amount == share - net
                &&& !credits[0].delegated
                &&& credits.drop_first() == if net > 0 {
                    delegations.filter(
                        |d: Delegation|
                            d.validator == v.id && (net * d.amount) / (v.total_delegated as int)
                                > 0,
                    ).map_values(
                        |d: Delegation|
                            Credit {
                                account: d.delegator,
                                amount: ((net * d.amount) / (v.total_delegated as int)) as u128,
                                delegated: true,
                            },
                    )
                } else {
                    Seq::empty()
                }
            }
        }),
{
    let share = (reward * v.total_stake) / (total as int);
    let part = if v.total_delegated > 0 {
        (share * v.total_delegated) / (v.total_stake as int)
    } else {
        0
    };
    let fee = (part * v.commission_rate_bps) / 10_000;
    let product = reward * v.total_stake;
    lemma_fundamental_div_mod(product, total as int);
    lemma_mod_bound(product, total as int);
    assert(share * total == total * share) by (nonlinear_arith);
    assert((share + 1) * total == total * share + total) by (nonlinear_arith);
    fraction_within(reward as int, v.total_stake as int, total as int);
    if v.total_delegated > 0 {
        fraction_within(share, v.total_delegated as int, v.total_stake as int);
    }
    fraction_within(part, v.commission_rate_bps as int, 10_000);
    delegators_in_order(part - fee, v, delegations);
    let credits = validator_credits(reward, total, v, delegations);
    if share > 0 {
        let rest = if part - fee > 0 {
            delegator_credits(part - fee, v, delegations)
        } else {
            Seq::empty()
        };
        assert(credits.drop_first() =~= rest);
    }
}

/// A part of an amount by a fraction of at most one is at most the amount.
proof fn fraction_within(amount: int, a: int, b: int)
    requires
        0 <= amount,
        0 <= a <= b,
        0 < b,
    ensures
        0 <= (amount * a) / b <= amount,
{
    assert(0 <= amount * a <= b * amount) by (nonlinear_arith)
        requires
            0 <= amount,
            0 <= a <= b,
    ;
    lemma_div_is_ordered(0, amount * a, b);
    lemma_div_is_ordered(amount * a, b * amount, b);
    lemma_basic_div(0, b);
    lemma_div_multiples_vanish(amount, b);
}

proof fn delegators_in_order(net: int, v: StakingValidator, delegations: Seq<Delegation>)
    ensures
        delegator_credits(net, v, delegations) == delegations.filter(
            |d: Delegation|
                d.validator == v.id && (net * d.amount) / (v.total_delegated as int) > 0,
        ).map_values(
            |d: Delegation|
                Credit {
                    account: d.delegator,
                    amount: ((net * d.amount) / (v.total_delegated as int)) as u128,
                    delegated: true,
                },
        ),
    decreases delegations.len(),
{
    reveal(Seq::filter);
    let p = |d: Delegation|
        d.validator == v.id && (net * d.amount) / (v.total_delegated as int) > 0;
    let f = |d: Delegation|
        Credit {
            account: d.delegator,
            amount: ((net * d.amount) / (v.total_delegated as int)) as u128,
            delegated: true,
        };
    if delegations.len() > 0 {
        delegators_in_order(net, v, delegations.drop_last());
        let rest = delegations.drop_last().filter(p);
        if p(delegations.last()) {
            assert(rest.push(delegations.last()).map_values(f) =~= rest.map_values(f).push(
                f(delegations.last()),
            ));
        }
    } else {
        assert(delegations.filter(p).map_values(f) =~= Seq::<Credit>::empty());
    }
}

/// Who stakes at least as much gets at least as large a share.
pub proof fn more_stake_earns_no_less(
    reward: u128,
    total: u128,
    a: StakingValidator,
    b: StakingValidator,
)
    requires
        0 < total,
        a.total_stake <= b.total_stake,
    ensures
        crate::rewards::share_of(reward, a, total) <= crate::rewards::share_of(reward, b, total),
{
    assert(reward * a.total_stake <= reward * b.total_stake) by (nonlinear_arith)
        requires
            a.total_stake <= b.total_stake,
    ;
    lemma_div_is_ordered(reward * a.total_stake, reward * b.total_stake, total as int);
}

/// The validators are paid one after the other, each for itself: those that are not
/// active get nothing, whatever they stake.
pub proof fn each_validator_is_paid_for_itself(
    reward: u128,
    total: u128,
    first: Seq<StakingValidator>,
    v: StakingValidator,
    rest: Seq<StakingValidator>,
    delegations: Seq<Delegation>,
)
    ensures
        all_credits(reward, total, Seq::empty(), delegations).len() == 0,
        all_credits(reward, total, first.push(v) + rest, delegations) == all_credits(
            reward,
            total,
            first,
            delegations,
        ) + (if v.is_active {
            validator_credits(reward, total, v, delegations)
        } else {
            Seq::empty()
        }) + all_credits(reward, total, rest, delegations),
    decreases rest.len(),
{
    let whole = first.push(v) + rest;
    if rest.len() == 0 {
        assert(whole =~= first.push(v));
        assert(whole.drop_last() =~= first);
        assert(all_credits(reward, total, rest, delegations) =~= Seq::<Credit>::empty());
    } else {
        each_validator_is_paid_for_itself(reward, total, first, v, rest.drop_last(), delegations);
        assert(whole.drop_last() =~= first.push(v) + rest.drop_last());
        assert(whole.last() == rest.last());
    }
}

/// What `credits` hold for `account`.
pub open spec fn due_to(credits: Seq<Credit>, account: ValidatorId) -> int
    decreases credits.len(),
{
    if credits.len() == 0 {
        0
    } else {
        due_to(credits.drop_last(), account) + if credits.last().account == account {
            credits.last().amount as int
        } else {
            0
        }
    }
}

/// Every account is paid all its credits, and nothing else changes, as far as the
/// balances can hold them.
pub proof fn credits_reach_their_accounts(balances: Seq<Balance>, credits: Seq<Credit>, i: int)
    requires
        0 <= i < balances.len(),
        balances[i].amount + due_to(credits, balances[i].account) <= u128::MAX,
    ensures
        all_credited(balances, credits).len() == balances.len(),
        all_credited(balances, credits)[i].account == balances[i].account,
        all_credited(balances, credits)[i].amount == balances[i].amount + due_to(
            credits,
            balances[i].account,
        ),
    decreases credits.len(),
{
    if credits.len() > 0 {
        credits_reach_their_accounts(balances, credits.drop_last(), i);
    }
}

/// An epoch moves the reward from the pool to those whom it is credited to: each
/// account ends with what it had, less the reward where it is the pool, and what is due
/// to it. Nothing moves where nobody stakes or the pool is empty.
pub proof fn rewards_move_balances(
    pool: ValidatorId,
    balances: Seq<Balance>,
    staking: Seq<StakingValidator>,
    delegations: Seq<Delegation>,
    i: int,
)
    requires
        accounts_distinct(balances),
        0 <= i < balances.len(),
        staked_total(staking) <= u128::MAX,
        balances[i].amount + due_to(
            all_credits(
                payable(held_by(balances, pool)),
                staked_total(staking) as u128,
                staking,
                delegations,
            ),
            balances[i].account,
        ) <= u128::MAX,
    ensures
        ({
            let after = rewarded(pool, balances, staking, delegations);
            let reward = payable(held_by(balances, pool));
            let due = due_to(
                all_credits(reward, staked_total(staking) as u128, staking, delegations),
                balances[i].account,
            );
            let idle = staked_total(staking) == 0 || held_by(balances, pool) == 0;
            &&& after.len() == balances.len()
            &&& after[i].account == balances[i].account
            &&& idle ==> after == balances
            &&& !idle && balances[i].account == pool ==> after[i].amount == balances[i].amount
                - reward + due
            &&& !idle && balances[i].account != pool ==> after[i].amount == balances[i].amount
                + due
        }),
{
    let held = held_by(balances, pool);
    if staked_total(staking) != 0 && held != 0 {
        let reward = payable(held);
        let credits = all_credits(reward, staked_total(staking) as u128, staking, delegations);
        let taken = crate::ledger::debited(balances, pool, reward);
        if balances[i].account == pool {
            held_is_listed(balances, i);
        }
        credits_reach_their_accounts(taken, credits, i);
    }
}

/// An account that is listed once holds what it is listed with.
pub proof fn held_is_listed(balances: Seq<Balance>, i: int)
    requires
        accounts_distinct(balances),
        0 <= i < balances.len(),
    ensures
        held_by(balances, balances[i].account) == balances[i].amount,
    decreases balances.len(),
{
    if i > 0 {
        let rest = balances.drop_first();
        assert(balances[0].account != balances[i].account);
        assert forall|a: int, b: int| 0 <= a < b < rest.len() implies (#[trigger] rest[a]).account
            != (#[trigger] rest[b]).account by {
            assert(balances[a + 1].account != balances[b + 1].account);
        }
        held_is_listed(rest, i - 1);
        assert(rest[i - 1] == balances[i]);
    }
}

/// The receipt of an epoch notes each credit in order: with the account and the amount,
/// and whether it was earned by staking or by delegating.
pub proof fn receipt_notes_each_credit(pool: ValidatorId, credits: Seq<Credit>)
    ensures
        ({
            let receipt = reward_receipt(pool, credits);
            &&& receipt.sender == pool
            &&& receipt.nonce == 0
            &&& receipt.success
            &&& receipt.gas_used == 0
            &&& receipt.error is None
            &&& receipt.events.len() == credits.len()
            &&& forall|i: int|
                0 <= i < credits.len() ==> {
                    let event = #[trigger] receipt.events[i];
                    &&& event.emitter == pool
                    &&& event.data == credits[i].account@ + spec_u128_to_le_bytes(credits[i].amount)
                    &&& credits[i].delegated ==> event.topic == "delegator_reward".spec_bytes()
                    &&& !credits[i].delegated ==> event.topic == "epoch_reward".spec_bytes()
                }
        }),
{
}

} // verus!
