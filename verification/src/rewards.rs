//! The rewards of an epoch, paid out of the staking pool.
use vstd::arithmetic::div_mod::*;
use vstd::arithmetic::mul::*;
use vstd::bytes::*;
use vstd::prelude::*;
use vstd::string::*;

use crate::bytes::{append_bytes, copy_bytes, same_hash, ValidatorId};
use crate::epoch::{staked_total, StakingValidator};
use crate::types::{Event, EventView, ExecutionReceipt, ReceiptView};

verus! {

/// What an epoch pays: 317 coins of eight decimals.
pub const REWARD_PER_EPOCH: u128 = 31_700_000_000;

/// The whole, in hundredths of a percent.
pub const FULL_BPS: u128 = 10_000;

/// Stake that somebody placed with a validator.
#[derive(Clone, Copy, Debug)]
pub struct Delegation {
    pub delegator: ValidatorId,
    pub validator: ValidatorId,
    pub amount: u128,
}

/// An amount to be credited to an account.
#[derive(Clone, Copy, Debug)]
pub struct Credit {
    pub account: ValidatorId,
    pub amount: u128,
    /// Whether the account is rewarded as a delegator.
    pub delegated: bool,
}

/// A validator's part of the reward, by its stake.
pub open spec fn share_of(reward: u128, v: StakingValidator, total: u128) -> int {
    (reward * v.total_stake) / (total as int)
}

/// What of a share was earned by delegated stake.
pub open spec fn delegated_part(share: int, v: StakingValidator) -> int {
    if v.total_delegated > 0 {
        (share * v.total_delegated) / (v.total_stake as int)
    } else {
        0
    }
}

/// What the validator keeps of its delegators' part.
pub open spec fn commission_of(part: int, v: StakingValidator) -> int {
    (part * v.commission_rate_bps) / (FULL_BPS as int)
}

/// What is left of a difference, or nothing.
pub open spec fn at_least_zero(x: int) -> int {
    if x >= 0 {
        x
    } else {
        0
    }
}

/// What goes to the delegators of a validator.
pub open spec fn delegators_net(share: int, v: StakingValidator) -> int {
    at_least_zero(delegated_part(share, v) - commission_of(delegated_part(share, v), v))
}

/// What goes to the validator itself: its own stake's part and its commission.
pub open spec fn validator_net(share: int, v: StakingValidator) -> int {
    at_least_zero(share - delegated_part(share, v)) + commission_of(delegated_part(share, v), v)
}

/// A delegator's part of what goes to the delegators.
pub open spec fn delegation_share(net: int, amount: u128, v: StakingValidator) -> int {
    (net * amount) / (v.total_delegated as int)
}

/// The credits of the delegators of `v`; those that come to nothing are left out.
pub open spec fn delegator_credits(net: int, v: StakingValidator, delegations: Seq<Delegation>) -> Seq<
    Credit,
>
    decreases delegations.len(),
{
    if delegations.len() == 0 {
        Seq::empty()
    } else {
        let rest = delegator_credits(net, v, delegations.drop_last());
        let d = delegations.last();
        if d.validator == v.id && delegation_share(net, d.amount, v) > 0 {
            rest.push(
                Credit {
                    account: d.delegator,
                    amount: delegation_share(net, d.amount, v) as u128,
                    delegated: true,
                },
            )
        } else {
            rest
        }
    }
}

/// The credits of a validator and its delegators.
pub open spec fn validator_credits(
    reward: u128,
    total: u128,
    v: StakingValidator,
    delegations: Seq<Delegation>,
) -> Seq<Credit> {
    let share = share_of(reward, v, total);
    if share == 0 {
        Seq::empty()
    } else {
        seq![
            Credit { account: v.id, amount: validator_net(share, v) as u128, delegated: false },
        ] + if delegators_net(share, v) > 0 && v.total_delegated > 0 {
            delegator_credits(delegators_net(share, v), v, delegations)
        } else {
            Seq::empty()
        }
    }
}

/// The credits of all active validators and their delegators, in order.
pub open spec fn all_credits(
    reward: u128,
    total: u128,
    staking: Seq<StakingValidator>,
    delegations: Seq<Delegation>,
) -> Seq<Credit>
    decreases staking.len(),
{
    if staking.len() == 0 {
        Seq::empty()
    } else {
        all_credits(reward, total, staking.drop_last(), delegations)
            + if staking.last().is_active {
            validator_credits(reward, total, staking.last(), delegations)
        } else {
            Seq::empty()
        }
    }
}

/// The sum of all credits.
pub open spec fn credit_total(credits: Seq<Credit>) -> int
    decreases credits.len(),
{
    if credits.len() == 0 {
        0
    } else {
        credit_total(credits.drop_last()) + credits.last().amount
    }
}

/// The sum of what was delegated to `id`.
pub open spec fn delegated_to(delegations: Seq<Delegation>, id: ValidatorId) -> int
    decreases delegations.len(),
{
    if delegations.len() == 0 {
        0
    } else {
        delegated_to(delegations.drop_last(), id) + if delegations.last().validator == id {
            delegations.last().amount as int
        } else {
            0
        }
    }
}

/// What the pool can pay of an epoch's reward.
pub open spec fn payable(pool_balance: u128) -> u128 {
    if pool_balance < REWARD_PER_EPOCH {
        pool_balance
    } else {
        REWARD_PER_EPOCH
    }
}

/// The note of a credit.
pub open spec fn credit_event(pool: ValidatorId, credit: Credit) -> EventView {
    EventView {
        emitter: pool,
        topic: if credit.delegated {
            "delegator_reward".spec_bytes()
        } else {
            "epoch_reward".spec_bytes()
        },
        data: credit.account@ + spec_u128_to_le_bytes(credit.amount),
    }
}

/// The receipt that notes all credits.
pub open spec fn reward_receipt(pool: ValidatorId, credits: Seq<Credit>) -> ReceiptView {
    ReceiptView {
        sender: pool,
        nonce: 0,
        success: true,
        gas_used: 0,
        error: None,
        events: Seq::new(credits.len(), |i: int| credit_event(pool, credits[i])),
        auth_method: "system"@,
    }
}

/// What is paid by delegation to `v` can be computed: no product is too large.
pub open spec fn delegations_fit(net: int, v: StakingValidator, delegations: Seq<Delegation>) -> bool {
    forall|i: int|
        0 <= i < delegations.len() && (#[trigger] delegations[i]).validator == v.id ==> net
            * delegations[i].amount <= u128::MAX
}

/// The share of `v` can be computed, and it has no more delegated than staked.
pub open spec fn share_fits(
    reward: u128,
    total: u128,
    v: StakingValidator,
    delegations: Seq<Delegation>,
) -> bool {
    &&& reward * v.total_stake <= u128::MAX
    &&& v.total_delegated <= v.total_stake
    &&& delegations_fit(delegators_net(share_of(reward, v, total), v), v, delegations)
}

/// The numbers are small enough: the stakes of the active validators can be added,
/// and, where something is paid, every product of the shares can be computed.
pub open spec fn rewardable(
    pool_balance: u128,
    staking: Seq<StakingValidator>,
    delegations: Seq<Delegation>,
) -> bool {
    let total = staked_total(staking);
    &&& total <= u128::MAX
    &&& total > 0 && pool_balance > 0 ==> forall|i: int|
        0 <= i < staking.len() && (#[trigger] staking[i]).is_active ==> share_fits(
            payable(pool_balance),
            total as u128,
            staking[i],
            delegations,
        )
}

/// What an epoch pays.
#[derive(Debug)]
pub struct RewardPlan {
    /// What leaves the pool.
    pub deducted: u128,
    pub credits: Vec<Credit>,
    /// The note of the credits, where there are any.
    pub receipt: Option<ExecutionReceipt>,
}

/// An account's balance after a credit.
pub fn credited_balance(balance: u128, amount: u128) -> (after: u128)
    ensures
        after == if balance + amount > u128::MAX {
            u128::MAX as int
        } else {
            balance + amount
        },
{
    balance.saturating_add(amount)
}

proof fn share_bounds(reward: u128, v: StakingValidator, total: u128)
    requires
        0 < total,
        v.total_stake <= total,
    ensures
        0 <= share_of(reward, v, total) <= reward,
{
    let product = reward * v.total_stake;
    assert(0 <= product <= reward * total) by (nonlinear_arith)
        requires
            v.total_stake <= total,
            product == reward * v.total_stake,
    ;
    lemma_div_is_ordered(0, product, total as int);
    lemma_div_is_ordered(product, reward * total, total as int);
    lemma_div_multiples_vanish(reward as int, total as int);
    assert(reward * total == total * reward) by (nonlinear_arith);
    assert(0int / (total as int) == 0) by {
        lemma_basic_div(0, total as int);
    }
}

proof fn part_bounds(share: int, v: StakingValidator)
    requires
        0 <= share,
        0 < v.total_stake,
        v.total_delegated <= v.total_stake,
    ensures
        0 <= delegated_part(share, v) <= share,
        0 <= commission_of(delegated_part(share, v), v),
{
    if v.total_delegated > 0 {
        let product = share * v.total_delegated;
        let stake = v.total_stake as int;
        assert(0 <= product <= share * stake) by (nonlinear_arith)
            requires
                0 <= share,
                v.total_delegated <= stake,
                product == share * v.total_delegated,
        ;
        lemma_div_is_ordered(0, product, stake);
        lemma_div_is_ordered(product, share * stake, stake);
        lemma_div_multiples_vanish(share, stake);
        assert(share * stake == stake * share) by (nonlinear_arith);
        lemma_basic_div(0, stake);
    }
    let part = delegated_part(share, v);
    assert(0 <= part * v.commission_rate_bps) by (nonlinear_arith)
        requires
            0 <= part,
    ;
    lemma_div_is_ordered(0, part * v.commission_rate_bps, FULL_BPS as int);
}

proof fn stake_in_total(staking: Seq<StakingValidator>, i: int)
    requires
        0 <= i < staking.len(),
        staking[i].is_active,
    ensures
        staking[i].total_stake <= staked_total(staking),
    decreases staking.len(),
{
    if i < staking.len() - 1 {
        stake_in_total(staking.drop_last(), i);
    }
}

/// The sum of the stakes of the active validators.
fn total_staked(staking: &Vec<StakingValidator>) -> (total: u128)
    requires
        staked_total(staking@) <= u128::MAX,
    ensures
        total == staked_total(staking@),
{
    let mut total: u128 = 0;
    let mut i: usize = 0;
    assert(staking@.take(0).len() == 0);
    while i < staking.len()
        invariant
            i <= staking@.len(),
            staked_total(staking@) <= u128::MAX,
            total == staked_total(staking@.take(i as int)),
        decreases staking@.len() - i,
    {
        proof {
            let next = staking@.take(i + 1);
            assert(next.drop_last() =~= staking@.take(i as int));
            assert(next.last() == staking@[i as int]);
            staked_prefix_bound(staking@, i + 1);
        }
        if staking[i].is_active {
            total += staking[i].total_stake;
        }
        i += 1;
    }
    assert(staking@.take(i as int) =~= staking@);
    total
}

proof fn staked_prefix_bound(staking: Seq<StakingValidator>, n: int)
    requires
        0 <= n <= staking.len(),
    ensures
        staked_total(staking.take(n)) <= staked_total(staking),
    decreases staking.len(),
{
    if n < staking.len() {
        assert(staking.drop_last().take(n) =~= staking.take(n));
        staked_prefix_bound(staking.drop_last(), n);
    } else {
        assert(staking.take(n) =~= staking);
    }
}

/// Adds the credits of the delegators of `v`.
fn credit_delegators(
    credits: &mut Vec<Credit>,
    net: u128,
    v: &StakingValidator,
    delegations: &Vec<Delegation>,
)
    requires
        v.total_delegated > 0,
        delegations_fit(net as int, *v, delegations@),
    ensures
        final(credits)@ == old(credits)@ + delegator_credits(net as int, *v, delegations@),
{
    let ghost before = credits@;
    let mut i: usize = 0;
    assert(delegations@.take(0).len() == 0);
    assert(before + delegator_credits(net as int, *v, delegations@.take(0)) =~= before);
    while i < delegations.len()
        invariant
            i <= delegations@.len(),
            v.total_delegated > 0,
            delegations_fit(net as int, *v, delegations@),
            credits@ == before + delegator_credits(
                net as int,
                *v,
                delegations@.take(i as int),
            ),
        decreases delegations@.len() - i,
    {
        let d = delegations[i];
        proof {
            let next = delegations@.take(i + 1);
            assert(next.drop_last() =~= delegations@.take(i as int));
            assert(next.last() == d);
            assert(d.validator == v.id ==> net * delegations@[i as int].amount <= u128::MAX);
            assert(0 <= net * d.amount) by (nonlinear_arith);
        }
        if same_hash(&d.validator, &v.id) {
            let amount = (net * d.amount) / v.total_delegated;
            if amount > 0 {
                let credit = Credit { account: d.delegator, amount, delegated: true };
                proof {
                    let sofar = delegator_credits(net as int, *v, delegations@.take(i as int));
                    assert((before + sofar).push(credit) =~= before + sofar.push(credit));
                }
                credits.push(credit);
            }
        }
        i += 1;
    }
    assert(delegations@.take(i as int) =~= delegations@);
}

/// Adds the credits of a validator and its delegators.
fn credit_validator(
    credits: &mut Vec<Credit>,
    reward: u128,
    total: u128,
    v: &StakingValidator,
    delegations: &Vec<Delegation>,
)
    requires
        reward <= REWARD_PER_EPOCH,
        0 < total,
        v.total_stake <= total,
        share_fits(reward, total, *v, delegations@),
    ensures
        final(credits)@ == old(credits)@ + validator_credits(reward, total, *v, delegations@),
{
    let ghost before = credits@;
    proof {
        assert(0 <= reward * v.total_stake) by (nonlinear_arith);
        share_bounds(reward, *v, total);
    }
    let share = (reward * v.total_stake) / total;
    if share == 0 {
        assert(before + Seq::<Credit>::empty() =~= before);
        return;
    }
    proof {
        if v.total_stake == 0 {
            assert(reward * v.total_stake == 0) by (nonlinear_arith)
                requires
                    v.total_stake == 0,
            ;
            lemma_basic_div(0, total as int);
        }
        part_bounds(share as int, *v);
        assert(0 <= share * v.total_delegated <= reward * v.total_stake) by (nonlinear_arith)
            requires
                share <= reward,
                v.total_delegated <= v.total_stake,
        ;
    }
    let part = if v.total_delegated > 0 {
        (share * v.total_delegated) / v.total_stake
    } else {
        0
    };
    proof {
        assert(0 <= part * v.commission_rate_bps <= 31_700_000_000 * 0xffff_ffff_ffff_ffff)
            by (nonlinear_arith)
            requires
                part <= 31_700_000_000,
                v.commission_rate_bps <= 0xffff_ffff_ffff_ffff,
        ;
    }
    let commission = (part * (v.commission_rate_bps as u128)) / FULL_BPS;
    let net = part.saturating_sub(commission);
    proof {
        assert(commission <= part * v.commission_rate_bps) by (nonlinear_arith)
            requires
                commission == (part * v.commission_rate_bps) / 10_000int,
                0 <= part * v.commission_rate_bps,
        ;
    }
    let own = share.saturating_sub(part) + commission;
    let credit = Credit { account: v.id, amount: own, delegated: false };
    assert(net == delegators_net(share as int, *v));
    assert(own == validator_net(share as int, *v));
    credits.push(credit);
    assert(credits@ =~= before + seq![credit]);
    if net > 0 && v.total_delegated > 0 {
        credit_delegators(credits, net, v, delegations);
    }
    assert(credits@ =~= before + validator_credits(reward, total, *v, delegations@));
}

/// Notes the credits in a receipt.
fn note_credits(pool: &ValidatorId, credits: &Vec<Credit>) -> (receipt: ExecutionReceipt)
    ensures
        receipt@ == reward_receipt(*pool, credits@),
{
    let mut events: Vec<Event> = Vec::new();
    let mut i: usize = 0;
    while i < credits.len()
        invariant
            i <= credits@.len(),
            events@.len() == i,
            forall|j: int| 0 <= j < i ==> (#[trigger] events@[j])@ == credit_event(*pool, credits@[j]),
        decreases credits@.len() - i,
    {
        let credit = credits[i];
        let topic = if credit.delegated {
            copy_bytes("delegator_reward".as_bytes())
        } else {
            copy_bytes("epoch_reward".as_bytes())
        };
        let mut data = copy_bytes(&credit.account);
        append_bytes(&mut data, u128_to_le_bytes(credit.amount).as_slice());
        let event = Event { emitter: *pool, topic, data };
        assert(event@ =~= credit_event(*pool, credit));
        events.push(event);
        i += 1;
    }
    let receipt = ExecutionReceipt {
        sender: *pool,
        nonce: 0,
        success: true,
        gas_used: 0,
        error: None,
        events,
        auth_method: "system".to_string(),
    };
    assert(receipt@.events =~= reward_receipt(*pool, credits@).events);
    receipt
}

/// Plans the rewards of an epoch: by stake among the active validators, and within
/// a validator's share by delegation, less its commission. Nothing is paid where
/// nobody stakes or the pool is empty.
pub fn plan_epoch_rewards(
    pool: &ValidatorId,
    pool_balance: u128,
    staking: &Vec<StakingValidator>,
    delegations: &Vec<Delegation>,
) -> (plan: Option<RewardPlan>)
    requires
        rewardable(pool_balance, staking@, delegations@),
    ensures
        plan is None <==> staked_total(staking@) == 0 || pool_balance == 0,
        plan matches Some(p) ==> {
            let reward = payable(pool_balance);
            let credits = all_credits(
                reward,
                staked_total(staking@) as u128,
                staking@,
                delegations@,
            );
            &&& p.deducted == reward
            &&& p.credits@ == credits
            &&& match p.receipt {
                Some(receipt) => credits.len() > 0 && receipt@ == reward_receipt(*pool, credits),
                None => credits.len() == 0,
            }
        },
{
    let total = total_staked(staking);
    if total == 0 || pool_balance == 0 {
        return None;
    }
    let reward = if pool_balance < REWARD_PER_EPOCH {
        pool_balance
    } else {
        REWARD_PER_EPOCH
    };
    let mut credits: Vec<Credit> = Vec::new();
    let mut i: usize = 0;
    assert(staking@.take(0).len() == 0);
    while i < staking.len()
        invariant
            i <= staking@.len(),
            rewardable(pool_balance, staking@, delegations@),
            total == staked_total(staking@),
            0 < total,
            0 < pool_balance,
            reward == payable(pool_balance),
            credits@ == all_credits(reward, total, staking@.take(i as int), delegations@),
        decreases staking@.len() - i,
    {
        proof {
            let next = staking@.take(i + 1);
            assert(next.drop_last() =~= staking@.take(i as int));
            assert(next.last() == staking@[i as int]);
            if staking@[i as int].is_active {
                stake_in_total(staking@, i as int);
            }
        }
        if staking[i].is_active {
            credit_validator(&mut credits, reward, total, &staking[i], delegations);
        } else {
            assert(credits@ + Seq::<Credit>::empty() =~= credits@);
        }
        i += 1;
    }
    assert(staking@.take(i as int) =~= staking@);
    let receipt = if credits.len() > 0 {
        Some(note_credits(pool, &credits))
    } else {
        None
    };
    Some(RewardPlan { deducted: reward, credits, receipt })
}

/// Commissions are at most the whole, and nobody's delegators placed more than is
/// counted as delegated.
pub open spec fn sound_staking(staking: Seq<StakingValidator>, delegations: Seq<Delegation>) -> bool {
    forall|i: int|
        0 <= i < staking.len() && (#[trigger] staking[i]).is_active
            ==> staking[i].commission_rate_bps <= FULL_BPS && delegated_to(
            delegations,
            staking[i].id,
        ) <= staking[i].total_delegated
}

/// Rewards create no coins: what is credited is at most what leaves the pool, and
/// that is at most what the pool holds.
pub proof fn rewards_conserve_supply(
    pool_balance: u128,
    staking: Seq<StakingValidator>,
    delegations: Seq<Delegation>,
)
    requires
        rewardable(pool_balance, staking, delegations),
        sound_staking(staking, delegations),
        staked_total(staking) > 0,
    ensures
        credit_total(
            all_credits(
                payable(pool_balance),
                staked_total(staking) as u128,
                staking,
                delegations,
            ),
        ) <= payable(pool_balance) <= pool_balance,
{
    let total = staked_total(staking);
    let reward = payable(pool_balance);
    if pool_balance == 0 {
        empty_pool_pays_nothing(total as u128, staking, delegations);
    } else {
        credits_by_stake(pool_balance, total as u128, staking, delegations, staking.len() as int);
        assert(staking.take(staking.len() as int) =~= staking);
        let paid = credit_total(all_credits(reward, total as u128, staking, delegations));
        assert(paid <= reward) by (nonlinear_arith)
            requires
                total * paid <= reward * total,
                total > 0,
        ;
    }
}

proof fn empty_pool_pays_nothing(
    total: u128,
    staking: Seq<StakingValidator>,
    delegations: Seq<Delegation>,
)
    requires
        total > 0,
    ensures
        all_credits(0, total, staking, delegations).len() == 0,
    decreases staking.len(),
{
    if staking.len() > 0 {
        empty_pool_pays_nothing(total, staking.drop_last(), delegations);
        let v = staking.last();
        assert(share_of(0, v, total) == 0) by {
            assert(0u128 * v.total_stake == 0) by (nonlinear_arith);
            lemma_basic_div(0, total as int);
        }
    }
}

proof fn credit_total_add(a: Seq<Credit>, b: Seq<Credit>)
    ensures
        credit_total(a + b) == credit_total(a) + credit_total(b),
    decreases b.len(),
{
    if b.len() == 0 {
        assert(a + b =~= a);
    } else {
        credit_total_add(a, b.drop_last());
        assert((a + b).drop_last() =~= a + b.drop_last());
        assert((a + b).last() == b.last());
    }
}

proof fn delegators_paid(net: int, v: StakingValidator, delegations: Seq<Delegation>)
    requires
        0 <= net,
        v.total_delegated > 0,
        delegations_fit(net, v, delegations),
    ensures
        0 <= credit_total(delegator_credits(net, v, delegations)),
        credit_total(delegator_credits(net, v, delegations)) * v.total_delegated <= net
            * delegated_to(delegations, v.id),
    decreases delegations.len(),
{
    if delegations.len() == 0 {
        assert(net * 0 == 0) by (nonlinear_arith);
        assert(0 * v.total_delegated == 0) by (nonlinear_arith);
    } else {
        let shorter = delegations.drop_last();
        let d = delegations.last();
        assert forall|i: int|
            0 <= i < shorter.len() && (#[trigger] shorter[i]).validator == v.id implies net
            * shorter[i].amount <= u128::MAX by {
            assert(delegations[i] == shorter[i]);
        }
        delegators_paid(net, v, shorter);
        let rest = delegator_credits(net, v, shorter);
        let whole = v.total_delegated as int;
        let amount = d.amount as int;
        let share = delegation_share(net, d.amount, v);
        let placed = delegated_to(shorter, v.id);
        assert(d.validator == v.id ==> net * delegations[delegations.len() - 1].amount
            <= u128::MAX);
        assert(0 <= net * amount) by (nonlinear_arith)
            requires
                0 <= net,
                0 <= amount,
        ;
        lemma_fundamental_div_mod(net * amount, whole);
        lemma_mod_bound(net * amount, whole);
        assert(whole * share <= net * amount);
        lemma_div_pos_is_pos(net * amount, whole);
        assert(share <= net * amount) by (nonlinear_arith)
            requires
                whole * share <= net * amount,
                whole >= 1,
                share >= 0,
        ;
        assert(net * (placed + amount) == net * placed + net * amount) by (nonlinear_arith);
        if d.validator == v.id {
            if share > 0 {
                let credit = Credit {
                    account: d.delegator,
                    amount: share as u128,
                    delegated: true,
                };
                assert(rest.push(credit).drop_last() =~= rest);
                assert((credit_total(rest) + share) * whole == credit_total(rest) * whole + whole
                    * share) by (nonlinear_arith);
            }
        }
    }
}

proof fn validator_paid(
    reward: u128,
    total: u128,
    v: StakingValidator,
    delegations: Seq<Delegation>,
)
    requires
        reward <= REWARD_PER_EPOCH,
        0 < total,
        v.total_stake <= total,
        v.commission_rate_bps <= FULL_BPS,
        delegated_to(delegations, v.id) <= v.total_delegated,
        share_fits(reward, total, v, delegations),
    ensures
        0 <= credit_total(validator_credits(reward, total, v, delegations)) <= share_of(
            reward,
            v,
            total,
        ),
{
    let share = share_of(reward, v, total);
    share_bounds(reward, v, total);
    if share > 0 {
        if v.total_stake == 0 {
            assert(reward * v.total_stake == 0) by (nonlinear_arith)
                requires
                    v.total_stake == 0,
            ;
            lemma_basic_div(0, total as int);
        }
        part_bounds(share, v);
        let part = delegated_part(share, v);
        let commission = commission_of(part, v);
        assert(commission <= part) by {
            let bps = v.commission_rate_bps as int;
            assert(part * bps <= part * 10_000) by (nonlinear_arith)
                requires
                    0 <= part,
                    bps <= 10_000,
            ;
            lemma_div_is_ordered(part * bps, part * 10_000, 10_000);
            lemma_div_multiples_vanish(part, 10_000);
        }
        let net = delegators_net(share, v);
        let own = Credit { account: v.id, amount: validator_net(share, v) as u128, delegated: false };
        let others = if net > 0 && v.total_delegated > 0 {
            delegator_credits(net, v, delegations)
        } else {
            Seq::empty()
        };
        credit_total_add(seq![own], others);
        assert(credit_total(seq![own]) == own.amount) by {
            assert(seq![own].drop_last().len() == 0);
            assert(credit_total(seq![own].drop_last()) == 0);
        }
        assert(own.amount == share - net);
        if net > 0 && v.total_delegated > 0 {
            delegators_paid(net, v, delegations);
            let paid = credit_total(others);
            let placed = delegated_to(delegations, v.id);
            let whole = v.total_delegated as int;
            assert(paid <= net) by (nonlinear_arith)
                requires
                    paid * whole <= net * placed,
                    placed <= whole,
                    whole > 0,
                    net > 0,
            ;
        }
    }
}

proof fn credits_by_stake(
    pool_balance: u128,
    total: u128,
    staking: Seq<StakingValidator>,
    delegations: Seq<Delegation>,
    n: int,
)
    requires
        0 <= n <= staking.len(),
        rewardable(pool_balance, staking, delegations),
        sound_staking(staking, delegations),
        total == staked_total(staking),
        0 < total,
        0 < pool_balance,
    ensures
        ({
            let reward = payable(pool_balance);
            let credits = all_credits(reward, total, staking.take(n), delegations);
            total * credit_total(credits) <= reward * staked_total(staking.take(n))
        }),
    decreases n,
{
    let reward = payable(pool_balance);
    let list = staking.take(n);
    if n == 0 {
        assert(total * 0 == 0) by (nonlinear_arith);
        assert(reward * 0 == 0) by (nonlinear_arith);
    } else {
        credits_by_stake(pool_balance, total, staking, delegations, n - 1);
        assert(list.drop_last() =~= staking.take(n - 1));
        let v = list.last();
        assert(v == staking[n - 1]);
        let rest = all_credits(reward, total, staking.take(n - 1), delegations);
        let before = staked_total(staking.take(n - 1));
        if v.is_active {
            stake_in_total(staking, n - 1);
            assert(share_fits(reward, total, staking[n - 1], delegations));
            assert(delegated_to(delegations, staking[n - 1].id) <= staking[n - 1].total_delegated);
            validator_paid(reward, total, v, delegations);
            let own = validator_credits(reward, total, v, delegations);
            credit_total_add(rest, own);
            let share = share_of(reward, v, total);
            let stake = v.total_stake as int;
            lemma_fundamental_div_mod(reward * stake, total as int);
            lemma_mod_bound(reward * stake, total as int);
            assert(total * share <= reward * stake);
            let a = credit_total(rest);
            let b = credit_total(own);
            assert(total * (a + b) <= reward * (before + stake)) by (nonlinear_arith)
                requires
                    total * a <= reward * before,
                    b <= share,
                    total * share <= reward * stake,
                    total > 0,
            ;
        } else {
            assert(rest + Seq::<Credit>::empty() =~= rest);
        }
    }
}

} // verus!
