//! Epoch boundaries: the validator set follows the staking contract.
use vstd::prelude::*;

use crate::bytes::{same_hash, Digest, ValidatorId};
use crate::checkpoint::{proposed_checkpoint, CheckpointsView};
use crate::codec::{block_hash, hash_of};
use crate::crypto::{blake3_digest, blake3_hash, ed25519_signature};
use crate::engine::{ConsensusEngine, NodeEvent, State, EPOCH_LENGTH};
use crate::store::StateStore;
use crate::validator::{
    active_stake, count_active, countable, distinct_ids, fresh_validator, is_countable, is_member,
    with_stake, ValidatorInfo, ValidatorSet, ValidatorStatus,
};

verus! {

/// A validator as the staking contract knows it.
#[derive(Clone, Copy, Debug)]
pub struct StakingValidator {
    pub id: ValidatorId,
    pub is_active: bool,
    /// Its own stake and what was delegated to it.
    pub total_stake: u128,
    pub total_delegated: u128,
    /// Its share of its delegators' rewards, in hundredths of a percent.
    pub commission_rate_bps: u64,
}

/// The stake of the active validators of the staking contract.
pub open spec fn staked_total(staking: Seq<StakingValidator>) -> nat
    decreases staking.len(),
{
    if staking.len() == 0 {
        0
    } else {
        staked_total(staking.drop_last()) + if staking.last().is_active {
            staking.last().total_stake as nat
        } else {
            0
        }
    }
}

/// `id` is active in the staking contract.
pub open spec fn stakes(staking: Seq<StakingValidator>, id: ValidatorId) -> bool {
    exists|i: int| 0 <= i < staking.len() && (#[trigger] staking[i]).is_active && staking[i].id == id
}

/// Where `id` is listed.
pub open spec fn member_index(s: Seq<ValidatorInfo>, id: ValidatorId) -> int {
    choose|i: int| 0 <= i < s.len() && (#[trigger] s[i]).id == id
}

/// A sum that stops at the largest number.
pub open spec fn capped_sum(a: u128, b: u128) -> u128 {
    if a + b > u128::MAX {
        u128::MAX
    } else {
        (a + b) as u128
    }
}

/// The distance between two stakes.
pub open spec fn distance(a: u128, b: u128) -> u128 {
    if a >= b {
        (a - b) as u128
    } else {
        (b - a) as u128
    }
}

/// How much of the set changes when a member takes over `stake` and is active from
/// then on: the distance to its old stake, or all of it where it was not active.
pub open spec fn member_change(v: ValidatorInfo, stake: u128) -> u128 {
    if v.active() || distance(stake, v.stake) >= stake {
        distance(stake, v.stake)
    } else {
        stake
    }
}

/// A validator set on its way to the next epoch.
#[verifier::ext_equal]
pub struct Transition {
    pub validators: Seq<ValidatorInfo>,
    /// How much stake has changed so far.
    pub changed: u128,
}

/// How much stake may change at an epoch boundary: a third of the active stake, or
/// any amount while there are fewer than four active validators.
pub open spec fn change_limit(validators: Seq<ValidatorInfo>) -> u128 {
    if count_active(validators) >= 4 {
        (active_stake(validators) / 3) as u128
    } else {
        u128::MAX
    }
}

/// A change of `amount` goes beyond the limit.
pub open spec fn beyond(changed: u128, amount: u128, limit: u128) -> bool {
    capped_sum(changed, amount) > limit && limit > 0
}

/// `s` with the stake of `id` set, and `id` active again if it was not.
pub open spec fn refreshed(s: Seq<ValidatorInfo>, id: ValidatorId, stake: u128) -> Seq<
    ValidatorInfo,
> {
    Seq::new(
        s.len(),
        |i: int|
            if s[i].id == id {
                ValidatorInfo {
                    id,
                    stake,
                    status: ValidatorStatus::Active,
                    missed_blocks: if s[i].active() {
                        s[i].missed_blocks
                    } else {
                        0
                    },
                }
            } else {
                s[i]
            },
    )
}

/// What a validator of the staking contract makes of the set: known ones take over
/// their stake and are active again, new ones join, each within the limit. What
/// would go beyond it waits for the next epoch.
pub open spec fn admitted(t: Transition, limit: u128, sv: StakingValidator) -> Transition {
    if !sv.is_active {
        t
    } else if is_member(t.validators, sv.id) {
        let amount = member_change(
            t.validators[member_index(t.validators, sv.id)],
            sv.total_stake,
        );
        if beyond(t.changed, amount, limit) {
            t
        } else {
            Transition {
                validators: refreshed(t.validators, sv.id, sv.total_stake),
                changed: capped_sum(t.changed, amount),
            }
        }
    } else if beyond(t.changed, sv.total_stake, limit) {
        t
    } else {
        Transition {
            validators: t.validators.push(fresh_validator(sv.id, sv.total_stake)),
            changed: capped_sum(t.changed, sv.total_stake),
        }
    }
}

/// What the whole staking contract makes of the set, taken in order.
pub open spec fn all_admitted(t: Transition, limit: u128, staking: Seq<StakingValidator>) -> Transition
    decreases staking.len(),
{
    if staking.len() == 0 {
        t
    } else {
        admitted(all_admitted(t, limit, staking.drop_last()), limit, staking.last())
    }
}

/// What it makes of the set that `v` no longer stakes: it leaves, within the limit.
pub open spec fn dismissed(t: Transition, limit: u128, v: ValidatorInfo) -> Transition {
    if beyond(t.changed, v.stake, limit) {
        t
    } else {
        Transition {
            validators: t.validators.remove(member_index(t.validators, v.id)),
            changed: capped_sum(t.changed, v.stake),
        }
    }
}

/// The set after those of `list` that no longer stake have left, taken in order.
pub open spec fn all_dismissed(
    t: Transition,
    limit: u128,
    staking: Seq<StakingValidator>,
    list: Seq<ValidatorInfo>,
) -> Transition
    decreases list.len(),
{
    if list.len() == 0 {
        t
    } else {
        let rest = all_dismissed(t, limit, staking, list.drop_last());
        if stakes(staking, list.last().id) {
            rest
        } else {
            dismissed(rest, limit, list.last())
        }
    }
}

/// `s` with the stakes that the staking contract has for its active validators.
pub open spec fn restaked(s: Seq<ValidatorInfo>, staking: Seq<StakingValidator>) -> Seq<
    ValidatorInfo,
>
    decreases staking.len(),
{
    if staking.len() == 0 {
        s
    } else {
        let rest = restaked(s, staking.drop_last());
        if staking.last().is_active {
            with_stake(rest, staking.last().id, staking.last().total_stake)
        } else {
            rest
        }
    }
}

/// The validator set of the next epoch.
pub open spec fn synced(validators: Seq<ValidatorInfo>, staking: Seq<StakingValidator>) -> Transition {
    let limit = change_limit(validators);
    let grown = all_admitted(Transition { validators, changed: 0 }, limit, staking);
    all_dismissed(grown, limit, staking, grown.validators)
}

/// The height ends an epoch.
pub open spec fn epoch_boundary(height: u64) -> bool {
    height % EPOCH_LENGTH == 0
}

fn capped_add(a: u128, b: u128) -> (sum: u128)
    ensures
        sum == capped_sum(a, b),
{
    a.saturating_add(b)
}

/// Whether `id` is active in the staking contract.
fn is_staking(staking: &Vec<StakingValidator>, id: &ValidatorId) -> (found: bool)
    ensures
        found == stakes(staking@, *id),
{
    let mut i: usize = 0;
    while i < staking.len()
        invariant
            i <= staking@.len(),
            forall|j: int|
                0 <= j < i ==> !((#[trigger] staking@[j]).is_active && staking@[j].id == *id),
        decreases staking@.len() - i,
    {
        if staking[i].is_active && same_hash(&staking[i].id, id) {
            return true;
        }
        i += 1;
    }
    false
}

/// Takes one validator of the staking contract over.
fn take_over(set: &mut ValidatorSet, changed: u128, limit: u128, sv: &StakingValidator) -> (now: u128)
    requires
        distinct_ids(old(set)@),
    ensures
        distinct_ids(final(set)@),
        ({
            let t = admitted(Transition { validators: old(set)@, changed }, limit, *sv);
            &&& final(set)@ == t.validators
            &&& now == t.changed
        }),
{
    let ghost before = set@;
    if !sv.is_active {
        return changed;
    }
    match set.find(&sv.id) {
        Some(i) => {
            let known = set.validators[i];
            proof {
                let at = member_index(before, sv.id);
                assert(before[i as int].id == sv.id);
                if at < i {
                    assert(before[at].id != before[i as int].id);
                } else if i < at {
                    assert(before[i as int].id != before[at].id);
                }
            }
            let apart = if sv.total_stake >= known.stake {
                sv.total_stake - known.stake
            } else {
                known.stake - sv.total_stake
            };
            let amount = if known.is_active() || apart >= sv.total_stake {
                apart
            } else {
                sv.total_stake
            };
            if capped_add(changed, amount) > limit && limit > 0 {
                return changed;
            }
            let missed = if known.is_active() {
                known.missed_blocks
            } else {
                0
            };
            let renewed = ValidatorInfo {
                id: sv.id,
                stake: sv.total_stake,
                status: ValidatorStatus::Active,
                missed_blocks: missed,
            };
            set.validators.set(i, renewed);
            proof {
                assert forall|j: int| 0 <= j < before.len() && j != i implies (
                #[trigger] before[j]).id != sv.id by {
                    if j < i {
                        assert(before[j].id != before[i as int].id);
                    } else {
                        assert(before[i as int].id != before[j].id);
                    }
                }
                assert(set@ =~= refreshed(before, sv.id, sv.total_stake));
                assert forall|a: int, b: int| 0 <= a < b < set@.len() implies (
                #[trigger] set@[a]).id != (#[trigger] set@[b]).id by {
                    assert(before[a].id != before[b].id);
                }
            }
            capped_add(changed, amount)
        },
        None => {
            if capped_add(changed, sv.total_stake) > limit && limit > 0 {
                return changed;
            }
            let joined = ValidatorInfo::new(sv.id, sv.total_stake);
            set.validators.push(joined);
            assert forall|a: int, b: int| 0 <= a < b < set@.len() implies (
            #[trigger] set@[a]).id != (#[trigger] set@[b]).id by {
                if b < before.len() {
                    assert(before[a].id != before[b].id);
                } else {
                    assert(before[a].id != sv.id);
                }
            }
            capped_add(changed, sv.total_stake)
        },
    }
}

proof fn dismissed_keeps_others(
    t: Transition,
    limit: u128,
    staking: Seq<StakingValidator>,
    list: Seq<ValidatorInfo>,
    id: ValidatorId,
)
    requires
        distinct_ids(t.validators),
        is_member(t.validators, id),
        forall|i: int| 0 <= i < list.len() ==> is_member(t.validators, (#[trigger] list[i]).id),
        forall|i: int| 0 <= i < list.len() ==> (#[trigger] list[i]).id != id,
        distinct_ids(list),
    ensures
        distinct_ids(all_dismissed(t, limit, staking, list).validators),
        is_member(all_dismissed(t, limit, staking, list).validators, id),
    decreases list.len(),
{
    if list.len() > 0 {
        let shorter = list.drop_last();
        let rest = all_dismissed(t, limit, staking, shorter);
        assert forall|i: int| 0 <= i < shorter.len() implies is_member(
            t.validators,
            (#[trigger] shorter[i]).id,
        ) by {
            assert(list[i] == shorter[i]);
        }
        assert forall|i: int| 0 <= i < shorter.len() implies (#[trigger] shorter[i]).id != id by {
            assert(list[i] == shorter[i]);
        }
        assert(distinct_ids(shorter)) by {
            assert forall|a: int, b: int| 0 <= a < b < shorter.len() implies (
            #[trigger] shorter[a]).id != (#[trigger] shorter[b]).id by {
                assert(list[a].id != list[b].id);
            }
        }
        dismissed_keeps_others(t, limit, staking, shorter, id);
        let gone = list.last();
        assert(list[list.len() - 1].id != id);
        assert forall|i: int| 0 <= i < shorter.len() implies (#[trigger] shorter[i]).id
            != gone.id by {
            assert(list[i].id != list[list.len() - 1].id);
        }
        assert(is_member(t.validators, list[list.len() - 1].id));
        dismissed_keeps_others(t, limit, staking, shorter, gone.id);
        let s = rest.validators;
        let at = member_index(s, gone.id);
        assert(0 <= at < s.len() && s[at].id == gone.id);
        let p = choose|p: int| 0 <= p < s.len() && (#[trigger] s[p]).id == id;
        let left = s.remove(at);
        let p2 = if p < at {
            p
        } else {
            p - 1
        };
        assert(left[p2] == s[p]);
        assert(distinct_ids(left)) by {
            assert forall|a: int, b: int| 0 <= a < b < left.len() implies (#[trigger] left[a]).id
                != (#[trigger] left[b]).id by {
                let a0 = if a < at {
                    a
                } else {
                    a + 1
                };
                let b0 = if b < at {
                    b
                } else {
                    b + 1
                };
                assert(s[a0].id != s[b0].id);
            }
        }
    }
}

/// Brings the validator set in line with the staking contract. Returns how much
/// stake changed.
pub fn sync_validators(set: &mut ValidatorSet, staking: &Vec<StakingValidator>) -> (changed: u128)
    requires
        old(set).wf(),
    ensures
        distinct_ids(final(set)@),
        final(set)@ == synced(old(set)@, staking@).validators,
        changed == synced(old(set)@, staking@).changed,
{
    let ghost before = set@;
    let limit = if set.active_count() >= 4 {
        set.total_active_stake() / 3
    } else {
        u128::MAX
    };
    assert(limit == change_limit(before));
    let ghost start = Transition { validators: before, changed: 0 };
    let mut changed: u128 = 0;
    let mut i: usize = 0;
    assert(staking@.take(0).len() == 0);
    while i < staking.len()
        invariant
            i <= staking@.len(),
            distinct_ids(set@),
            start == (Transition { validators: before, changed: 0 }),
            (Transition { validators: set@, changed }) == all_admitted(
                start,
                limit,
                staking@.take(i as int),
            ),
        decreases staking@.len() - i,
    {
        proof {
            let prefix = staking@.take(i + 1);
            assert(prefix.drop_last() =~= staking@.take(i as int));
            assert(prefix.last() == staking@[i as int]);
        }
        changed = take_over(set, changed, limit, &staking[i]);
        i += 1;
    }
    assert(staking@.take(i as int) =~= staking@);
    let ghost grown = Transition { validators: set@, changed };
    let list = set.validators.clone();
    assert(list@ =~= set@);
    let mut j: usize = 0;
    assert(list@.take(0).len() == 0);
    while j < list.len()
        invariant
            j <= list@.len(),
            list@ == grown.validators,
            distinct_ids(grown.validators),
            distinct_ids(set@),
            (Transition { validators: set@, changed }) == all_dismissed(
                grown,
                limit,
                staking@,
                list@.take(j as int),
            ),
        decreases list@.len() - j,
    {
        let v = list[j];
        proof {
            let prefix = list@.take(j + 1);
            let shorter = list@.take(j as int);
            assert(prefix.drop_last() =~= shorter);
            assert(prefix.last() == v);
            assert forall|a: int| 0 <= a < shorter.len() implies is_member(
                grown.validators,
                (#[trigger] shorter[a]).id,
            ) by {
                assert(grown.validators[a].id == shorter[a].id);
            }
            assert forall|a: int| 0 <= a < shorter.len() implies (#[trigger] shorter[a]).id
                != v.id by {
                assert(list@[a].id != list@[j as int].id);
            }
            assert forall|a: int, b: int| 0 <= a < b < shorter.len() implies (
            #[trigger] shorter[a]).id != (#[trigger] shorter[b]).id by {
                assert(list@[a].id != list@[b].id);
            }
            assert(grown.validators[j as int].id == v.id);
            dismissed_keeps_others(grown, limit, staking@, shorter, v.id);
        }
        if !is_staking(staking, &v.id) {
            if !(capped_add(changed, v.stake) > limit && limit > 0) {
                let ghost s = set@;
                let found = set.find(&v.id);
                match found {
                    Some(at) => {
                        proof {
                            let m = member_index(s, v.id);
                            if m < at {
                                assert(s[m].id != s[at as int].id);
                            } else if at < m {
                                assert(s[at as int].id != s[m].id);
                            }
                        }
                        let _ = set.validators.remove(at);
                        assert(distinct_ids(set@)) by {
                            assert forall|a: int, b: int| 0 <= a < b < set@.len() implies (
                            #[trigger] set@[a]).id != (#[trigger] set@[b]).id by {
                                let a0 = if a < at {
                                    a
                                } else {
                                    a + 1
                                };
                                let b0 = if b < at {
                                    b
                                } else {
                                    b + 1
                                };
                                assert(s[a0].id != s[b0].id);
                            }
                        }
                    },
                    None => {},
                }
                changed = capped_add(changed, v.stake);
            }
        }
        j += 1;
    }
    assert(list@.take(j as int) =~= list@);
    changed
}

proof fn with_stake_keeps_ids(s: Seq<ValidatorInfo>, id: ValidatorId, stake: u128)
    requires
        distinct_ids(s),
    ensures
        distinct_ids(with_stake(s, id, stake)),
{
    let t = with_stake(s, id, stake);
    assert forall|a: int, b: int| 0 <= a < b < t.len() implies (#[trigger] t[a]).id != (
    #[trigger] t[b]).id by {
        assert(s[a].id != s[b].id);
    }
}

/// Takes over the stakes that the staking contract has for its active validators.
pub fn sync_stakes(set: &mut ValidatorSet, staking: &Vec<StakingValidator>)
    requires
        distinct_ids(old(set)@),
    ensures
        distinct_ids(final(set)@),
        final(set)@ == restaked(old(set)@, staking@),
{
    let ghost before = set@;
    let mut i: usize = 0;
    assert(staking@.take(0).len() == 0);
    while i < staking.len()
        invariant
            i <= staking@.len(),
            distinct_ids(set@),
            set@ == restaked(before, staking@.take(i as int)),
        decreases staking@.len() - i,
    {
        proof {
            let prefix = staking@.take(i + 1);
            assert(prefix.drop_last() =~= staking@.take(i as int));
            assert(prefix.last() == staking@[i as int]);
        }
        if staking[i].is_active {
            proof {
                with_stake_keeps_ids(set@, staking@[i as int].id, staking@[i as int].total_stake);
            }
            set.set_stake(&staking[i].id, staking[i].total_stake);
        }
        i += 1;
    }
    assert(staking@.take(i as int) =~= staking@);
}

/// Whether the engine can count with the validators once they have taken over the
/// stakes of the staking contract.
pub fn restake_fits(set: &ValidatorSet, staking: &Vec<StakingValidator>) -> (fits: bool)
    requires
        set.wf(),
    ensures
        fits == countable(restaked(set@, staking@)),
{
    let validators = set.validators.clone();
    assert(validators@ =~= set@);
    let mut next = ValidatorSet::new(validators);
    sync_stakes(&mut next, staking);
    is_countable(&next.validators)
}

/// What the node hands to an epoch transition.
#[derive(Debug)]
pub struct EpochInputs {
    /// The epoch that begins.
    pub epoch: u64,
    /// The validators as the epoch manager left them.
    pub validators: Vec<ValidatorInfo>,
    /// The validators of the staking contract.
    pub staking: Vec<StakingValidator>,
    /// The seed that the randomness accumulator committed to the state.
    pub randomness_seed: Digest,
}

/// The engine can count with the validators before and after the transition.
pub open spec fn transition_fits(inputs: EpochInputs) -> bool {
    &&& countable(inputs.validators@)
    &&& countable(synced(inputs.validators@, inputs.staking@).validators)
}

/// Whether the engine can count with the validators before and after the
/// transition.
pub fn epoch_fits(inputs: &EpochInputs) -> (fits: bool)
    ensures
        fits == transition_fits(*inputs),
{
    if !is_countable(&inputs.validators) {
        return false;
    }
    let validators = inputs.validators.clone();
    assert(validators@ =~= inputs.validators@);
    let mut next = ValidatorSet::new(validators);
    let _ = sync_validators(&mut next, &inputs.staking);
    is_countable(&next.validators)
}

/// The seed of the next epoch's proposer order: the accumulator's from its
/// activation height on, and before that the hash of the agreed state root.
pub open spec fn next_seed(s: State, randomness_seed: Digest) -> Digest {
    if s.chain.len() == 0 {
        s.epoch_seed
    } else if s.chain.last().header.height >= s.config.epoch_randomness_height {
        randomness_seed
    } else {
        blake3_digest(s.chain.last().header.state_root@)
    }
}

/// Nodes whose last blocks have the same height and state root get the same seed,
/// whoever proposed those blocks and whatever their timestamps.
pub proof fn epoch_seed_agrees(s: State, t: State, randomness_seed: Digest)
    requires
        s.chain.len() > 0,
        t.chain.len() > 0,
        s.chain.last().header.height == t.chain.last().header.height,
        s.chain.last().header.state_root == t.chain.last().header.state_root,
        s.config.epoch_randomness_height == t.config.epoch_randomness_height,
    ensures
        next_seed(s, randomness_seed) == next_seed(t, randomness_seed),
{
}

/// The state at the start of an epoch.
pub open spec fn epoch_started(s: State, inputs: EpochInputs) -> State {
    let validators = synced(inputs.validators@, inputs.staking@).validators;
    State {
        validators,
        current_epoch: inputs.epoch,
        events: s.events.push(
            NodeEvent::ValidatorSetChanged {
                epoch: inputs.epoch,
                active_count: count_active(validators) as usize,
            },
        ),
        checkpoints: if s.chain.len() == 0 {
            s.checkpoints
        } else {
            let last = s.chain.last().header;
            CheckpointsView {
                pending: Some(
                    proposed_checkpoint(last.height, inputs.epoch, hash_of(last), last.state_root),
                ),
                ..s.checkpoints
            }
        },
        epoch_seed: next_seed(s, inputs.randomness_seed),
        ..s
    }
}

/// The epoch that `height` belongs to.
pub fn epoch_for_height(height: u64) -> (epoch: u64)
    ensures
        epoch == height / EPOCH_LENGTH,
{
    height / EPOCH_LENGTH
}

/// Whether `height` ends an epoch.
pub fn is_epoch_boundary(height: u64) -> (boundary: bool)
    ensures
        boundary == epoch_boundary(height),
{
    height % EPOCH_LENGTH == 0
}

impl<S: StateStore> ConsensusEngine<S> {
    /// Starts the next epoch where `height` ends one: the validator set follows
    /// the staking contract, the last block becomes the pending checkpoint, and
    /// the proposer order gets a new seed. Returns whether an epoch started.
    pub fn try_epoch_transition(&mut self, height: u64, inputs: EpochInputs) -> (started: bool)
        requires
            old(self).inv(),
            transition_fits(inputs),
        ensures
            final(self).inv(),
            final(self).store == old(self).store,
            started == epoch_boundary(height),
            final(self)@ == if started {
                epoch_started(old(self)@, inputs)
            } else {
                old(self)@
            },
    {
        let ghost before = self@;
        let ghost given = inputs;
        if !is_epoch_boundary(height) {
            return false;
        }
        let mut set = ValidatorSet::new(inputs.validators);
        let _ = sync_validators(&mut set, &inputs.staking);
        self.validator_set = set;
        self.current_epoch = inputs.epoch;
        let active_count = self.validator_set.active_count();
        self.events.push(
            NodeEvent::ValidatorSetChanged { epoch: inputs.epoch, active_count },
        );
        let n = self.chain.len();
        if n > 0 {
            assert(before.chain.last() == self.chain@[n - 1]@);
            let last = &self.chain[n - 1].header;
            self.finalized_checkpoints.propose_checkpoint(
                last.height,
                inputs.epoch,
                block_hash(last),
                last.state_root,
            );
            self.epoch_seed = if last.height >= self.config.epoch_randomness_height {
                inputs.randomness_seed
            } else {
                blake3_hash(&last.state_root)
            };
        }
        assert(self@ =~= epoch_started(before, given));
        true
    }

    /// Signs the message of a checkpoint, if the node has a key.
    pub fn sign_checkpoint(&self, message: &[u8]) -> (signature: Option<Vec<u8>>)
        ensures
            match (self@.signing_keypair, signature) {
                (Some(key), Some(s)) => s@ == ed25519_signature(key.seed@, message@)@,
                (None, None) => true,
                _ => false,
            },
    {
        match &self.signing_keypair {
            Some(key) => {
                let signature = key.sign(message);
                Some(crate::bytes::copy_bytes(&signature))
            },
            None => None,
        }
    }
}

} // verus!
