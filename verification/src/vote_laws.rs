//! What votes and attestations do, said of the votes and stakes themselves.
use vstd::prelude::*;

use crate::accept::{attest_step, attested, attested_pending, still_fresh, AttestOutcome};
use crate::bytes::{hash_before, Digest, ValidatorId};
use crate::codec::hash_of;
use crate::engine::{filed, tip_height, EarlyAttestation, JobView, Now, State, StepView};
use crate::finality::{
    attestations_at, attesters, finalization_started, may_finalize, timed_out_at, TimeoutAction,
};
use crate::fork_choice::{
    ahead, attests, backed, candidate_finalized, candidate_taken, choice_at, eligible, leader_of,
    leader_unique, leads, reevaluated, standing, standing_with, standings_total,
    standings_transitive, vote_moved, voters, winner_of, winning, Choice,
};
use crate::laws::step_subject;
use crate::store::StateStore;
use crate::table::Slot;
use crate::types::{Attestation, PendingView};
use crate::validator::{
    active_stake, count_active, distinct_ids, is_active_in, quorum, stake_in, ValidatorInfo,
};

verus! {

/// The validators whose vote at `height` is for `hash`.
pub open spec fn voting_for(s: State, height: u64, hash: Digest) -> Set<ValidatorId> {
    Set::new(
        |id: ValidatorId|
            s.v2_votes.contains_key(Slot { height, id }) && s.v2_votes[Slot { height, id }] == hash,
    )
}

/// The stake of the active validators whose vote at `height` is for `hash`.
pub open spec fn stake_for(s: State, height: u64, hash: Digest) -> nat {
    stake_in(s.validators, voting_for(s, height, hash))
}

/// The block is at hand, is not known to fail, and somebody votes for it.
pub open spec fn in_the_race(s: State, height: u64, hash: Digest) -> bool {
    &&& s.v2_blocks.contains_key(Slot { height, id: hash })
    &&& !s.v2_invalid.contains_key(Slot { height, id: hash })
    &&& exists|id: ValidatorId| #[trigger] voting_for(s, height, hash).contains(id)
}

/// The validators that `list` has an attestation of.
pub open spec fn listed_by(list: Seq<Attestation>) -> Set<ValidatorId> {
    Set::new(
        |id: ValidatorId|
            exists|i: int| 0 <= i < list.len() && (#[trigger] list[i]).validator_id == id,
    )
}

/// `i` is the first place at which `order` lists `id`.
pub open spec fn placed(order: Seq<ValidatorId>, id: ValidatorId, i: int) -> bool {
    0 <= i < order.len() && order[i] == id && !order.take(i).contains(id)
}

proof fn race_is_eligible(s: State, height: u64, hash: Digest)
    ensures
        in_the_race(s, height, hash) <==> eligible(s, height, hash) && backed(
            s.v2_votes,
            height,
            hash,
        ),
        voting_for(s, height, hash) == voters(s.v2_votes, height, hash),
{
    assert(voting_for(s, height, hash) =~= voters(s.v2_votes, height, hash));
}

/// The candidate that leads has the most stake behind it: no other block in the race
/// has more. Between two with as much stake the one whose proposer comes first in the
/// order leads, and between two of one proposer the one with the smaller hash.
pub proof fn strongest_candidate_leads(
    s: State,
    order: Seq<ValidatorId>,
    height: u64,
    a: Digest,
    b: Digest,
)
    requires
        leads(s, order, height, a),
        in_the_race(s, height, b),
        a != b,
        order.len() <= usize::MAX,
    ensures
        in_the_race(s, height, a),
        stake_for(s, height, a) >= stake_for(s, height, b),
        stake_for(s, height, a) == stake_for(s, height, b) ==> {
            let first = s.v2_blocks[Slot { height, id: a }].header.proposer;
            let second = s.v2_blocks[Slot { height, id: b }].header.proposer;
            &&& order.contains(second) ==> order.contains(first)
            &&& forall|i: int, j: int|
                placed(order, first, i) && placed(order, second, j) ==> i <= j
            &&& first == second ==> hash_before(a, b)
        },
{
    race_is_eligible(s, height, a);
    race_is_eligible(s, height, b);
    let first = s.v2_blocks[Slot { height, id: a }].header.proposer;
    let second = s.v2_blocks[Slot { height, id: b }].header.proposer;
    rank_is_place(order, first);
    rank_is_place(order, second);
    if order.contains(second) {
        let j = first_listed(order, second);
        assert(crate::fork_choice::rank(order, second) == j);
    }
}

pub proof fn first_listed(order: Seq<ValidatorId>, id: ValidatorId) -> (i: int)
    requires
        order.contains(id),
    ensures
        placed(order, id, i),
    decreases order.len(),
{
    let shorter = order.drop_last();
    if shorter.contains(id) {
        let i = first_listed(shorter, id);
        assert(order.take(i) =~= shorter.take(i));
        i
    } else {
        let k = choose|k: int| 0 <= k < order.len() && order[k] == id;
        if k < order.len() - 1 {
            assert(shorter[k] == id);
        }
        assert(order.take(order.len() - 1) =~= shorter);
        order.len() - 1
    }
}

/// The rank of a proposer is its first place in the order; one that is not listed
/// ranks behind all that are.
pub proof fn rank_is_place(order: Seq<ValidatorId>, id: ValidatorId)
    requires
        order.len() <= usize::MAX,
    ensures
        forall|i: int| placed(order, id, i) ==> crate::fork_choice::rank(order, id) == i,
        !order.contains(id) ==> crate::fork_choice::rank(order, id) >= order.len(),
{
    if order.contains(id) {
        let k = first_listed(order, id);
        assert forall|j: int| 0 <= j < k implies order[j] != id by {
            assert(order.take(k)[j] == order[j]);
        }
        assert(crate::fork_choice::first_place(order, id, k));
        let r = crate::fork_choice::rank(order, id);
        assert(crate::fork_choice::first_place(order, id, r));
        assert forall|i: int| placed(order, id, i) implies r == i by {
            if r < i {
                assert(order.take(i)[r] == id);
            } else if i < r {
                assert(order[i] != id);
            }
        }
    } else {
        assert forall|i: int| !crate::fork_choice::first_place(order, id, i) by {
            if 0 <= i < order.len() {
                assert(order[i] != id);
            }
        }
    }
}

/// Of two tallied blocks the one that does not come before the other has no more stake
/// behind it, and with as much stake its proposer has no better place.
pub proof fn tallies_compare_by_stake(
    s: State,
    order: Seq<ValidatorId>,
    height: u64,
    a: Digest,
    a_voters: Set<ValidatorId>,
    b: Digest,
    b_voters: Set<ValidatorId>,
)
    requires
        order.len() <= usize::MAX,
    ensures
        stake_in(s.validators, a_voters) > stake_in(s.validators, b_voters) ==> ahead(
            standing_with(s, order, height, a, a_voters),
            standing_with(s, order, height, b, b_voters),
        ),
        stake_in(s.validators, a_voters) == stake_in(s.validators, b_voters) && (exists|
            i: int,
            j: int,
        |
            i < j && #[trigger] placed(
                order,
                s.v2_blocks[Slot { height, id: a }].header.proposer,
                i,
            ) && #[trigger] placed(order, s.v2_blocks[Slot { height, id: b }].header.proposer, j))
            ==> ahead(
            standing_with(s, order, height, a, a_voters),
            standing_with(s, order, height, b, b_voters),
        ),
{
    rank_is_place(order, s.v2_blocks[Slot { height, id: a }].header.proposer);
    rank_is_place(order, s.v2_blocks[Slot { height, id: b }].header.proposer);
}

proof fn best_of(
    s: State,
    order: Seq<ValidatorId>,
    height: u64,
    hashes: Set<Digest>,
    one: Digest,
) -> (best: Digest)
    requires
        hashes.finite(),
        hashes.contains(one),
        in_the_race(s, height, one),
    ensures
        hashes.contains(best),
        in_the_race(s, height, best),
        forall|other: Digest|
            other != best && hashes.contains(other) && #[trigger] in_the_race(s, height, other)
                ==> ahead(standing(s, order, height, best), standing(s, order, height, other)),
    decreases hashes.len(),
{
    let rest = hashes.remove(one);
    if exists|other: Digest| rest.contains(other) && #[trigger] in_the_race(s, height, other) {
        let other = choose|other: Digest|
            rest.contains(other) && #[trigger] in_the_race(s, height, other);
        let best = best_of(s, order, height, rest, other);
        let x = standing(s, order, height, one);
        let y = standing(s, order, height, best);
        standings_total(x, y);
        if ahead(x, y) {
            assert forall|third: Digest|
                third != one && hashes.contains(third) && #[trigger] in_the_race(
                    s,
                    height,
                    third,
                ) implies ahead(x, standing(s, order, height, third)) by {
                if third != best {
                    standings_transitive(x, y, standing(s, order, height, third));
                }
            }
            one
        } else {
            best
        }
    } else {
        one
    }
}

/// Where a block is in the race there is a leader.
pub proof fn race_has_leader(s: State, order: Seq<ValidatorId>, height: u64, hash: Digest)
    requires
        s.v2_votes.dom().finite(),
        in_the_race(s, height, hash),
    ensures
        leader_of(s, order, height) matches Some(best) && leads(s, order, height, best),
{
    let votes = s.v2_votes;
    let hashes = votes.dom().map(|slot: Slot| votes[slot]);
    votes.dom().lemma_map_finite(|slot: Slot| votes[slot]);
    assert forall|h: Digest| #[trigger] in_the_race(s, height, h) implies hashes.contains(h) by {
        let id = choose|id: ValidatorId| #[trigger] voting_for(s, height, h).contains(id);
        assert(votes.dom().contains(Slot { height, id }));
        assert(h == (|slot: Slot| votes[slot])(Slot { height, id }));
    }
    let best = best_of(s, order, height, hashes, hash);
    assert forall|other: Digest|
        other != best && eligible(s, height, other) && #[trigger] backed(
            s.v2_votes,
            height,
            other,
        ) implies ahead(standing(s, order, height, best), standing(s, order, height, other)) by {
        race_is_eligible(s, height, other);
        assert(in_the_race(s, height, other));
    }
    race_is_eligible(s, height, best);
    assert(leads(s, order, height, best));
    leader_unique(s, order, height, best, best);
}

/// What counting the votes of a height does. Only the next height is decided. A block
/// in the race whose voters hold more than two thirds of the active stake goes to the
/// chain, with the votes for it; nothing else does. Where there is none, an active
/// validator's own vote ends up with a block that no other has more stake than, and is
/// queued to be broadcast if it moved. No other validator's vote moves.
pub proof fn counting_votes_decides<S: StateStore>(
    s: State,
    store: S,
    order: Seq<ValidatorId>,
    height: u64,
    after: State,
    new_store: S,
    step: StepView,
)
    requires
        filed(s),
        s.v2_votes.dom().finite(),
        order.len() <= usize::MAX,
        reevaluated(s, store, order, height, after, new_store, step),
    ensures
        height != tip_height(s) + 1 ==> after == s && new_store == store && step is Idle,
        after.chain == s.chain,
        after.validators == s.validators,
        after.config == s.config,
        after.v2_invalid == s.v2_invalid,
        after.pending_slashing == s.pending_slashing,
        after.events == s.events,
        after.journal == s.journal,
        ({
            let us = Slot { height, id: s.config.validator_id };
            &&& forall|slot: Slot|
                slot != us ==> (#[trigger] after.v2_votes.contains_key(slot)
                    <==> s.v2_votes.contains_key(slot)) && (s.v2_votes.contains_key(slot)
                    ==> after.v2_votes[slot] == s.v2_votes[slot])
            &&& after.v2_revotes == s.v2_revotes && after.v2_votes == s.v2_votes || (
            after.v2_votes.contains_key(us) && after.v2_revotes == s.v2_revotes.push(
                (height, after.v2_votes[us]),
            ) && !(s.v2_votes.contains_key(us) && s.v2_votes[us] == after.v2_votes[us])
                && is_active_in(s.validators, s.config.validator_id))
        }),
        step is Idle && height == tip_height(s) + 1 ==> forall|hash: Digest| #[trigger]
            in_the_race(s, height, hash) ==> 3 * stake_for(s, height, hash) <= 2 * active_stake(
                s.validators,
            ),
        step is Idle && height == tip_height(s) + 1 && is_active_in(
            s.validators,
            s.config.validator_id,
        ) ==> forall|hash: Digest| #[trigger]
            in_the_race(s, height, hash) ==> {
                let us = Slot { height, id: s.config.validator_id };
                &&& after.v2_votes.contains_key(us)
                &&& in_the_race(s, height, after.v2_votes[us])
                &&& stake_for(s, height, after.v2_votes[us]) >= stake_for(s, height, hash)
            },
        step_subject(step) matches Some(subject) ==> {
            let hash = hash_of(subject.0);
            &&& in_the_race(s, height, hash)
            &&& s.v2_blocks[Slot { height, id: hash }].header == subject.0
            &&& subject.0.height == height
            &&& listed_by(subject.1) == voting_for(after, height, hash)
            &&& 3 * stake_in(s.validators, listed_by(subject.1)) > 2 * active_stake(s.validators)
        },
{
    let us = Slot { height, id: s.config.validator_id };
    match choice_at(s, order, height) {
        Choice::Stay => {
            assert forall|hash: Digest| #[trigger] in_the_race(s, height, hash) implies height
                != tip_height(s) + 1 || (3 * stake_for(s, height, hash) <= 2 * active_stake(
                s.validators,
            ) && (is_active_in(s.validators, s.config.validator_id)
                ==> after.v2_votes.contains_key(us) && in_the_race(
                s,
                height,
                after.v2_votes[us],
            ) && stake_for(s, height, after.v2_votes[us]) >= stake_for(s, height, hash))) by {
                if height == tip_height(s) + 1 {
                    no_winner(s, height, hash);
                    settled_vote(s, order, height, hash);
                }
            }
        },
        Choice::Elect(hash) => {
            race_is_eligible(s, height, hash);
            elected(s, store, order, height, hash, after, new_store, step);
            winner_in_race(s, height, hash);
        },
        Choice::Move(hash) => {
            let moved = vote_moved(s, height, hash);
            race_is_eligible(s, height, hash);
            assert forall|other: Digest| #[trigger] in_the_race(s, height, other) implies 3
                * stake_for(s, height, other) <= 2 * active_stake(s.validators) && stake_for(
                s,
                height,
                hash,
            ) >= stake_for(s, height, other) by {
                no_winner(s, height, other);
                if other != hash {
                    strongest_candidate_leads(s, order, height, hash, other);
                }
            }
            if quorum(moved.validators, voters(moved.v2_votes, height, hash)) {
                elected(moved, store, order, height, hash, after, new_store, step);
            }
        },
    }
}

proof fn no_winner(s: State, height: u64, hash: Digest)
    requires
        winner_of(s, height) is None,
        in_the_race(s, height, hash),
    ensures
        3 * stake_for(s, height, hash) <= 2 * active_stake(s.validators),
{
    race_is_eligible(s, height, hash);
    assert(!winning(s, height, hash));
}

proof fn winner_in_race(s: State, height: u64, hash: Digest)
    requires
        winner_of(s, height) == Some(hash),
    ensures
        in_the_race(s, height, hash),
        3 * stake_for(s, height, hash) > 2 * active_stake(s.validators),
{
    assert(winning(s, height, hash));
    race_is_eligible(s, height, hash);
    if !backed(s.v2_votes, height, hash) {
        assert(voters(s.v2_votes, height, hash) =~= Set::<ValidatorId>::empty());
        crate::validator::stake_of_none(s.validators);
    }
}

proof fn settled_vote(s: State, order: Seq<ValidatorId>, height: u64, hash: Digest)
    requires
        s.v2_votes.dom().finite(),
        order.len() <= usize::MAX,
        height == tip_height(s) + 1,
        choice_at(s, order, height) == Choice::Stay,
        in_the_race(s, height, hash),
    ensures
        is_active_in(s.validators, s.config.validator_id) ==> {
            let us = Slot { height, id: s.config.validator_id };
            &&& s.v2_votes.contains_key(us)
            &&& in_the_race(s, height, s.v2_votes[us])
            &&& stake_for(s, height, s.v2_votes[us]) >= stake_for(s, height, hash)
        },
{
    race_has_leader(s, order, height, hash);
    let best = leader_of(s, order, height)->0;
    race_is_eligible(s, height, best);
    if best != hash {
        strongest_candidate_leads(s, order, height, best, hash);
    }
}

proof fn elected<S: StateStore>(
    s: State,
    store: S,
    order: Seq<ValidatorId>,
    height: u64,
    hash: Digest,
    after: State,
    new_store: S,
    step: StepView,
)
    requires
        filed(s),
        candidate_finalized(s, store, height, hash, after, new_store, step),
        s.v2_blocks.contains_key(Slot { height, id: hash }),
        quorum(s.validators, voters(s.v2_votes, height, hash)),
    ensures
        after.v2_votes == s.v2_votes,
        after.v2_revotes == s.v2_revotes,
        after.chain == s.chain,
        after.validators == s.validators,
        after.config == s.config,
        after.v2_invalid == s.v2_invalid,
        after.pending_slashing == s.pending_slashing,
        after.events == s.events,
        after.journal == s.journal,
        step_subject(step) matches Some(subject) && {
            &&& hash_of(subject.0) == hash
            &&& s.v2_blocks[Slot { height, id: hash }].header == subject.0
            &&& subject.0.height == height
            &&& listed_by(subject.1) == voting_for(s, height, hash)
            &&& 3 * stake_in(s.validators, listed_by(subject.1)) > 2 * active_stake(s.validators)
        },
{
    let slot = Slot { height, id: hash };
    let group = voters(s.v2_votes, height, hash);
    let attestations = choose|attestations: Seq<Attestation>| #[trigger]
        attests(attestations, height, hash, group) && finalization_started(
            candidate_taken(s, height, hash),
            store,
            JobView { pending: s.v2_blocks[slot], attestations, fork_choice: true },
            after,
            new_store,
            step,
        );
    assert(listed_by(attestations) =~= voting_for(s, height, hash));
    assert(voting_for(s, height, hash) =~= group);
}

/// What an attestation does where fork choice is in force: one of an active validator,
/// for a height above the tip and at most sixty-four beyond it, becomes that
/// validator's vote; any other changes nothing.
pub proof fn attestation_is_a_vote<S: StateStore>(
    s: State,
    store: S,
    id: ValidatorId,
    height: u64,
    hash: Digest,
    order: Seq<ValidatorId>,
    now: Now,
    outcome: AttestOutcome,
    after: State,
    new_store: S,
)
    requires
        filed(s),
        s.v2_votes.dom().finite(),
        order.len() <= usize::MAX,
        height >= s.config.fork_choice_v2_height,
        attested(s, store, id, height, hash, order, now, outcome, after, new_store),
    ensures
        ({
            let counts = is_active_in(s.validators, id) && tip_height(s) < height <= tip_height(s)
                + 64;
            &&& outcome is Ignored <==> !counts
            &&& !counts ==> after == s && new_store == store
            &&& counts && id != s.config.validator_id ==> after.v2_votes.contains_key(
                Slot { height, id },
            ) && after.v2_votes[Slot { height, id }] == hash
            &&& forall|slot: Slot|
                slot != (Slot { height, id }) && slot != (Slot {
                    height,
                    id: s.config.validator_id,
                }) ==> (#[trigger] after.v2_votes.contains_key(slot)
                    <==> s.v2_votes.contains_key(slot)) && (s.v2_votes.contains_key(slot)
                    ==> after.v2_votes[slot] == s.v2_votes[slot])
        }),
        after.chain == s.chain,
        after.validators == s.validators,
        outcome is Finalizing ==> (step_subject(attest_step(outcome)) matches Some(subject) && {
            &&& subject.0.height == tip_height(s) + 1
            &&& 3 * stake_in(s.validators, listed_by(subject.1)) > 2 * active_stake(s.validators)
        }),
{
    if is_active_in(s.validators, id) && tip_height(s) < height <= tip_height(s) + 64 {
        let t = crate::fork_choice::with_vote(s, id, height, hash);
        assert(t.v2_votes.dom() =~= s.v2_votes.dom().insert(Slot { height, id }));
        counting_votes_decides(t, store, order, height, after, new_store, attest_step(outcome));
    }
}

/// What an attestation does where fork choice is not in force. For the pending block it
/// counts once per validator, and sends the block to the chain exactly when the
/// attesters hold more than two thirds of the active stake. For another block it only
/// counts against the pending one.
pub proof fn attestation_counts_once<S: StateStore>(
    s: State,
    store: S,
    id: ValidatorId,
    height: u64,
    hash: Digest,
    now: Now,
    outcome: AttestOutcome,
    after: State,
    new_store: S,
)
    requires
        s.pending_blocks.contains_key(height),
        attested_pending(s, store, id, height, hash, now, outcome, after, new_store),
    ensures
        ({
            let pending = s.pending_blocks[height];
            let held = if s.pending_attestations.contains_key(height) {
                s.pending_attestations[height]
            } else {
                Seq::empty()
            };
            let fresh = hash_of(pending.header) == hash && !listed_by(held).contains(id);
            let one_more = held.push(
                Attestation { validator_id: id, block_height: height, block_hash: hash },
            );
            let enough = 3 * stake_in(s.validators, listed_by(held).insert(id)) > 2 * active_stake(
                s.validators,
            );
            &&& outcome is Ignored <==> !fresh
            &&& outcome is Finalizing <==> fresh && enough
            &&& !fresh && hash_of(pending.header) == hash ==> after == s && new_store == store
            &&& hash_of(pending.header) != hash ==> {
                let against = after.pending_blocks[height].mismatch_count;
                &&& against == pending.mismatch_count + 1 || against == pending.mismatch_count
                    && against == u32::MAX
                &&& after == (State {
                    pending_blocks: s.pending_blocks.insert(
                        height,
                        PendingView { mismatch_count: against, ..pending },
                    ),
                    ..s
                })
                &&& new_store == store
            }
            &&& outcome is Recorded ==> after.pending_attestations
                == s.pending_attestations.insert(height, one_more) && after.pending_blocks
                == s.pending_blocks && new_store == store
            &&& outcome is Finalizing ==> {
                &&& step_subject(attest_step(outcome)) == Some((pending.header, one_more))
                &&& attest_step(outcome) matches StepView::Commit(sealed) ==> !sealed.fork_choice
                &&& attest_step(outcome) matches StepView::Execute(job) ==> !job.fork_choice
                    && job.pending == pending
                &&& !after.pending_blocks.contains_key(height)
                &&& !after.pending_attestations.contains_key(height)
            }
        }),
        after.chain == s.chain,
        after.validators == s.validators,
        after.v2_votes == s.v2_votes,
{
    let held = attestations_at(s, height);
    let one_more = held.push(
        Attestation { validator_id: id, block_height: height, block_hash: hash },
    );
    assert(listed_by(held) =~= attesters(held));
    assert forall|x: ValidatorId| listed_by(held).insert(id).contains(x) <==> attesters(
        one_more,
    ).contains(x) by {
        if x == id {
            assert(one_more[held.len() as int].validator_id == id);
        }
        if listed_by(held).contains(x) {
            let i = choose|i: int| 0 <= i < held.len() && (#[trigger] held[i]).validator_id == x;
            assert(one_more[i].validator_id == x);
        }
        if attesters(one_more).contains(x) && x != id {
            let i = choose|i: int|
                0 <= i < one_more.len() && (#[trigger] one_more[i]).validator_id == x;
            assert(held[i].validator_id == x);
        }
    }
    assert(listed_by(held).insert(id) =~= attesters(one_more));
}

/// An attestation of a block that is not at hand waits for it: it is kept for ten
/// seconds, where fewer than two hundred wait and the validator has none at that height
/// yet. It changes nothing else.
pub proof fn early_attestation_waits<S: StateStore>(
    s: State,
    store: S,
    id: ValidatorId,
    height: u64,
    hash: Digest,
    now: Now,
    outcome: AttestOutcome,
    after: State,
    new_store: S,
)
    requires
        !s.pending_blocks.contains_key(height),
        attested_pending(s, store, id, height, hash, now, outcome, after, new_store),
    ensures
        outcome is Ignored,
        new_store == store,
        after == (State { early_attestations: after.early_attestations, ..s }),
        ({
            let young = s.early_attestations.filter(
                |e: EarlyAttestation| now.mono_ms - e.received_ms < 10_000,
            );
            let taken = exists|i: int|
                0 <= i < young.len() && (#[trigger] young[i]).validator_id == id
                    && young[i].block_height == height;
            after.early_attestations == if young.len() < 200 && !taken {
                young.push(
                    EarlyAttestation {
                        validator_id: id,
                        block_height: height,
                        block_hash: hash,
                        received_ms: now.mono_ms,
                    },
                )
            } else {
                young
            }
        }),
{
    let p = |e: EarlyAttestation| now.mono_ms - e.received_ms < 10_000;
    let q = |e: EarlyAttestation| still_fresh(e, now);
    assert(p =~= q);
}

/// Whether a pending block may be finalized without waiting any longer: where there is
/// one active validator at most, up to the third block, and otherwise only where those
/// who attested it hold more than two thirds of the active stake.
pub proof fn finalizable_by_stake(s: State, height: u64)
    ensures
        may_finalize(s, height) <==> {
            ||| count_active(s.validators) <= 1
            ||| height <= 3
            ||| s.pending_attestations.contains_key(height) && 3 * stake_in(
                s.validators,
                listed_by(s.pending_attestations[height]),
            ) > 2 * active_stake(s.validators)
        },
{
    let list = attestations_at(s, height);
    assert(attesters(list) =~= listed_by(list));
    if !s.pending_attestations.contains_key(height) {
        assert(listed_by(list) =~= Set::<ValidatorId>::empty());
        crate::validator::stake_of_none(s.validators);
    }
}

/// A timeout sends a block to the chain, above the third block and with more than one
/// active validator, only where those whose attestations go with it hold more than two
/// thirds of the active stake.
pub proof fn timeout_needs_stake<S: StateStore>(
    s: State,
    store: S,
    height: u64,
    action: TimeoutAction,
    after: State,
    new_store: S,
)
    requires
        timed_out_at(s, store, height, action, after, new_store),
        action is Finalized,
        count_active(s.validators) > 1,
        height > 3,
    ensures
        height == tip_height(s) + 1,
        step_subject(action->Finalized_0@) matches Some(subject) ==> 3 * stake_in(
            s.validators,
            listed_by(subject.1),
        ) > 2 * active_stake(s.validators),
{
    finalizable_by_stake(s, height);
}

/// What becomes of a block that waited too long. One that is not the next is passed
/// over. The own block that others do not attest is dropped, and its height told. One
/// without enough stake behind it waits twice and is then given up. One with enough is
/// finalized, unless that happened three times in a row.
pub proof fn timeout_is_settled_by_stake<S: StateStore>(
    s: State,
    store: S,
    height: u64,
    action: TimeoutAction,
    after: State,
    new_store: S,
)
    requires
        timed_out_at(s, store, height, action, after, new_store),
        s.pending_blocks.contains_key(height),
        s.consecutive_force_finalizes < u32::MAX,
    ensures
        after.chain == s.chain,
        after.validators == s.validators,
        ({
            let pending = s.pending_blocks[height];
            let rejected = pending.header.proposer == s.config.validator_id
                && pending.mismatch_count > 0;
            let held = s.pending_attestations.contains_key(height) && 3 * stake_in(
                s.validators,
                listed_by(s.pending_attestations[height]),
            ) > 2 * active_stake(s.validators);
            let enough = count_active(s.validators) <= 1 || height <= 3 || held;
            let next = height == tip_height(s) + 1;
            &&& action is Skipped <==> !next
            &&& action is Skipped ==> after == s && new_store == store
            &&& action is Dropped <==> next && rejected
            &&& action is Dropped ==> after.dropped_block_height == Some(height)
                && !after.pending_blocks.contains_key(height)
                && after.consecutive_force_finalizes == s.consecutive_force_finalizes
            &&& action is Waiting <==> next && !rejected && !enough
                && s.consecutive_force_finalizes < 2
            &&& action is Waiting ==> after.pending_blocks == s.pending_blocks
            &&& action is Finalized <==> next && !rejected && enough
                && s.consecutive_force_finalizes < 3
            &&& action is Abandoned ==> !after.pending_blocks.contains_key(height)
            &&& !(action is Finalized) ==> new_store == store && after.pending_attestations
                == s.pending_attestations
            &&& action is Waiting || action is Abandoned || action is Finalized
                ==> after.consecutive_force_finalizes == s.consecutive_force_finalizes + 1
            &&& action matches TimeoutAction::Finalized(step) ==> (step_subject(step@) matches Some(
                subject,
            ) && subject.0 == pending.header && subject.1 == attestations_at(s, height))
        }),
{
    finalizable_by_stake(s, height);
}

/// The stake of one validator is its own if it is active, and nothing otherwise.
pub proof fn stake_of_one(validators: Seq<ValidatorInfo>, i: int)
    requires
        distinct_ids(validators),
        0 <= i < validators.len(),
    ensures
        stake_in(validators, Set::empty().insert(validators[i].id)) == if validators[i].active() {
            validators[i].stake as nat
        } else {
            0
        },
    decreases validators.len(),
{
    let one = Set::<ValidatorId>::empty().insert(validators[i].id);
    let shorter = validators.drop_last();
    assert forall|a: int, b: int| 0 <= a < b < shorter.len() implies (#[trigger] shorter[a]).id
        != (#[trigger] shorter[b]).id by {
        assert(validators[a].id != validators[b].id);
    }
    if i < shorter.len() {
        stake_of_one(shorter, i);
        assert(validators[i].id != validators[validators.len() - 1].id);
    } else {
        stake_of_others(shorter, one);
    }
}

proof fn stake_of_others(validators: Seq<ValidatorInfo>, ids: Set<ValidatorId>)
    requires
        forall|i: int| 0 <= i < validators.len() ==> !ids.contains((#[trigger] validators[i]).id),
    ensures
        stake_in(validators, ids) == 0,
    decreases validators.len(),
{
    if validators.len() > 0 {
        let shorter = validators.drop_last();
        assert forall|i: int| 0 <= i < shorter.len() implies !ids.contains(
            (#[trigger] shorter[i]).id,
        ) by {
            assert(validators[i] == shorter[i]);
        }
        stake_of_others(shorter, ids);
        assert(!ids.contains(validators[validators.len() - 1].id));
    }
}

/// As many validators are active as a selection of the active ones has members.
pub proof fn active_ones_are_counted(validators: Seq<ValidatorInfo>)
    ensures
        count_active(validators) == validators.filter(|v: ValidatorInfo| v.active()).len(),
    decreases validators.len(),
{
    reveal(Seq::filter);
    if validators.len() > 0 {
        active_ones_are_counted(validators.drop_last());
    }
}

} // verus!
