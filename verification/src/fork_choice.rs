//! Fork choice by votes.
//!
//! Every candidate block of a height is kept, and every validator's current vote;
//! a later vote replaces an earlier one. The engine finalizes the candidate that
//! has a quorum, and until there is one moves its own vote to the leading
//! candidate, so that all nodes converge on it.
use vstd::prelude::*;

use crate::bytes::{
    hash_before, hash_less, hash_order_strict, hash_order_total, hash_order_transitive, same_hash,
    Digest, ValidatorId,
};
use crate::codec::{block_hash, hash_of};
use crate::engine::{
    tip_height, ConsensusEngine, ExecutionJob, JobView, Now, State, Step, StepView, Vote,
};
use crate::finality::{finalization_started, without_pending};
use crate::store::StateStore;
use crate::table::{Slot, Table};
use crate::types::{
    copy_list, received, views, Attestation, BlockHeader, HeaderView, OperationView, PendingBlock,
    UserOperation,
};
use crate::validator::{
    disjoint_groups_share_no_quorum, is_active_in, quorum, stake_in, stake_of_none, ValidatorInfo,
};

verus! {

/// The validators whose current vote at `height` is for `hash`.
pub open spec fn voters(votes: Map<Slot, Digest>, height: u64, hash: Digest) -> Set<ValidatorId> {
    Set::new(
        |id: ValidatorId|
            votes.contains_key(Slot { height, id }) && votes[Slot { height, id }] == hash,
    )
}

/// Somebody votes for `hash` at `height`.
pub open spec fn backed(votes: Map<Slot, Digest>, height: u64, hash: Digest) -> bool {
    exists|id: ValidatorId| #[trigger] voters(votes, height, hash).contains(id)
}

/// The block is at hand and did not fail execution.
pub open spec fn eligible(s: State, height: u64, hash: Digest) -> bool {
    s.v2_blocks.contains_key(Slot { height, id: hash }) && !s.v2_invalid.contains_key(
        Slot { height, id: hash },
    )
}

/// `i` is the first place of `id` in `order`.
pub open spec fn first_place(order: Seq<ValidatorId>, id: ValidatorId, i: int) -> bool {
    0 <= i < order.len() && order[i] == id && forall|j: int| 0 <= j < i ==> order[j] != id
}

/// The place of `id` in the proposer order; the last of all where it has none.
pub open spec fn rank(order: Seq<ValidatorId>, id: ValidatorId) -> int {
    if exists|i: int| first_place(order, id, i) {
        choose|i: int| first_place(order, id, i)
    } else {
        usize::MAX as int
    }
}

/// What candidates are compared by.
pub struct Standing {
    pub stake: nat,
    pub rank: int,
    pub hash: Digest,
}

/// `a` comes before `b`: more stake, then the better proposer rank, then the
/// smaller hash.
pub open spec fn ahead(a: Standing, b: Standing) -> bool {
    ||| a.stake > b.stake
    ||| a.stake == b.stake && a.rank < b.rank
    ||| a.stake == b.stake && a.rank == b.rank && hash_before(a.hash, b.hash)
}

/// The standing of a candidate whose voters are `ids`.
pub open spec fn standing_with(
    s: State,
    order: Seq<ValidatorId>,
    height: u64,
    hash: Digest,
    ids: Set<ValidatorId>,
) -> Standing {
    Standing {
        stake: stake_in(s.validators, ids),
        rank: rank(order, s.v2_blocks[Slot { height, id: hash }].header.proposer),
        hash,
    }
}

/// The standing of a candidate by the current votes.
pub open spec fn standing(s: State, order: Seq<ValidatorId>, height: u64, hash: Digest) -> Standing {
    standing_with(s, order, height, hash, voters(s.v2_votes, height, hash))
}

/// `hash` leads at `height`: of the eligible candidates with votes none comes
/// before it.
pub open spec fn leads(s: State, order: Seq<ValidatorId>, height: u64, hash: Digest) -> bool {
    &&& eligible(s, height, hash)
    &&& backed(s.v2_votes, height, hash)
    &&& forall|other: Digest|
        other != hash && eligible(s, height, other) && #[trigger] backed(s.v2_votes, height, other)
            ==> ahead(standing(s, order, height, hash), standing(s, order, height, other))
}

/// `hash` has won at `height`: the candidate is eligible and has a quorum.
pub open spec fn winning(s: State, height: u64, hash: Digest) -> bool {
    eligible(s, height, hash) && quorum(s.validators, voters(s.v2_votes, height, hash))
}

/// The candidate that leads at `height`, if there is one.
pub open spec fn leader_of(s: State, order: Seq<ValidatorId>, height: u64) -> Option<Digest> {
    if exists|hash: Digest| #[trigger] leads(s, order, height, hash) {
        Some(choose|hash: Digest| #[trigger] leads(s, order, height, hash))
    } else {
        None
    }
}

/// The candidate that has won at `height`, if there is one.
pub open spec fn winner_of(s: State, height: u64) -> Option<Digest> {
    if exists|hash: Digest| #[trigger] winning(s, height, hash) {
        Some(choose|hash: Digest| #[trigger] winning(s, height, hash))
    } else {
        None
    }
}

/// No two standings of different candidates tie.
pub proof fn standings_total(a: Standing, b: Standing)
    requires
        a.hash != b.hash,
    ensures
        ahead(a, b) || ahead(b, a),
{
    hash_order_total(a.hash, b.hash);
}

/// Of two standings at most one comes before the other.
pub proof fn standings_strict(a: Standing, b: Standing)
    ensures
        ahead(a, b) ==> !ahead(b, a),
{
    hash_order_strict(a.hash, b.hash);
}

/// Coming before is transitive.
pub proof fn standings_transitive(a: Standing, b: Standing, c: Standing)
    requires
        ahead(a, b),
        ahead(b, c),
    ensures
        ahead(a, c),
{
    if hash_before(a.hash, b.hash) && hash_before(b.hash, c.hash) {
        hash_order_transitive(a.hash, b.hash, c.hash);
    }
}

/// There is at most one leader, so nodes with the same candidates, votes and
/// proposer order elect the same one.
pub proof fn leader_unique(s: State, order: Seq<ValidatorId>, height: u64, a: Digest, b: Digest)
    requires
        leads(s, order, height, a),
        leads(s, order, height, b),
    ensures
        a == b,
        leader_of(s, order, height) == Some(a),
{
    let c = choose|hash: Digest| #[trigger] leads(s, order, height, hash);
    standings_strict(standing(s, order, height, a), standing(s, order, height, b));
    standings_strict(standing(s, order, height, a), standing(s, order, height, c));
}

/// At most one candidate of a height can have a quorum: a validator has one vote.
pub proof fn winner_unique(s: State, height: u64, a: Digest, b: Digest)
    requires
        winning(s, height, a),
        winning(s, height, b),
    ensures
        a == b,
        winner_of(s, height) == Some(a),
{
    one_quorum_per_height(s.validators, s.v2_votes, height, a, b);
    let c = choose|hash: Digest| #[trigger] winning(s, height, hash);
    one_quorum_per_height(s.validators, s.v2_votes, height, a, c);
}

/// Two different blocks of one height never both have a quorum of current votes.
pub proof fn one_quorum_per_height(
    validators: Seq<ValidatorInfo>,
    votes: Map<Slot, Digest>,
    height: u64,
    a: Digest,
    b: Digest,
)
    requires
        quorum(validators, voters(votes, height, a)),
        quorum(validators, voters(votes, height, b)),
    ensures
        a == b,
{
    if a != b {
        assert(voters(votes, height, a).disjoint(voters(votes, height, b)));
        disjoint_groups_share_no_quorum(
            validators,
            voters(votes, height, a),
            voters(votes, height, b),
        );
    }
}

/// A vote replaces the voter's earlier one: it counts for the new block only, and
/// nobody else's vote moves.
pub proof fn vote_replaces(
    votes: Map<Slot, Digest>,
    height: u64,
    voter: ValidatorId,
    hash: Digest,
)
    ensures
        ({
            let after = votes.insert(Slot { height, id: voter }, hash);
            &&& voters(after, height, hash) == voters(votes, height, hash).insert(voter)
            &&& forall|other: Digest|
                other != hash ==> #[trigger] voters(after, height, other) == voters(
                    votes,
                    height,
                    other,
                ).remove(voter)
            &&& forall|h: u64, x: Digest|
                h != height ==> #[trigger] voters(after, h, x) == voters(votes, h, x)
        }),
{
    let after = votes.insert(Slot { height, id: voter }, hash);
    assert(voters(after, height, hash) =~= voters(votes, height, hash).insert(voter));
    assert forall|other: Digest| other != hash implies #[trigger] voters(after, height, other)
        == voters(votes, height, other).remove(voter) by {
        assert(voters(after, height, other) =~= voters(votes, height, other).remove(voter));
    }
    assert forall|h: u64, x: Digest| h != height implies #[trigger] voters(after, h, x) == voters(
        votes,
        h,
        x,
    ) by {
        assert(voters(after, h, x) =~= voters(votes, h, x));
    }
}

proof fn quorum_is_backed(
    validators: Seq<ValidatorInfo>,
    votes: Map<Slot, Digest>,
    height: u64,
    hash: Digest,
)
    requires
        quorum(validators, voters(votes, height, hash)),
    ensures
        backed(votes, height, hash),
{
    if !backed(votes, height, hash) {
        assert(voters(votes, height, hash) =~= Set::<ValidatorId>::empty());
        stake_of_none(validators);
    }
}

/// What the votes of a height ask the engine to do.
pub enum Choice {
    /// Nothing.
    Stay,
    /// Finalize the block.
    Elect(Digest),
    /// Move the own vote to the block.
    Move(Digest),
}

/// The choice at `height`. Only the next height is ever decided.
pub open spec fn choice_at(s: State, order: Seq<ValidatorId>, height: u64) -> Choice {
    let us = Slot { height, id: s.config.validator_id };
    if height != tip_height(s) + 1 {
        Choice::Stay
    } else {
        match winner_of(s, height) {
            Some(hash) => Choice::Elect(hash),
            None => match leader_of(s, order, height) {
                Some(hash) => if is_active_in(s.validators, s.config.validator_id) && !(
                s.v2_votes.contains_key(us) && s.v2_votes[us] == hash) {
                    Choice::Move(hash)
                } else {
                    Choice::Stay
                },
                None => Choice::Stay,
            },
        }
    }
}

/// The state with this node's vote moved to `hash`, for the node to broadcast.
pub open spec fn vote_moved(s: State, height: u64, hash: Digest) -> State {
    State {
        v2_votes: s.v2_votes.insert(Slot { height, id: s.config.validator_id }, hash),
        v2_revotes: s.v2_revotes.push((height, hash)),
        ..s
    }
}

/// `attestations` holds one attestation of the block for each of `ids`.
pub open spec fn attests(
    attestations: Seq<Attestation>,
    height: u64,
    hash: Digest,
    ids: Set<ValidatorId>,
) -> bool {
    &&& forall|i: int|
        0 <= i < attestations.len() ==> (#[trigger] attestations[i]).block_height == height
            && attestations[i].block_hash == hash && ids.contains(attestations[i].validator_id)
    &&& forall|i: int, j: int|
        0 <= i < j < attestations.len() ==> (#[trigger] attestations[i]).validator_id != (
        #[trigger] attestations[j]).validator_id
    &&& forall|id: ValidatorId| #[trigger]
        ids.contains(id) ==> exists|i: int|
            0 <= i < attestations.len() && (#[trigger] attestations[i]).validator_id == id
}

/// The state with the candidate taken out to be finalized.
pub open spec fn candidate_taken(s: State, height: u64, hash: Digest) -> State {
    State {
        v2_blocks: s.v2_blocks.remove(Slot { height, id: hash }),
        ..without_pending(s, height)
    }
}

/// What finalizing a candidate starts with. Its attestations are the current votes
/// for it.
pub open spec fn candidate_finalized<S: StateStore>(
    s: State,
    store: S,
    height: u64,
    hash: Digest,
    after: State,
    new_store: S,
    step: StepView,
) -> bool {
    let slot = Slot { height, id: hash };
    if s.v2_blocks.contains_key(slot) {
        exists|attestations: Seq<Attestation>| #[trigger]
            attests(attestations, height, hash, voters(s.v2_votes, height, hash))
                && finalization_started(
                candidate_taken(s, height, hash),
                store,
                JobView { pending: s.v2_blocks[slot], attestations, fork_choice: true },
                after,
                new_store,
                step,
            )
    } else {
        after == s && new_store == store && step == StepView::Idle
    }
}

/// What re-evaluating the votes of a height does.
pub open spec fn reevaluated<S: StateStore>(
    s: State,
    store: S,
    order: Seq<ValidatorId>,
    height: u64,
    after: State,
    new_store: S,
    step: StepView,
) -> bool {
    match choice_at(s, order, height) {
        Choice::Stay => after == s && new_store == store && step == StepView::Idle,
        Choice::Elect(hash) => candidate_finalized(s, store, height, hash, after, new_store, step),
        Choice::Move(hash) => {
            let moved = vote_moved(s, height, hash);
            if quorum(moved.validators, voters(moved.v2_votes, height, hash)) {
                candidate_finalized(moved, store, height, hash, after, new_store, step)
            } else {
                after == moved && new_store == store && step == StepView::Idle
            }
        },
    }
}

/// The state with a block received from a peer among the candidates.
pub open spec fn with_candidate(
    s: State,
    header: HeaderView,
    operations: Seq<OperationView>,
    now: Now,
) -> State {
    let slot = Slot { height: header.height, id: hash_of(header) };
    if s.v2_blocks.contains_key(slot) {
        s
    } else {
        State { v2_blocks: s.v2_blocks.insert(slot, received(header, operations, now.mono_ms)), ..s }
    }
}

/// The state with a validator's vote recorded.
pub open spec fn with_vote(s: State, voter: ValidatorId, height: u64, hash: Digest) -> State {
    State { v2_votes: s.v2_votes.insert(Slot { height, id: voter }, hash), ..s }
}

/// A block that fork choice elects is at hand, did not fail execution, is the next
/// one, and validators with more than two thirds of the stake vote for it.
pub proof fn elected_has_quorum(s: State, order: Seq<ValidatorId>, height: u64, hash: Digest)
    requires
        choice_at(s, order, height) == Choice::Elect(hash),
    ensures
        height == tip_height(s) + 1,
        eligible(s, height, hash),
        quorum(s.validators, voters(s.v2_votes, height, hash)),
{
}

/// This node votes only for a block that is at hand, did not fail execution and
/// leads, and only for the next height.
pub proof fn own_vote_follows_leader(s: State, order: Seq<ValidatorId>, height: u64, hash: Digest)
    requires
        choice_at(s, order, height) == Choice::Move(hash),
    ensures
        height == tip_height(s) + 1,
        eligible(s, height, hash),
        leads(s, order, height, hash),
        is_active_in(s.validators, s.config.validator_id),
{
}

/// A block that failed execution is neither elected nor voted for by this node.
pub proof fn invalid_never_chosen(s: State, order: Seq<ValidatorId>, height: u64, hash: Digest)
    requires
        s.v2_invalid.contains_key(Slot { height, id: hash }),
    ensures
        choice_at(s, order, height) != Choice::Elect(hash),
        choice_at(s, order, height) != Choice::Move(hash),
{
}

/// The votes for one block.
#[derive(Debug)]
pub struct Tally {
    pub hash: Digest,
    pub voters: Vec<ValidatorId>,
}

/// `tally` lists every block with votes at `height` once, each with its voters.
pub open spec fn tallies(tally: Seq<Tally>, votes: Map<Slot, Digest>, height: u64) -> bool {
    &&& forall|i: int|
        0 <= i < tally.len() ==> (#[trigger] tally[i]).voters@.to_set() == voters(
            votes,
            height,
            tally[i].hash,
        ) && tally[i].voters@.no_duplicates() && backed(votes, height, tally[i].hash)
    &&& forall|i: int, j: int|
        0 <= i < j < tally.len() ==> (#[trigger] tally[i]).hash != (#[trigger] tally[j]).hash
    &&& forall|hash: Digest| #[trigger]
        backed(votes, height, hash) ==> exists|i: int|
            0 <= i < tally.len() && (#[trigger] tally[i]).hash == hash
}

/// The place of `id` in the proposer order; the last of all where it has none.
pub fn rank_of(order: &Vec<ValidatorId>, id: &ValidatorId) -> (place: usize)
    ensures
        place == rank(order@, *id),
{
    let mut i: usize = 0;
    while i < order.len()
        invariant
            i <= order@.len(),
            forall|j: int| 0 <= j < i ==> order@[j] != *id,
        decreases order@.len() - i,
    {
        if same_hash(&order[i], id) {
            assert(first_place(order@, *id, i as int));
            let ghost k = choose|k: int| first_place(order@, *id, k);
            assert(k == i) by {
                if k < i {
                    assert(order@[k] != *id);
                } else if i < k {
                    assert(order@[i as int] != *id);
                }
            }
            return i;
        }
        i += 1;
    }
    assert forall|k: int| !first_place(order@, *id, k) by {
        if 0 <= k < order@.len() {
            assert(order@[k] != *id);
        }
    }
    usize::MAX
}

/// One of `entries` is a vote of `id` for `hash` at `height`.
spec fn votes_among(
    entries: Seq<(Slot, Vote)>,
    height: u64,
    hash: Digest,
    id: ValidatorId,
) -> bool {
    exists|j: int|
        0 <= j < entries.len() && (#[trigger] entries[j]).0 == (Slot { height, id })
            && entries[j].1.hash == hash
}

/// The validators whose current vote at `height` is for `hash`.
fn voter_list(votes: &Table<Slot, Vote>, height: u64, hash: &Digest) -> (ids: Vec<ValidatorId>)
    requires
        votes.wf(),
    ensures
        ids@.no_duplicates(),
        ids@.to_set() == voters(votes@, height, *hash),
{
    let ghost entries = votes.entries@;
    let mut ids: Vec<ValidatorId> = Vec::new();
    let mut i: usize = 0;
    while i < votes.entries.len()
        invariant
            i <= entries.len(),
            votes.wf(),
            entries == votes.entries@,
            ids@.no_duplicates(),
            forall|k: int|
                0 <= k < ids@.len() ==> votes_among(
                    entries.take(i as int),
                    height,
                    *hash,
                    #[trigger] ids@[k],
                ),
            forall|j: int|
                0 <= j < i && (#[trigger] entries[j]).0.height == height && entries[j].1.hash
                    == *hash ==> ids@.contains(entries[j].0.id),
        decreases entries.len() - i,
    {
        let ghost known = ids@;
        let ghost upto = entries.take(i as int);
        let ghost further = entries.take(i + 1);
        let key = votes.key_at(i);
        proof {
            assert forall|id: ValidatorId| #[trigger]
                votes_among(upto, height, *hash, id) implies votes_among(
                further,
                height,
                *hash,
                id,
            ) by {
                let j = choose|j: int|
                    0 <= j < upto.len() && (#[trigger] upto[j]).0 == (Slot { height, id })
                        && upto[j].1.hash == *hash;
                assert(further[j] == upto[j]);
            }
        }
        if key.height == height && same_hash(&votes.value_at(i).hash, hash) {
            proof {
                if known.contains(key.id) {
                    let k = choose|k: int| 0 <= k < known.len() && known[k] == key.id;
                    let j = choose|j: int|
                        0 <= j < upto.len() && (#[trigger] upto[j]).0 == (Slot {
                            height,
                            id: known[k],
                        }) && upto[j].1.hash == *hash;
                    assert(entries[j].0 != entries[i as int].0);
                }
            }
            ids.push(key.id);
            proof {
                assert(ids@[known.len() as int] == key.id);
                assert forall|k: int| 0 <= k < ids@.len() implies votes_among(
                    further,
                    height,
                    *hash,
                    #[trigger] ids@[k],
                ) by {
                    if k < known.len() {
                        assert(ids@[k] == known[k]);
                        assert(votes_among(upto, height, *hash, known[k]));
                    } else {
                        assert(further[i as int].0 == (Slot { height, id: ids@[k] }));
                    }
                }
                assert forall|j: int|
                    0 <= j < i + 1 && (#[trigger] entries[j]).0.height == height
                        && entries[j].1.hash == *hash implies ids@.contains(entries[j].0.id) by {
                    if j < i {
                        let k = choose|k: int| 0 <= k < known.len() && known[k] == entries[j].0.id;
                        assert(ids@[k] == entries[j].0.id);
                    }
                }
            }
        }
        i += 1;
    }
    proof {
        let group = voters(votes@, height, *hash);
        assert forall|id: ValidatorId| ids@.to_set().contains(id) <==> group.contains(id) by {
            if ids@.contains(id) {
                let k = choose|k: int| 0 <= k < ids@.len() && ids@[k] == id;
                let whole = entries.take(i as int);
                assert(votes_among(whole, height, *hash, ids@[k]));
                let j = choose|j: int|
                    0 <= j < whole.len() && (#[trigger] whole[j]).0 == (Slot {
                        height,
                        id: ids@[k],
                    }) && whole[j].1.hash == *hash;
                votes.held(j);
            }
            if group.contains(id) {
                let j = votes.entry_of(Slot { height, id });
                assert(entries[j].0.height == height);
            }
        }
        assert(ids@.to_set() =~= group);
    }
    ids
}

/// The blocks that have votes at `height`.
fn voted_hashes(votes: &Table<Slot, Vote>, height: u64) -> (hashes: Vec<Digest>)
    requires
        votes.wf(),
    ensures
        hashes@.no_duplicates(),
        forall|hash: Digest| #[trigger] backed(votes@, height, hash) <==> hashes@.contains(hash),
{
    let ghost entries = votes.entries@;
    let mut hashes: Vec<Digest> = Vec::new();
    let mut i: usize = 0;
    while i < votes.entries.len()
        invariant
            i <= entries.len(),
            votes.wf(),
            entries == votes.entries@,
            hashes@.no_duplicates(),
            forall|k: int|
                0 <= k < hashes@.len() ==> exists|j: int|
                    0 <= j < i && (#[trigger] entries[j]).0.height == height && entries[j].1.hash
                        == #[trigger] hashes@[k],
            forall|j: int|
                0 <= j < i && (#[trigger] entries[j]).0.height == height ==> hashes@.contains(
                    entries[j].1.hash,
                ),
        decreases entries.len() - i,
    {
        let ghost known = hashes@;
        if votes.key_at(i).height == height {
            let hash = votes.value_at(i).hash;
            if !crate::validator::contains_id(&hashes, &hash) {
                hashes.push(hash);
                proof {
                    assert(hashes@[known.len() as int] == hash);
                    assert forall|k: int| 0 <= k < hashes@.len() implies exists|j: int|
                        0 <= j < i + 1 && (#[trigger] entries[j]).0.height == height
                            && entries[j].1.hash == #[trigger] hashes@[k] by {
                        if k < known.len() {
                            assert(hashes@[k] == known[k]);
                        } else {
                            assert(entries[i as int].1.hash == hashes@[k]);
                        }
                    }
                    assert forall|j: int|
                        0 <= j < i + 1 && (#[trigger] entries[j]).0.height
                            == height implies hashes@.contains(entries[j].1.hash) by {
                        if j < i {
                            let k = choose|k: int|
                                0 <= k < known.len() && known[k] == entries[j].1.hash;
                            assert(hashes@[k] == entries[j].1.hash);
                        }
                    }
                }
            }
        }
        i += 1;
    }
    proof {
        assert forall|hash: Digest| #[trigger] backed(votes@, height, hash) <==> hashes@.contains(
            hash,
        ) by {
            if hashes@.contains(hash) {
                let k = choose|k: int| 0 <= k < hashes@.len() && hashes@[k] == hash;
                let j = choose|j: int|
                    0 <= j < i && (#[trigger] entries[j]).0.height == height && entries[j].1.hash
                        == hashes@[k];
                votes.held(j);
                assert(entries[j].0 == (Slot { height, id: entries[j].0.id }));
                assert(voters(votes@, height, hash).contains(entries[j].0.id));
            }
            if backed(votes@, height, hash) {
                let id = choose|id: ValidatorId| #[trigger]
                    voters(votes@, height, hash).contains(id);
                let j = votes.entry_of(Slot { height, id });
                assert(entries[j].0.height == height);
            }
        }
    }
    hashes
}

impl<S: StateStore> ConsensusEngine<S> {
    /// The current votes at `height`, by block.
    pub fn v2_tally(&self, height: u64) -> (tally: Vec<Tally>)
        requires
            self.inv(),
        ensures
            tallies(tally@, self@.v2_votes, height),
    {
        let hashes = voted_hashes(&self.v2_votes, height);
        let mut tally: Vec<Tally> = Vec::new();
        let mut i: usize = 0;
        while i < hashes.len()
            invariant
                i <= hashes@.len(),
                self.inv(),
                tally@.len() == i,
                hashes@.no_duplicates(),
                forall|hash: Digest| #[trigger]
                    backed(self@.v2_votes, height, hash) <==> hashes@.contains(hash),
                forall|j: int|
                    0 <= j < i ==> (#[trigger] tally@[j]).hash == hashes@[j]
                        && tally@[j].voters@.to_set() == voters(
                        self@.v2_votes,
                        height,
                        tally@[j].hash,
                    ) && tally@[j].voters@.no_duplicates(),
            decreases hashes@.len() - i,
        {
            let hash = hashes[i];
            tally.push(Tally { hash, voters: voter_list(&self.v2_votes, height, &hash) });
            i += 1;
        }
        proof {
            assert forall|j: int| 0 <= j < tally@.len() implies backed(
                self@.v2_votes,
                height,
                (#[trigger] tally@[j]).hash,
            ) by {
                assert(hashes@.contains(hashes@[j]));
            }
            assert forall|hash: Digest| #[trigger]
                backed(self@.v2_votes, height, hash) implies exists|j: int|
                0 <= j < tally@.len() && (#[trigger] tally@[j]).hash == hash by {
                let j = choose|j: int| 0 <= j < hashes@.len() && hashes@[j] == hash;
                assert(tally@[j].hash == hash);
            }
        }
        tally
    }

    /// The leading candidate of `tally` at `height`: of those at hand that did not
    /// fail execution, none has more stake behind it, or as much and a better
    /// proposer rank, or both alike and a smaller hash.
    pub fn v2_leader(&self, height: u64, tally: &Vec<Tally>, order: &Vec<ValidatorId>) -> (leader:
        Option<Digest>)
        requires
            self.inv(),
        ensures
            match leader {
                Some(hash) => exists|i: int|
                    0 <= i < tally@.len() && (#[trigger] tally@[i]).hash == hash && eligible(
                        self@,
                        height,
                        hash,
                    ) && forall|j: int|
                        0 <= j < tally@.len() && eligible(
                            self@,
                            height,
                            (#[trigger] tally@[j]).hash,
                        ) ==> !ahead(
                            standing_with(
                                self@,
                                order@,
                                height,
                                tally@[j].hash,
                                tally@[j].voters@.to_set(),
                            ),
                            standing_with(
                                self@,
                                order@,
                                height,
                                hash,
                                tally@[i].voters@.to_set(),
                            ),
                        ),
                None => forall|j: int|
                    0 <= j < tally@.len() ==> !eligible(self@, height, (#[trigger] tally@[j]).hash),
            },
            leader matches Some(hash) ==> exists|i: int|
                0 <= i < tally@.len() && (#[trigger] tally@[i]).hash == hash
                    && self@.v2_blocks.contains_key(Slot { height, id: hash }) && forall|j: int|
                    0 <= j < tally@.len() && self@.v2_blocks.contains_key(
                        Slot { height, id: (#[trigger] tally@[j]).hash },
                    ) && !self@.v2_invalid.contains_key(Slot { height, id: tally@[j].hash })
                        ==> stake_in(self@.validators, tally@[j].voters@.to_set()) <= stake_in(
                        self@.validators,
                        tally@[i].voters@.to_set(),
                    ),
    {
        let ghost state = self@;
        let ghost shown = |j: int|
            standing_with(state, order@, height, tally@[j].hash, tally@[j].voters@.to_set());
        let mut best: Option<(usize, u128, usize)> = None;
        let mut i: usize = 0;
        while i < tally.len()
            invariant
                i <= tally@.len(),
                self.inv(),
                state == self@,
                shown == (|j: int|
                    standing_with(
                        state,
                        order@,
                        height,
                        tally@[j].hash,
                        tally@[j].voters@.to_set(),
                    )),
                match best {
                    Some((b, stake, place)) => b < i && eligible(
                        state,
                        height,
                        tally@[b as int].hash,
                    ) && shown(b as int).stake == stake && shown(b as int).rank == place
                        && forall|j: int|
                        0 <= j < i && eligible(state, height, (#[trigger] tally@[j]).hash)
                            ==> !ahead(shown(j), shown(b as int)),
                    None => forall|j: int|
                        0 <= j < i ==> !eligible(state, height, (#[trigger] tally@[j]).hash),
                },
            decreases tally@.len() - i,
        {
            let slot = Slot { height, id: tally[i].hash };
            let at_hand = self.v2_blocks.get(slot);
            if let Some(candidate) = at_hand {
                if !self.v2_invalid.contains(slot) {
                    let stake = self.validator_set.stake_of(&tally[i].voters);
                    let place = rank_of(order, &candidate.header.proposer);
                    assert(eligible(state, height, tally@[i as int].hash));
                    assert(shown(i as int).stake == stake && shown(i as int).rank == place);
                    let better = match best {
                        None => true,
                        Some((b, best_stake, best_place)) => stake > best_stake || (stake
                            == best_stake && (place < best_place || (place == best_place
                            && hash_less(&tally[i].hash, &tally[b].hash)))),
                    };
                    proof {
                        standings_strict(shown(i as int), shown(i as int));
                        if let Some((b, best_stake, best_place)) = best {
                            assert(better == ahead(shown(i as int), shown(b as int)));
                            if better {
                                assert forall|j: int|
                                    0 <= j < i + 1 && eligible(
                                        state,
                                        height,
                                        (#[trigger] tally@[j]).hash,
                                    ) implies !ahead(shown(j), shown(i as int)) by {
                                    if j < i && ahead(shown(j), shown(i as int)) {
                                        standings_transitive(
                                            shown(j),
                                            shown(i as int),
                                            shown(b as int),
                                        );
                                    }
                                }
                            }
                        }
                    }
                    if better {
                        best = Some((i, stake, place));
                    }
                }
            }
            i += 1;
        }
        match best {
            Some((b, _, _)) => {
                let leader = tally[b].hash;
                assert forall|j: int|
                    0 <= j < tally@.len() && eligible(
                        self@,
                        height,
                        (#[trigger] tally@[j]).hash,
                    ) implies !ahead(
                    standing_with(
                        self@,
                        order@,
                        height,
                        tally@[j].hash,
                        tally@[j].voters@.to_set(),
                    ),
                    standing_with(
                        self@,
                        order@,
                        height,
                        leader,
                        tally@[b as int].voters@.to_set(),
                    ),
                ) by {
                    assert(!ahead(shown(j), shown(b as int)));
                }
                assert forall|j: int|
                    0 <= j < tally@.len() && eligible(
                        self@,
                        height,
                        (#[trigger] tally@[j]).hash,
                    ) implies stake_in(self@.validators, tally@[j].voters@.to_set()) <= stake_in(
                    self@.validators,
                    tally@[b as int].voters@.to_set(),
                ) by {
                    assert(!ahead(shown(j), shown(b as int)));
                }
                Some(leader)
            },
            None => None,
        }
    }

    /// The candidate that has a quorum at `height`.
    fn v2_winner(&self, height: u64, tally: &Vec<Tally>) -> (winner: Option<Digest>)
        requires
            self.inv(),
            tallies(tally@, self@.v2_votes, height),
        ensures
            winner == winner_of(self@, height),
    {
        let mut i: usize = 0;
        while i < tally.len()
            invariant
                i <= tally@.len(),
                self.inv(),
                tallies(tally@, self@.v2_votes, height),
                forall|j: int|
                    0 <= j < i ==> !winning(self@, height, (#[trigger] tally@[j]).hash),
            decreases tally@.len() - i,
        {
            let slot = Slot { height, id: tally[i].hash };
            if !self.v2_invalid.contains(slot) && self.validator_set.has_quorum(&tally[i].voters)
                && self.v2_blocks.contains(slot) {
                let winner = tally[i].hash;
                proof {
                    winner_unique(self@, height, winner, winner);
                }
                return Some(winner);
            }
            i += 1;
        }
        proof {
            assert forall|hash: Digest| !#[trigger] winning(self@, height, hash) by {
                if winning(self@, height, hash) {
                    quorum_is_backed(self@.validators, self@.v2_votes, height, hash);
                    let j = choose|j: int|
                        0 <= j < tally@.len() && (#[trigger] tally@[j]).hash == hash;
                    assert(!winning(self@, height, tally@[j].hash));
                }
            }
        }
        None
    }

    /// Starts to finalize a candidate.
    pub fn v2_finalize(&mut self, height: u64, hash: &Digest) -> (step: Step)
        requires
            old(self).inv(),
        ensures
            final(self).inv(),
            candidate_finalized(
                old(self)@,
                old(self).store,
                height,
                *hash,
                final(self)@,
                final(self).store,
                step@,
            ),
    {
        let ghost before = self@;
        let pending = match self.v2_blocks.remove(Slot { height, id: *hash }) {
            Some(pending) => pending,
            None => {
                assert(self@ =~= before);
                return Step::Idle;
            },
        };
        let ids = voter_list(&self.v2_votes, height, hash);
        let mut attestations: Vec<Attestation> = Vec::new();
        let mut i: usize = 0;
        while i < ids.len()
            invariant
                i <= ids@.len(),
                attestations@.len() == i,
                forall|j: int|
                    0 <= j < i ==> (#[trigger] attestations@[j]) == (Attestation {
                        validator_id: ids@[j],
                        block_height: height,
                        block_hash: *hash,
                    }),
            decreases ids@.len() - i,
        {
            attestations.push(
                Attestation { validator_id: ids[i], block_height: height, block_hash: *hash },
            );
            i += 1;
        }
        proof {
            let group = voters(before.v2_votes, height, *hash);
            assert(ids@.to_set() == group);
            assert forall|j: int| 0 <= j < attestations@.len() implies group.contains(
                (#[trigger] attestations@[j]).validator_id,
            ) by {
                assert(ids@.to_set().contains(ids@[j]));
            }
            assert forall|id: ValidatorId| #[trigger] group.contains(id) implies exists|j: int|
                0 <= j < attestations@.len() && (#[trigger] attestations@[j]).validator_id == id by {
                assert(ids@.to_set().contains(id));
                let j = choose|j: int| 0 <= j < ids@.len() && ids@[j] == id;
                assert(attestations@[j].validator_id == id);
            }
            assert(attests(attestations@, height, *hash, group));
        }
        let _ = self.pending_blocks.remove(height);
        let _ = self.pending_attestations.remove(height);
        assert(self@ =~= candidate_taken(before, height, *hash));
        self.start_finalization(ExecutionJob { pending, attestations, fork_choice: true })
    }

    /// Re-evaluates the votes of `height`: finalizes the candidate with a quorum,
    /// or else moves this node's vote to the leading one.
    pub fn v2_reevaluate(&mut self, height: u64, order: &Vec<ValidatorId>) -> (step: Step)
        requires
            old(self).inv(),
        ensures
            final(self).inv(),
            reevaluated(
                old(self)@,
                old(self).store,
                order@,
                height,
                final(self)@,
                final(self).store,
                step@,
            ),
    {
        let ghost before = self@;
        let tip = self.height();
        if tip == u64::MAX || height != tip + 1 {
            return Step::Idle;
        }
        let tally = self.v2_tally(height);
        match self.v2_winner(height, &tally) {
            Some(hash) => {
                return self.v2_finalize(height, &hash);
            },
            None => {},
        }
        let leader = match self.v2_leader(height, &tally, order) {
            Some(hash) => hash,
            None => {
                proof {
                    assert forall|hash: Digest| !#[trigger] leads(before, order@, height, hash) by {
                        if leads(before, order@, height, hash) {
                            let j = choose|j: int|
                                0 <= j < tally@.len() && (#[trigger] tally@[j]).hash == hash;
                            assert(!eligible(before, height, tally@[j].hash));
                        }
                    }
                }
                return Step::Idle;
            },
        };
        proof {
            let i = choose|i: int|
                0 <= i < tally@.len() && (#[trigger] tally@[i]).hash == leader && eligible(
                    before,
                    height,
                    leader,
                ) && forall|j: int|
                    0 <= j < tally@.len() && eligible(before, height, (#[trigger] tally@[j]).hash)
                        ==> !ahead(
                        standing_with(
                            before,
                            order@,
                            height,
                            tally@[j].hash,
                            tally@[j].voters@.to_set(),
                        ),
                        standing_with(before, order@, height, leader, tally@[i].voters@.to_set()),
                    );
            assert forall|other: Digest|
                other != leader && eligible(before, height, other) && #[trigger] backed(
                    before.v2_votes,
                    height,
                    other,
                ) implies ahead(
                standing(before, order@, height, leader),
                standing(before, order@, height, other),
            ) by {
                let j = choose|j: int|
                    0 <= j < tally@.len() && (#[trigger] tally@[j]).hash == other;
                standings_total(
                    standing(before, order@, height, leader),
                    standing(before, order@, height, other),
                );
                assert(eligible(before, height, tally@[j].hash));
            }
            assert(leads(before, order@, height, leader));
            leader_unique(before, order@, height, leader, leader);
        }
        let own = self.config.validator_id;
        if !self.validator_set.is_active_validator(&own) {
            return Step::Idle;
        }
        let us = Slot { height, id: own };
        let same = match self.v2_votes.get(us) {
            Some(vote) => same_hash(&vote.hash, &leader),
            None => false,
        };
        if same {
            return Step::Idle;
        }
        self.v2_votes.insert(us, Vote { hash: leader });
        self.v2_revotes.push((height, leader));
        assert(self@ =~= vote_moved(before, height, leader));
        let ids = voter_list(&self.v2_votes, height, &leader);
        if self.validator_set.has_quorum(&ids) {
            return self.v2_finalize(height, &leader);
        }
        Step::Idle
    }

    /// Adds a block to the candidates of its height.
    pub fn v2_record_block(
        &mut self,
        header: &BlockHeader,
        operations: &Vec<UserOperation>,
        order: &Vec<ValidatorId>,
        now: Now,
    ) -> (step: Step)
        requires
            old(self).inv(),
        ensures
            final(self).inv(),
            reevaluated(
                with_candidate(old(self)@, header@, views(operations@), now),
                old(self).store,
                order@,
                header@.height,
                final(self)@,
                final(self).store,
                step@,
            ),
    {
        let ghost before = self@;
        let slot = Slot { height: header.height, id: block_hash(header) };
        if !self.v2_blocks.contains(slot) {
            let pending = PendingBlock {
                header: header.clone(),
                operations: copy_list(operations),
                proposed_at_ms: now.mono_ms,
                already_executed: false,
                result: None,
                revert: None,
                mismatch_count: 0,
            };
            assert(pending@ == received(header@, views(operations@), now.mono_ms));
            self.v2_blocks.insert(slot, pending);
        }
        assert(self@ =~= with_candidate(before, header@, views(operations@), now));
        self.v2_reevaluate(header.height, order)
    }

    /// Records a validator's vote, in place of its earlier one.
    pub fn v2_record_vote(
        &mut self,
        voter: &ValidatorId,
        height: u64,
        hash: &Digest,
        order: &Vec<ValidatorId>,
    ) -> (step: Step)
        requires
            old(self).inv(),
        ensures
            final(self).inv(),
            reevaluated(
                with_vote(old(self)@, *voter, height, *hash),
                old(self).store,
                order@,
                height,
                final(self)@,
                final(self).store,
                step@,
            ),
    {
        let ghost before = self@;
        self.v2_votes.insert(Slot { height, id: *voter }, Vote { hash: *hash });
        assert(self@ =~= with_vote(before, *voter, height, *hash));
        self.v2_reevaluate(height, order)
    }
}

} // verus!
