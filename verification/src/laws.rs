//! What holds of the engine as a whole.
use vstd::prelude::*;
use vstd::string::*;

use crate::accept::{
    accepted, admissible, attest_step, attested, attested_pending, conflicts_at, equivocation,
    finalized_height, first_conflict, in_window, made_pending, offered, with_attestation,
    AcceptOutcome, AttestOutcome,
};
use crate::bytes::{Digest, ValidatorId};
use crate::checkpoint::{checkpoint_conflict, violates_trusted, TrustedCheckpoint};
use crate::codec::{
    block_key_of, block_keys_distinct, chain_meta_key_of, eager_revert_key_of, hash_of,
    meta_record_round_trip, recorded_meta,
};
use crate::commit::{appended, block_stored, committed, produced_alone, prunes, pruned_keys};
use crate::engine::{
    attestations_filed, attested_once, attests_only, boot_reconciled, filed, initial_state,
    signed_by_validator, tip_height, validly_signed, JobView, Now, SealedView, State, StepView,
};
use crate::epoch::StakingValidator;
use crate::finality::{
    attestations_at, attesters, finalized_count, may_finalize, rejected, retained, sealed_block,
    timed_out_at, ExecutionView, TimeoutAction,
};
use crate::fork_choice::{
    attests, choice_at, eligible, reevaluated, voters, winner_unique, winning, with_candidate,
    Choice,
};
use crate::journal::{contiguous, recorded};
use crate::lists::filter_of_all;
use crate::produce::{
    attestation_persisted, next_header, next_timestamp, own_pending, pending_proposed, published,
    signed_header, ProduceStep,
};
use crate::recovery::{
    eager_at, eager_plan, ran_eagerly, repaired, reset_state, restored, rolled_back, tip_root, Source,
};
use crate::store::{
    apply_delta, durable_plan, durable_record, lookup, undo_all, undoes, Contents, Plan, StateStore,
};
use crate::sync::replayable;
use crate::table::Slot;
use crate::types::{Attestation, BlockView, Delta, EngineConfig, HeaderView, OperationView, ResultView};
use crate::validator::{
    active_stake, count_active, is_active_in, quorum, quorums_intersect, stake_in, ValidatorInfo,
};

verus! {

/// Safety: where one node counts a quorum for one block and another node counts a
/// quorum for another block of the same height, validators with more than a third
/// of the active stake voted for both.
pub proof fn conflicting_quorums_need_equivocation(
    validators: Seq<ValidatorInfo>,
    votes: Map<Slot, Digest>,
    other_votes: Map<Slot, Digest>,
    height: u64,
    a: Digest,
    b: Digest,
)
    requires
        quorum(validators, voters(votes, height, a)),
        quorum(validators, voters(other_votes, height, b)),
    ensures
        3 * stake_in(
            validators,
            voters(votes, height, a).intersect(voters(other_votes, height, b)),
        ) > active_stake(validators),
{
    quorums_intersect(validators, voters(votes, height, a), voters(other_votes, height, b));
}

/// Liveness: once every active validator votes for one block that is at hand and
/// did not fail execution, that block has won.
pub proof fn unanimous_vote_wins(s: State, height: u64, hash: Digest)
    requires
        eligible(s, height, hash),
        active_stake(s.validators) > 0,
        forall|id: ValidatorId| #[trigger]
            is_active_in(s.validators, id) ==> voters(s.v2_votes, height, hash).contains(id),
    ensures
        winning(s, height, hash),
{
    let group = voters(s.v2_votes, height, hash);
    active_members_hold_all(s.validators, group);
}

proof fn active_members_hold_all(s: Seq<ValidatorInfo>, group: Set<ValidatorId>)
    requires
        forall|id: ValidatorId| #[trigger] is_active_in(s, id) ==> group.contains(id),
    ensures
        stake_in(s, group) == active_stake(s),
    decreases s.len(),
{
    if s.len() > 0 {
        let shorter = s.drop_last();
        assert forall|id: ValidatorId| #[trigger] is_active_in(shorter, id) implies group.contains(
            id,
        ) by {
            let i = choose|i: int|
                0 <= i < shorter.len() && (#[trigger] shorter[i]).id == id && shorter[i].active();
            assert(s[i].id == id && s[i].active());
            assert(is_active_in(s, id));
        }
        active_members_hold_all(shorter, group);
        if s.last().active() {
            assert(s[s.len() - 1].active());
            assert(is_active_in(s, s.last().id));
        }
    }
}

/// The block that a step is about, with its attestations.
pub open spec fn step_subject(step: StepView) -> Option<(HeaderView, Seq<Attestation>)> {
    match step {
        StepView::Idle => None,
        StepView::Execute(job) => Some((job.pending.header, job.attestations)),
        StepView::Commit(sealed) => Some((sealed.block.header, sealed.block.attestations)),
    }
}

/// Every attestation of `list` is of the block with that header, and no two are of one
/// validator.
pub open spec fn attest_block(list: Seq<Attestation>, header: HeaderView) -> bool {
    attested_once(list, header.height) && attests_only(list, hash_of(header))
}

proof fn attests_quorum(
    validators: Seq<ValidatorInfo>,
    attestations: Seq<Attestation>,
    height: u64,
    hash: Digest,
    ids: Set<ValidatorId>,
)
    requires
        attests(attestations, height, hash, ids),
        quorum(validators, ids),
    ensures
        quorum(validators, attesters(attestations)),
{
    assert(attesters(attestations) =~= ids);
}

/// A block that fork choice sends on its way to the chain is the next block, did
/// not fail execution, and carries attestations of a quorum, each of that very block
/// and no two of one validator.
pub proof fn fork_choice_finalizes_with_quorum<S: StateStore>(
    s: State,
    store: S,
    order: Seq<ValidatorId>,
    height: u64,
    after: State,
    new_store: S,
    step: StepView,
)
    requires
        filed(s),
        reevaluated(s, store, order, height, after, new_store, step),
        step !is Idle,
    ensures
        step_subject(step) matches Some(subject) && {
            &&& subject.0.height == tip_height(s) + 1
            &&& !s.v2_invalid.contains_key(Slot { height, id: hash_of(subject.0) })
            &&& attest_block(subject.1, subject.0)
            &&& quorum(s.validators, attesters(subject.1))
        },
{
    let (from, hash) = match choice_at(s, order, height) {
        Choice::Elect(hash) => (s, hash),
        Choice::Move(hash) => (crate::fork_choice::vote_moved(s, height, hash), hash),
        Choice::Stay => (s, hash_of(s.chain.last().header)),
    };
    let slot = Slot { height, id: hash };
    let group = voters(from.v2_votes, height, hash);
    assert(from.v2_blocks.contains_key(slot));
    let attestations = choose|attestations: Seq<Attestation>| #[trigger]
        attests(attestations, height, hash, group)
            && crate::finality::finalization_started(
            crate::fork_choice::candidate_taken(from, height, hash),
            store,
            JobView { pending: from.v2_blocks[slot], attestations, fork_choice: true },
            after,
            new_store,
            step,
        );
    attests_quorum(s.validators, attestations, height, hash, group);
}

/// Votes count the moment their block arrives: where validators with a quorum voted
/// for a block before it came, taking it sends it on its way to the chain.
pub proof fn votes_ahead_of_block_count<S: StateStore>(
    s: State,
    store: S,
    header: HeaderView,
    operations: Seq<OperationView>,
    order: Seq<ValidatorId>,
    now: Now,
    outcome: AcceptOutcome,
    after: State,
    new_store: S,
)
    requires
        filed(s),
        accepted(s, store, header, operations, order, now, outcome, after, new_store),
        admissible(s, header, order, now),
        !finalized_height(s.chain, header.height),
        header.height >= s.config.fork_choice_v2_height,
        quorum(s.validators, voters(s.v2_votes, header.height, hash_of(header))),
    ensures
        outcome matches AcceptOutcome::Candidate(step) && step_subject(step@) matches Some(subject)
            && hash_of(subject.0) == hash_of(header) && quorum(s.validators, attesters(subject.1)),
{
    let height = header.height;
    let hash = hash_of(header);
    let slot = Slot { height, id: hash };
    let t = with_candidate(s, header, operations, now);
    assert(winning(t, height, hash));
    winner_unique(t, height, hash, hash);
    let group = voters(t.v2_votes, height, hash);
    let step = outcome->Candidate_0@;
    let attestations = choose|attestations: Seq<Attestation>| #[trigger]
        attests(attestations, height, hash, group) && crate::finality::finalization_started(
            crate::fork_choice::candidate_taken(t, height, hash),
            store,
            JobView { pending: t.v2_blocks[slot], attestations, fork_choice: true },
            after,
            new_store,
            step,
        );
    attests_quorum(s.validators, attestations, height, hash, group);
}

/// Without fork choice, an attestation sends a block on its way to the chain only
/// where the attestations make a quorum, each of that very block and no two of one
/// validator.
pub proof fn attestations_finalize_with_quorum<S: StateStore>(
    s: State,
    store: S,
    id: ValidatorId,
    height: u64,
    hash: Digest,
    now: Now,
    outcome: AttestOutcome,
    after: State,
    new_store: S,
)
    requires
        filed(s),
        attestations_filed(s),
        attested_pending(s, store, id, height, hash, now, outcome, after, new_store),
        outcome is Finalizing,
    ensures
        step_subject(attest_step(outcome)) matches Some(subject) && {
            &&& subject.0.height == height
            &&& hash_of(subject.0) == hash
            &&& attest_block(subject.1, subject.0)
            &&& quorum(s.validators, attesters(subject.1))
        },
{
}

/// A vote outside the window is not kept: after any attestation every vote was
/// there before or is for a height within the window.
pub proof fn votes_stay_in_window<S: StateStore>(
    s: State,
    store: S,
    id: ValidatorId,
    height: u64,
    hash: Digest,
    order: Seq<ValidatorId>,
    now: Now,
    outcome: AttestOutcome,
    after: State,
    new_store: S,
)
    requires
        attested(s, store, id, height, hash, order, now, outcome, after, new_store),
    ensures
        forall|slot: Slot| #[trigger]
            after.v2_votes.contains_key(slot) ==> s.v2_votes.contains_key(slot) || in_window(
                s,
                slot.height,
            ),
{
}

/// A proposer that signs two blocks at one height is found out, however far the chain
/// has grown since: where one of them is final, offering the other one reports it with
/// the header of a final block that its proposer signed, and changes nothing.
pub proof fn equivocation_is_reported<S: StateStore>(
    s: State,
    store: S,
    header: HeaderView,
    operations: Seq<OperationView>,
    order: Seq<ValidatorId>,
    now: Now,
    outcome: AcceptOutcome,
    after: State,
    new_store: S,
    at: int,
)
    requires
        accepted(s, store, header, operations, order, now, outcome, after, new_store),
        !s.resyncing,
        validly_signed(header),
        0 <= at < s.chain.len(),
        s.chain[at].header.height == header.height,
        s.chain[at].header.proposer == header.proposer,
        hash_of(s.chain[at].header) != hash_of(header),
    ensures
        outcome matches AcceptOutcome::DoubleSign { first } && {
            &&& exists|i: int| 0 <= i < s.chain.len() && (#[trigger] s.chain[i]).header == first@
            &&& first@.height == header.height
            &&& first@.proposer == header.proposer
            &&& hash_of(first@) != hash_of(header)
        },
        after == s,
        new_store == store,
{
    first_conflict_exists(s.chain, header, at);
    let i = choose|i: int| first_conflict(s.chain, header, i);
    assert(s.chain[i].header == equivocation(s.chain, header)->0);
}

proof fn first_conflict_exists(chain: Seq<BlockView>, header: HeaderView, at: int)
    requires
        conflicts_at(chain, header, at),
    ensures
        exists|i: int| first_conflict(chain, header, i),
    decreases at,
{
    if forall|j: int| 0 <= j < at ==> !#[trigger] conflicts_at(chain, header, j) {
        assert(first_conflict(chain, header, at));
    } else {
        let j = choose|j: int| 0 <= j < at && #[trigger] conflicts_at(chain, header, j);
        first_conflict_exists(chain, header, j);
    }
}

/// Nobody is accused without cause: a report names a block that is final or pending
/// here, at the height and from the proposer of the offered one, with another hash.
pub proof fn report_names_two_blocks<S: StateStore>(
    s: State,
    store: S,
    header: HeaderView,
    operations: Seq<OperationView>,
    order: Seq<ValidatorId>,
    now: Now,
    outcome: AcceptOutcome,
    after: State,
    new_store: S,
)
    requires
        filed(s),
        accepted(s, store, header, operations, order, now, outcome, after, new_store),
        outcome is DoubleSign,
    ensures
        validly_signed(header),
        ({
            let first = outcome->first@;
            &&& first.height == header.height
            &&& first.proposer == header.proposer
            &&& hash_of(first) != hash_of(header)
            &&& (exists|i: int| 0 <= i < s.chain.len() && (#[trigger] s.chain[i]).header == first)
                || (s.pending_blocks.contains_key(header.height)
                && s.pending_blocks[header.height].header == first)
        }),
{
    if equivocation(s.chain, header) is Some {
        let i = choose|i: int| first_conflict(s.chain, header, i);
        assert(s.chain[i].header == equivocation(s.chain, header)->0);
    }
}

/// A block that failed execution is never taken again.
pub proof fn invalid_block_stays_out<S: StateStore>(
    s: State,
    store: S,
    header: HeaderView,
    operations: Seq<OperationView>,
    order: Seq<ValidatorId>,
    now: Now,
    outcome: AcceptOutcome,
    after: State,
    new_store: S,
)
    requires
        accepted(s, store, header, operations, order, now, outcome, after, new_store),
        s.v2_invalid.contains_key(Slot { height: header.height, id: hash_of(header) }),
    ensures
        outcome is Rejected || outcome is DoubleSign,
        after == s,
        new_store == store,
{
    assert(!admissible(s, header, order, now));
}

/// Where fork choice is in force, a block that fails execution is barred and loses
/// this node's vote, and the node does not ask for a resync: it stays in
/// consensus and can take another block. Every other candidate stays at hand, every
/// other vote stands, and what had a quorum still has it.
pub proof fn bad_block_does_not_halt(s: State, job: JobView)
    requires
        job.pending.header.height >= s.config.fork_choice_v2_height,
    ensures
        ({
            let height = job.pending.header.height;
            let bad = hash_of(job.pending.header);
            let after = rejected(s, job);
            &&& after.v2_invalid.contains_key(Slot { height, id: bad })
            &&& !voters(after.v2_votes, height, bad).contains(s.config.validator_id)
            &&& after.needs_resync == s.needs_resync
            &&& after.resyncing == s.resyncing
            &&& after.chain == s.chain
            &&& forall|slot: Slot|
                slot != (Slot { height, id: bad }) && #[trigger] s.v2_blocks.contains_key(slot)
                    ==> after.v2_blocks.contains_key(slot) && after.v2_blocks[slot]
                    == s.v2_blocks[slot]
            &&& forall|other: Digest|
                other != bad ==> #[trigger] voters(after.v2_votes, height, other) == voters(
                    s.v2_votes,
                    height,
                    other,
                )
            &&& forall|other: Digest| #[trigger]
                winning(s, height, other) && other != bad ==> winning(after, height, other)
        }),
{
    let height = job.pending.header.height;
    let bad = hash_of(job.pending.header);
    let after = rejected(s, job);
    assert forall|other: Digest| other != bad implies #[trigger] voters(
        after.v2_votes,
        height,
        other,
    ) == voters(s.v2_votes, height, other) by {
        assert(voters(after.v2_votes, height, other) =~= voters(s.v2_votes, height, other));
    }
}

/// A pending block that this node already ran is never replaced by a peer's.
pub proof fn executed_block_is_kept(
    s: State,
    header: HeaderView,
    operations: Seq<OperationView>,
    order: Seq<ValidatorId>,
    now: Now,
    outcome: AcceptOutcome,
    after: State,
)
    requires
        offered(s, header, operations, order, now, outcome, after),
        s.pending_blocks.contains_key(header.height),
        s.pending_blocks[header.height].already_executed,
    ensures
        after == s,
{
}

/// A timeout finalizes only the next block, and only with a quorum behind it, in
/// the first few blocks, or where this node is the only validator. Only attestations
/// of that very block go with it.
pub proof fn timeout_needs_quorum<S: StateStore>(
    s: State,
    store: S,
    height: u64,
    action: TimeoutAction,
    after: State,
    new_store: S,
)
    requires
        filed(s),
        attestations_filed(s),
        timed_out_at(s, store, height, action, after, new_store),
        action is Finalized,
    ensures
        height == tip_height(s) + 1,
        may_finalize(s, height),
        step_subject(action->Finalized_0@) matches Some(subject) ==> subject.0.height == height
            && attest_block(subject.1, subject.0),
{
}

/// Votes accumulate on one block: where a block was dropped after a timeout and this
/// node, its store back at the finalized tip, proposes the same block again, every
/// attestation of it that came before the drop is still there, or goes with the block
/// where that finalizes it.
pub proof fn dropped_block_keeps_votes<S: StateStore>(
    s: State,
    store: S,
    height: u64,
    action: TimeoutAction,
    after: State,
    new_store: S,
    t: State,
    clean_store: S,
    header: HeaderView,
    operations: Seq<OperationView>,
    execution: ExecutionView,
    order: Seq<ValidatorId>,
    now: Now,
    step: ProduceStep,
    done: State,
    last_store: S,
)
    requires
        attestations_filed(s),
        s.pending_blocks.contains_key(height),
        timed_out_at(s, store, height, action, after, new_store),
        action is Dropped || action is Abandoned,
        restored(after, new_store, t, clean_store),
        header.height == height,
        hash_of(header) == hash_of(s.pending_blocks[height].header),
        height < t.config.fork_choice_v2_height,
        count_active(t.validators) > 1,
        published(
            t,
            clean_store,
            header,
            operations,
            execution,
            order,
            now,
            step,
            done,
            last_store,
        ),
    ensures
        attestations_at(
            pending_proposed(t, own_pending(header, operations, execution, now)),
            height,
        ) == attestations_at(s, height),
        forall|i: int|
            0 <= i < attestations_at(s, height).len() ==> attestations_at(done, height).contains(
                #[trigger] attestations_at(s, height)[i],
            ) || (step matches ProduceStep::Proposed(next) && step_subject(next@) matches Some(
                subject,
            ) && subject.1.contains(attestations_at(s, height)[i])),
{
    let held = attestations_at(s, height);
    let proposal = pending_proposed(t, own_pending(header, operations, execution, now));
    votes_return(s, t, height, hash_of(header));
    let next = step->Proposed_0;
    let mid = choose|mid: S| #[trigger]
        attestation_persisted(clean_store, header, mid) && exists|outcome: AttestOutcome| #[trigger]
            attested(
                proposal,
                mid,
                t.config.validator_id,
                height,
                hash_of(header),
                order,
                now,
                outcome,
                done,
                last_store,
            ) && next@ == attest_step(outcome);
    let outcome = choose|outcome: AttestOutcome| #[trigger]
        attested(
            proposal,
            mid,
            t.config.validator_id,
            height,
            hash_of(header),
            order,
            now,
            outcome,
            done,
            last_store,
        ) && next@ == attest_step(outcome);
    let counted = with_attestation(proposal, t.config.validator_id, height, hash_of(header));
    assert forall|i: int| 0 <= i < held.len() implies attestations_at(done, height).contains(
        #[trigger] held[i],
    ) || (step_subject(next@) matches Some(subject) && subject.1.contains(held[i])) by {
        assert(attestations_at(proposal, height)[i] == held[i]);
        assert(attestations_at(counted, height)[i] == held[i]);
    }
}

proof fn votes_return(s: State, t: State, height: u64, hash: Digest)
    requires
        attestations_filed(s),
        s.pending_blocks.contains_key(height),
        hash == hash_of(s.pending_blocks[height].header),
        t.pending_attestations == s.pending_attestations,
    ensures
        retained(t, height, hash).contains_key(height) ==> retained(t, height, hash)[height]
            == attestations_at(s, height),
        !retained(t, height, hash).contains_key(height) ==> attestations_at(s, height).len() == 0,
{
    let held = attestations_at(s, height);
    let own = |a: Attestation| a.block_hash == hash;
    assert forall|i: int| 0 <= i < held.len() implies own(#[trigger] held[i]) by {
        assert(s.pending_attestations.contains_key(height));
    }
    filter_of_all(held, own);
}

/// The same of a block that a peer sends again: it has the attestations that it had
/// when it was dropped.
pub proof fn returning_block_keeps_votes<S: StateStore>(
    s: State,
    store: S,
    height: u64,
    action: TimeoutAction,
    after: State,
    new_store: S,
    header: HeaderView,
    operations: Seq<OperationView>,
    now: Now,
)
    requires
        attestations_filed(s),
        s.pending_blocks.contains_key(height),
        timed_out_at(s, store, height, action, after, new_store),
        action is Dropped || action is Abandoned,
        header.height == height,
        hash_of(header) == hash_of(s.pending_blocks[height].header),
    ensures
        attestations_at(made_pending(after, header, operations, now), height) == attestations_at(
            s,
            height,
        ),
{
    votes_return(s, after, height, hash_of(header));
}

/// One decision of a pass over the blocks that waited too long, and what the node did
/// on it.
pub struct TimeoutRound<S: StateStore> {
    pub height: u64,
    pub before: State,
    pub store: S,
    pub action: TimeoutAction,
    pub after: State,
    pub new_store: S,
    /// The state once the node has done what the decision asked for.
    pub settled: State,
}

/// The chain after the node dealt with a step: a block that is ready joins it, one that
/// has to be executed first joins it or, where executing it failed, does not.
pub open spec fn chain_settled(s: State, step: StepView, t: State) -> bool {
    match step {
        StepView::Idle => t.chain == s.chain,
        StepView::Commit(sealed) => t.chain == appended(s, sealed).chain,
        StepView::Execute(job) => t.chain == s.chain || exists|execution: ExecutionView|
            t.chain == #[trigger] appended(s, sealed_block(job, execution)).chain,
    }
}

/// The round went as the contracts say.
pub open spec fn round_played<S: StateStore>(r: TimeoutRound<S>) -> bool {
    &&& filed(r.before)
    &&& timed_out_at(r.before, r.store, r.height, r.action, r.after, r.new_store)
    &&& match r.action {
        TimeoutAction::Finalized(step) => chain_settled(r.after, step@, r.settled),
        _ => r.settled.chain == r.after.chain,
    }
}

/// The rounds of one pass, each one on the chain that the one before left.
pub open spec fn pass_played<S: StateStore>(rounds: Seq<TimeoutRound<S>>) -> bool {
    &&& forall|i: int| 0 <= i < rounds.len() ==> round_played(#[trigger] rounds[i])
    &&& forall|i: int|
        0 < i < rounds.len() ==> (#[trigger] rounds[i]).before.chain == rounds[i
            - 1].settled.chain
}

/// The decisions of the rounds.
pub open spec fn decisions<S: StateStore>(rounds: Seq<TimeoutRound<S>>) -> Seq<TimeoutAction> {
    Seq::new(rounds.len(), |i: int| rounds[i].action)
}

/// A pass over the blocks that waited too long never lowers the tip, and raises it by
/// at most one for each block that it sent on to be finalized.
pub proof fn timeouts_never_lower_tip<S: StateStore>(rounds: Seq<TimeoutRound<S>>)
    requires
        pass_played(rounds),
        rounds.len() > 0,
    ensures
        tip_height(rounds[0].before) <= tip_height(rounds.last().settled) <= tip_height(
            rounds[0].before,
        ) + finalized_count(decisions(rounds)),
        finalized_count(decisions(rounds)) <= rounds.len(),
    decreases rounds.len(),
{
    let last = rounds.last();
    assert(last == rounds[rounds.len() - 1]);
    let shorter = rounds.drop_last();
    assert(decisions(rounds).drop_last() =~= decisions(shorter));
    assert(decisions(rounds).last() == last.action);
    round_keeps_tip(last);
    if shorter.len() > 0 {
        assert forall|i: int| 0 <= i < shorter.len() implies round_played(#[trigger] shorter[i]) by {
            assert(shorter[i] == rounds[i]);
        }
        assert forall|i: int| 0 < i < shorter.len() implies (#[trigger] shorter[i]).before.chain
            == shorter[i - 1].settled.chain by {
            assert(shorter[i] == rounds[i]);
        }
        timeouts_never_lower_tip(shorter);
        assert(last.before.chain == shorter.last().settled.chain);
    } else {
        assert(decisions(shorter).len() == 0);
    }
}

proof fn round_keeps_tip<S: StateStore>(r: TimeoutRound<S>)
    requires
        round_played(r),
    ensures
        tip_height(r.settled) == tip_height(r.before) || r.action is Finalized && tip_height(
            r.settled,
        ) == tip_height(r.before) + 1,
{
    assert(r.after.chain == r.before.chain);
}

/// After a restore the store has the root of the finalized tip, or a resync is
/// asked for; and where there was something to undo, nothing that ran eagerly is
/// left waiting.
pub proof fn restore_is_clean_or_resyncs<S: StateStore>(
    before: State,
    store: S,
    after: State,
    new_store: S,
)
    requires
        restored(before, store, after, new_store),
        tip_root(before) is Some,
    ensures
        tip_root(after) == tip_root(before),
        tip_root(before) == Some(new_store.root()) || after.needs_resync,
        Some(store.root()) != tip_root(before) ==> (forall|k: Slot| #[trigger]
            after.v2_blocks.contains_key(k) ==> !ran_eagerly(after.v2_blocks[k])) && (forall|h: u64|
            #[trigger] after.pending_blocks.contains_key(h) ==> !ran_eagerly(
                after.pending_blocks[h],
            )),
{
}

/// A restore undoes a superseded block of this node: where the store drifted by one
/// block that ran eagerly, and undoing it gives the root of the finalized tip, the
/// store is as it was before that block, and no resync is asked for.
pub proof fn restore_undoes_superseded_block<S: StateStore>(
    before: State,
    store: S,
    after: State,
    new_store: S,
    source: Source,
    height: u64,
    delta: Delta,
)
    requires
        restored(before, store, after, new_store),
        store.usable(),
        tip_root(before) is Some,
        tip_root(before) != Some(store.root()),
        eager_at(before, source) == Some((height, delta)),
        forall|other: Source|
            other != source ==> (#[trigger] eager_at(before, other)) is None,
        tip_root(before) == Some(S::root_of(apply_delta(store.contents(), delta))),
    ensures
        new_store.contents() == apply_delta(store.contents(), delta),
        Some(new_store.root()) == tip_root(before),
        after.needs_resync == before.needs_resync,
{
    let target = tip_root(before)->0;
    let (sources, plan) = choose|sources: Seq<Source>, plan: Plan| #[trigger]
        eager_plan(before, sources, plan) && repaired(
            store.contents(),
            plan,
            tip_height(before),
            target,
            new_store,
        );
    assert(sources.contains(source));
    assert forall|i: int| 0 <= i < sources.len() implies #[trigger] sources[i] == source by {
        assert(eager_at(before, sources[i]) is Some);
    }
    if sources.len() > 1 {
        assert(sources[0] != sources[1]);
    }
    assert(sources[0] == source);
    assert(plan.drop_last().len() == 0);
    assert(undo_all(store.contents(), plan.drop_last()) == store.contents());
    assert(plan.last() == (height, delta));
}

/// Right after a snapshot was restored the store counts as clean: a restore
/// changes nothing and asks for no further resync.
pub proof fn reset_is_clean<S: StateStore>(
    s: State,
    height: u64,
    epoch: u64,
    staking: Seq<StakingValidator>,
    store: S,
    after: State,
    new_store: S,
)
    requires
        restored(
            reset_state(s, height, epoch, store.root(), staking),
            store,
            after,
            new_store,
        ),
    ensures
        after == reset_state(s, height, epoch, store.root(), staking),
        new_store == store,
        after.needs_resync == s.needs_resync,
{
}

/// Right after a start the store counts as clean.
pub proof fn boot_is_clean<S: StateStore>(
    config: EngineConfig,
    validators: Seq<ValidatorInfo>,
    trusted: Seq<TrustedCheckpoint>,
    meta: (u64, u64),
    store: S,
    after: State,
    new_store: S,
)
    requires
        restored(
            initial_state(config, validators, trusted, meta, store.root()),
            store,
            after,
            new_store,
        ),
    ensures
        after == initial_state(config, validators, trusted, meta, store.root()),
        new_store == store,
        !after.needs_resync,
{
}

/// A start on a store without undo records above the recorded height changes
/// nothing.
pub proof fn boot_leaves_sound_store<S: StateStore>(before: S, after: S, tip: u64)
    requires
        boot_reconciled(before, after, tip),
        forall|h: u64|
            h > tip ==> (#[trigger] durable_record(before.contents(), S::eager_prefix_of(), h))
                is None,
    ensures
        after.contents() == before.contents(),
        after.root() == before.root(),
{
    let prefix = S::eager_prefix_of();
    let plan = choose|plan: Plan| #[trigger]
        durable_plan(before.contents(), prefix, tip, plan) && after.contents() == undo_all(
            before.contents(),
            plan,
        ) && after.root() == if plan.len() > 0 {
            S::root_of(after.contents())
        } else {
            before.root()
        };
    if plan.len() > 0 {
        assert(plan[0].0 > tip);
        assert(durable_record(before.contents(), prefix, plan[0].0) is None);
    }
}

/// A start undoes a block that was committed eagerly and never finalized: where the
/// store holds the undo record of the next block and of none above it, the store
/// is as the record says it was before that block, and so is its root.
pub proof fn boot_undoes_leaked_block<S: StateStore>(before: S, after: S, tip: u64, delta: Delta)
    requires
        tip < u64::MAX,
        boot_reconciled(before, after, tip),
        durable_record(before.contents(), S::eager_prefix_of(), (tip + 1) as u64) == Some(delta),
        forall|h: u64|
            h > tip + 1 ==> (#[trigger] durable_record(before.contents(), S::eager_prefix_of(), h))
                is None,
    ensures
        after.contents() == apply_delta(before.contents(), delta),
        after.root() == S::root_of(after.contents()),
{
    let prefix = S::eager_prefix_of();
    let next = (tip + 1) as u64;
    let plan = choose|plan: Plan| #[trigger]
        durable_plan(before.contents(), prefix, tip, plan) && after.contents() == undo_all(
            before.contents(),
            plan,
        ) && after.root() == if plan.len() > 0 {
            S::root_of(after.contents())
        } else {
            before.root()
        };
    assert forall|i: int| 0 <= i < plan.len() implies (#[trigger] plan[i]).0 == next by {
        assert(durable_record(before.contents(), prefix, plan[i].0) is Some);
    }
    assert(undoes(plan, next));
    if plan.len() > 1 {
        assert(plan[0].0 > plan[1].0);
    }
    assert(plan.drop_last().len() == 0);
    assert(undo_all(before.contents(), plan.drop_last()) == before.contents());
    assert(plan.last() == plan[0] && plan[0].1 == delta);
}

/// No block is stored where the chain's height and epoch are recorded.
pub proof fn keys_apart(height: u64)
    ensures
        block_key_of(height) != chain_meta_key_of(),
{
    reveal_strlit("block/");
    reveal_strlit("__chain_meta__");
    broadcast use is_ascii_spec_bytes;

    assert(is_ascii("block/") && is_ascii("__chain_meta__"));
    assert("block/".spec_bytes()[0] == 98u8);
    assert("__chain_meta__".spec_bytes()[0] == 95u8);
    assert(block_key_of(height)[0] == 98u8);
    assert(chain_meta_key_of()[0] == 95u8);
}

/// What is committed survives a restart: the store gives back the block's encoding
/// and its height and epoch, and where the keys of undo records are of their own
/// kind it holds no undo record of the block, so no later start undoes it.
pub proof fn committed_block_survives_restart(
    contents: Contents,
    prefix: Seq<u8>,
    height: u64,
    epoch: u64,
    data: Seq<u8>,
    prune: bool,
)
    requires
        eager_revert_key_of(prefix, height) != block_key_of(height),
        eager_revert_key_of(prefix, height) != chain_meta_key_of(),
    ensures
        ({
            let after = block_stored(contents, prefix, height, epoch, Some(data), prune);
            &&& lookup(after, block_key_of(height)) == Some(data)
            &&& recorded_meta(lookup(after, chain_meta_key_of())) == (height, epoch)
            &&& durable_record(after, prefix, height) is None
        }),
{
    meta_record_round_trip(height, epoch);
    keys_apart(height);
    let gone = pruned_keys(height);
    assert(!gone.contains(chain_meta_key_of())) by {
        if gone.contains(chain_meta_key_of()) {
            let h = choose|h: u64|
                prunes(height, h) && chain_meta_key_of() == #[trigger] block_key_of(h);
            keys_apart(h);
        }
    }
    assert(!gone.contains(block_key_of(height))) by {
        if gone.contains(block_key_of(height)) {
            let h = choose|h: u64|
                prunes(height, h) && block_key_of(height) == #[trigger] block_key_of(h);
            block_keys_distinct(h, height);
        }
    }
}

/// Committing a block adds it at the end and leaves every earlier block as it was.
pub proof fn commit_extends_chain(s: State, sealed: SealedView, order: Seq<ValidatorId>)
    ensures
        committed(s, sealed, order).chain.drop_last() == s.chain,
        committed(s, sealed, order).chain.last() == sealed.block,
        produced_alone(s, sealed).chain == committed(s, sealed, order).chain,
        tip_height(committed(s, sealed, order)) == sealed.block.header.height,
{
    assert(s.chain.push(sealed.block).drop_last() =~= s.chain);
}

/// The journal stays contiguous and bounded, and its end is the last block.
pub proof fn journal_stays_contiguous(journal: Plan, cap: nat, height: u64, delta: Delta)
    requires
        contiguous(journal),
        1 <= cap,
        journal.len() <= cap,
    ensures
        contiguous(recorded(journal, cap, height, delta)),
        1 <= recorded(journal, cap, height, delta).len() <= cap,
        recorded(journal, cap, height, delta).last() == (height, delta),
{
    let base = if journal.len() > 0 && height != journal.last().0 + 1 {
        Seq::empty()
    } else {
        journal
    };
    let full = base.push((height, delta));
    assert(contiguous(full)) by {
        assert forall|i: int, j: int| 0 <= i < j < full.len() implies (#[trigger] full[j]).0 == (
        #[trigger] full[i]).0 + (j - i) by {
            if j < base.len() {
                assert(base[j].0 == base[i].0 + (j - i));
            } else if i < base.len() - 1 {
                assert(base[base.len() - 1].0 == base[i].0 + (base.len() - 1 - i));
            }
        }
    }
    let kept = recorded(journal, cap, height, delta);
    if full.len() > cap {
        let off = full.len() - cap;
        assert forall|i: int, j: int| 0 <= i < j < kept.len() implies (#[trigger] kept[j]).0 == (
        #[trigger] kept[i]).0 + (j - i) by {
            assert(full[j + off].0 == full[i + off].0 + (j - i));
        }
    }
}

/// The heights of a chain follow one another.
pub open spec fn heights_follow(chain: Seq<BlockView>) -> bool {
    forall|i: int, j: int|
        0 <= i < j < chain.len() ==> (#[trigger] chain[j]).header.height == (
        #[trigger] chain[i]).header.height + (j - i)
}

/// Every block of a chain names its predecessor, and is later than it.
pub open spec fn linked(chain: Seq<BlockView>) -> bool {
    forall|i: int, j: int|
        0 <= i && j == i + 1 && j < chain.len() ==> (#[trigger] chain[j]).header.parent_hash
            == hash_of((#[trigger] chain[i]).header) && chain[j].header.timestamp_ms
            > chain[i].header.timestamp_ms
}

proof fn next_block_extends(chain: Seq<BlockView>, block: BlockView)
    requires
        heights_follow(chain),
        chain.len() > 0 ==> block.header.height == chain.last().header.height + 1,
    ensures
        heights_follow(chain.push(block)),
{
    let longer = chain.push(block);
    assert forall|i: int, j: int| 0 <= i < j < longer.len() implies (
    #[trigger] longer[j]).header.height == (#[trigger] longer[i]).header.height + (j - i) by {
        if j < chain.len() {
            assert(chain[j].header.height == chain[i].header.height + (j - i));
        } else if i < chain.len() - 1 {
            assert(chain[chain.len() - 1].header.height == chain[i].header.height + (chain.len() - 1
                - i));
        }
    }
}

proof fn linked_block_extends(chain: Seq<BlockView>, block: BlockView)
    requires
        linked(chain),
        chain.len() > 0 ==> block.header.parent_hash == hash_of(chain.last().header)
            && block.header.timestamp_ms > chain.last().header.timestamp_ms,
    ensures
        linked(chain.push(block)),
{
    let longer = chain.push(block);
    assert forall|i: int, j: int| 0 <= i && j == i + 1 && j < longer.len() implies (
    #[trigger] longer[j]).header.parent_hash == hash_of((#[trigger] longer[i]).header)
        && longer[j].header.timestamp_ms > longer[i].header.timestamp_ms by {
        if j < chain.len() {
            assert(chain[j].header.parent_hash == hash_of(chain[i].header));
        }
    }
}

/// A peer's block that the engine takes continues the chain: once it is committed
/// on the tip that it was taken on, heights follow one another and every block
/// names its predecessor, if they did so before.
pub proof fn accepted_block_continues_chain(
    s: State,
    order: Seq<ValidatorId>,
    now: Now,
    t: State,
    sealed: SealedView,
)
    requires
        admissible(s, sealed.block.header, order, now),
        t.chain == s.chain,
    ensures
        heights_follow(s.chain) ==> heights_follow(committed(t, sealed, order).chain),
        linked(s.chain) ==> linked(committed(t, sealed, order).chain),
{
    if heights_follow(s.chain) {
        next_block_extends(s.chain, sealed.block);
    }
    if linked(s.chain) {
        linked_block_extends(s.chain, sealed.block);
    }
}

/// A block that this node produces continues the chain.
pub proof fn produced_block_continues_chain(
    s: State,
    operations: Seq<OperationView>,
    result: ResultView,
    operations_json: Option<Seq<u8>>,
    receipts_json: Option<Seq<u8>>,
    sealed: SealedView,
)
    requires
        sealed.block.header == signed_header(
            s,
            next_header(s, operations, result, operations_json, receipts_json),
        ),
        tip_height(s) < u64::MAX,
        s.config.block_time_ms > 0,
        s.chain.len() > 0 ==> s.chain.last().header.timestamp_ms < u64::MAX,
    ensures
        heights_follow(s.chain) ==> heights_follow(produced_alone(s, sealed).chain),
        linked(s.chain) ==> linked(produced_alone(s, sealed).chain),
{
    if heights_follow(s.chain) {
        next_block_extends(s.chain, sealed.block);
    }
    if linked(s.chain) {
        linked_block_extends(s.chain, sealed.block);
    }
}

/// A synced block that may be replayed follows the tip, so that syncing leaves no
/// gap and no height twice.
pub proof fn synced_block_follows_tip(s: State, t: State, sealed: SealedView)
    requires
        replayable(s, sealed.block.header),
        t.chain == s.chain,
        heights_follow(s.chain),
    ensures
        heights_follow(appended(t, sealed).chain),
{
    next_block_extends(s.chain, sealed.block);
}

proof fn split_by_height(chain: Seq<BlockView>, target: u64) -> (n: int)
    requires
        heights_follow(chain),
    ensures
        0 <= n <= chain.len(),
        forall|i: int| 0 <= i < n ==> (#[trigger] chain[i]).header.height <= target,
        forall|i: int| n <= i < chain.len() ==> (#[trigger] chain[i]).header.height > target,
    decreases chain.len(),
{
    if chain.len() == 0 {
        0
    } else if chain.last().header.height <= target {
        assert forall|i: int| 0 <= i < chain.len() implies (#[trigger] chain[i]).header.height
            <= target by {
            if i < chain.len() - 1 {
                assert(chain[chain.len() - 1].header.height == chain[i].header.height + (chain.len()
                    - 1 - i));
            }
        }
        chain.len() as int
    } else {
        let shorter = chain.drop_last();
        assert(heights_follow(shorter)) by {
            assert forall|i: int, j: int| 0 <= i < j < shorter.len() implies (
            #[trigger] shorter[j]).header.height == (#[trigger] shorter[i]).header.height + (j
                - i) by {
                assert(chain[j].header.height == chain[i].header.height + (j - i));
            }
        }
        let n = split_by_height(shorter, target);
        assert forall|i: int| 0 <= i < n implies (#[trigger] chain[i]).header.height <= target by {
            assert(shorter[i].header.height <= target);
        }
        assert forall|i: int| n <= i < chain.len() implies (#[trigger] chain[i]).header.height
            > target by {
            if i < chain.len() - 1 {
                assert(shorter[i].header.height > target);
            }
        }
        n
    }
}

/// A rollback keeps exactly the blocks up to the target; of a chain whose heights
/// follow one another those are its first ones, as they were.
pub proof fn rollback_keeps_prefix(s: State, target: u64)
    ensures
        forall|i: int|
            0 <= i < rolled_back(s, target).chain.len() ==> (#[trigger] rolled_back(
                s,
                target,
            ).chain[i]).header.height <= target && s.chain.contains(rolled_back(s, target).chain[i]),
        forall|b: BlockView|
            s.chain.contains(b) && b.header.height <= target ==> #[trigger] rolled_back(
                s,
                target,
            ).chain.contains(b),
        heights_follow(s.chain) ==> exists|n: int|
            0 <= n <= s.chain.len() && rolled_back(s, target).chain == #[trigger] s.chain.take(n)
                && (n < s.chain.len() ==> s.chain[n].header.height > target),
{
    let p = |b: BlockView| b.header.height <= target;
    crate::lists::filter_within(s.chain, p);
    assert forall|b: BlockView|
        s.chain.contains(b) && b.header.height <= target implies #[trigger] rolled_back(
        s,
        target,
    ).chain.contains(b) by {
        let i = choose|i: int| 0 <= i < s.chain.len() && s.chain[i] == b;
        assert(p(s.chain[i]));
        crate::lists::filter_keeps(s.chain, p, i);
    }
    if heights_follow(s.chain) {
        let n = split_by_height(s.chain, target);
        assert forall|i: int| 0 <= i < n implies p(#[trigger] s.chain[i]) by {
            assert(s.chain[i].header.height <= target);
        }
        assert forall|i: int| n <= i < s.chain.len() implies !p(#[trigger] s.chain[i]) by {
            assert(s.chain[i].header.height > target);
        }
        crate::lists::filter_of_prefix(s.chain, p, n);
        assert(rolled_back(s, target).chain == s.chain.take(n));
    }
}

/// A block that an honest proposer builds is taken by every peer on the same tip:
/// one that has the proposer in its validator set and order, does not restore a
/// snapshot, knows of no conflicting checkpoint and has a sound clock.
pub proof fn produced_block_is_admissible(
    s: State,
    peer: State,
    operations: Seq<OperationView>,
    result: ResultView,
    operations_json: Option<Seq<u8>>,
    receipts_json: Option<Seq<u8>>,
    order: Seq<ValidatorId>,
    now: Now,
)
    requires
        ({
            let header = signed_header(
                s,
                next_header(s, operations, result, operations_json, receipts_json),
            );
            let hash = hash_of(header);
            &&& peer.chain == s.chain
            &&& tip_height(s) < u64::MAX
            &&& s.config.block_time_ms > 0
            &&& s.chain.len() > 0 ==> s.chain.last().header.timestamp_ms < u64::MAX
            &&& next_timestamp(s) <= now.wall_ms + crate::accept::MAX_TIMESTAMP_DRIFT_MS
            &&& !peer.resyncing
            &&& !peer.v2_invalid.contains_key(Slot { height: header.height, id: hash })
            &&& !violates_trusted(peer.trusted_checkpoints, header.height, hash)
            &&& checkpoint_conflict(peer.checkpoints, header.height, hash) is None
            &&& order.contains(s.config.validator_id)
            &&& signed_by_validator(peer.validators, header)
        }),
    ensures
        admissible(
            peer,
            signed_header(
                s,
                next_header(s, operations, result, operations_json, receipts_json),
            ),
            order,
            now,
        ),
{
}

} // verus!
