//! What becomes of blocks, said of their headers, operations and signatures.
use vstd::prelude::*;

use crate::accept::{accepted, admissible, conflicts_at, first_conflict, AcceptOutcome};
use crate::bytes::{Digest, ValidatorId};
use crate::codec::hash_of;
use crate::crypto::ed25519_accepts;
use crate::engine::{filed, EarlyAttestation, Now, State, StepView};
use crate::finality::{
    finalization_started, first_step, pending_finalized, sealed_block, ExecutionView,
};
use crate::fork_choice::{candidate_finalized, with_candidate};
use crate::laws::step_subject;
use crate::store::StateStore;
use crate::sync::{replayable, replayed_block, sync_reverted};
use crate::table::Slot;
use crate::types::{Attestation, BlockView, HeaderView, OperationView, PendingView, ReceiptView};
use crate::vote_laws::{first_listed, placed, rank_is_place};

verus! {

/// The height of the last block of the chain, or zero.
pub open spec fn height_of(chain: Seq<BlockView>) -> int {
    if chain.len() == 0 {
        0
    } else {
        chain[chain.len() - 1].header.height as int
    }
}

/// The header is signed by its proposer.
pub open spec fn carries_signature(header: HeaderView) -> bool {
    header.proposer_signature.len() == 64 && ed25519_accepts(
        header.proposer@,
        hash_of(header)@,
        header.proposer_signature,
    )
}

/// The proposer of the header is an active validator and signed it.
pub open spec fn from_active_validator(s: State, header: HeaderView) -> bool {
    carries_signature(header) && exists|i: int|
        0 <= i < s.validators.len() && (#[trigger] s.validators[i]).id == header.proposer
            && s.validators[i].active()
}

/// The block continues the chain: it has the next height and belongs to that height's
/// epoch, names the last block as its parent and is later than it.
pub open spec fn continues(s: State, header: HeaderView) -> bool {
    &&& header.height == height_of(s.chain) + 1
    &&& header.epoch == header.height / 100
    &&& s.chain.len() > 0 ==> {
        let last = s.chain[s.chain.len() - 1].header;
        header.parent_hash == hash_of(last) && header.timestamp_ms > last.timestamp_ms
    }
}

/// Every checkpoint at the height of the block names that block.
pub open spec fn agrees_with_checkpoints(s: State, header: HeaderView) -> bool {
    &&& forall|i: int|
        0 <= i < s.trusted_checkpoints.len() && (#[trigger] s.trusted_checkpoints[i]).height
            == header.height ==> s.trusted_checkpoints[i].block_hash == hash_of(header)
    &&& s.checkpoints.latest matches Some(c) ==> c.height == header.height ==> c.block_hash
        == hash_of(header)
}

/// The block may be taken: it continues the chain, agrees with the checkpoints, is not
/// known to fail, is at most thirty seconds ahead of the clock, and comes signed from
/// an active validator of the proposer order.
pub open spec fn sound(s: State, header: HeaderView, order: Seq<ValidatorId>, now: Now) -> bool {
    &&& !s.resyncing
    &&& continues(s, header)
    &&& agrees_with_checkpoints(s, header)
    &&& !s.v2_invalid.contains_key(Slot { height: header.height, id: hash_of(header) })
    &&& header.timestamp_ms <= now.wall_ms + 30_000
    &&& from_active_validator(s, header)
    &&& order.contains(header.proposer)
}

proof fn sound_is_admissible(s: State, header: HeaderView, order: Seq<ValidatorId>, now: Now)
    ensures
        sound(s, header, order, now) <==> admissible(s, header, order, now),
{
}

/// No block of the chain has the height of `header`.
pub open spec fn height_is_free(chain: Seq<BlockView>, header: HeaderView) -> bool {
    forall|i: int| 0 <= i < chain.len() ==> (#[trigger] chain[i]).header.height != header.height
}

/// The block that a peer sent, as it waits.
pub open spec fn waits_as(
    pending: PendingView,
    header: HeaderView,
    operations: Seq<OperationView>,
    now: Now,
) -> bool {
    &&& pending.header == header
    &&& pending.operations == operations
    &&& pending.proposed_at_ms == now.mono_ms
    &&& !pending.already_executed
    &&& pending.result is None
    &&& pending.revert is None
    &&& pending.mismatch_count == 0
}

/// A block that is kept is sound, and no final block has its height. Whatever is
/// refused leaves everything as it was.
pub proof fn kept_block_is_sound<S: StateStore>(
    s: State,
    store: S,
    header: HeaderView,
    operations: Seq<OperationView>,
    order: Seq<ValidatorId>,
    now: Now,
    outcome: AcceptOutcome,
    after: State,
    new_store: S,
)
    requires
        accepted(s, store, header, operations, order, now, outcome, after, new_store),
    ensures
        outcome is Pending || outcome is Candidate ==> sound(s, header, order, now)
            && height_is_free(s.chain, header),
        outcome is Rejected || outcome is DoubleSign ==> after == s && new_store == store,
        outcome is Candidate ==> header.height >= s.config.fork_choice_v2_height,
        outcome is Pending ==> header.height < s.config.fork_choice_v2_height,
        s.resyncing ==> outcome is Rejected,
        outcome matches AcceptOutcome::DoubleSign { first } ==> {
            &&& carries_signature(header)
            &&& first@.height == header.height || s.pending_blocks.contains_key(header.height)
            &&& first@.proposer == header.proposer
            &&& hash_of(first@) != hash_of(header)
        },
{
    sound_is_admissible(s, header, order, now);
    if crate::accept::equivocation(s.chain, header) is Some {
        let i = choose|i: int| first_conflict(s.chain, header, i);
        assert(conflicts_at(s.chain, header, i));
    }
}

/// `order` lists `a`, and does not list `b` before it.
pub open spec fn comes_before(order: Seq<ValidatorId>, a: ValidatorId, b: ValidatorId) -> bool {
    exists|i: int| #[trigger] placed(order, a, i) && !order.take(i).contains(b)
}

/// A sound block at a free height is kept: where fork choice is in force it becomes a
/// candidate, and before that it is offered for the pending place of its height.
/// It becomes the pending block of an empty place, or in place of one that did not run
/// and whose proposer comes later in the order. The same block again, or a later
/// proposer's, changes nothing, and another block of the same proposer is reported.
pub proof fn sound_block_is_kept<S: StateStore>(
    s: State,
    store: S,
    header: HeaderView,
    operations: Seq<OperationView>,
    order: Seq<ValidatorId>,
    now: Now,
    outcome: AcceptOutcome,
    after: State,
    new_store: S,
)
    requires
        accepted(s, store, header, operations, order, now, outcome, after, new_store),
        sound(s, header, order, now),
        height_is_free(s.chain, header),
        order.len() <= usize::MAX,
    ensures
        header.height >= s.config.fork_choice_v2_height ==> outcome is Candidate,
        header.height < s.config.fork_choice_v2_height ==> {
            let held = s.pending_blocks.contains_key(header.height);
            let other = s.pending_blocks[header.height];
            let same = held && hash_of(other.header) == hash_of(header);
            let twice = held && !same && other.header.proposer == header.proposer;
            let stays = held && (other.already_executed || !comes_before(
                order,
                header.proposer,
                other.header.proposer,
            ));
            &&& outcome is DoubleSign <==> twice
            &&& twice ==> outcome->first@ == other.header
            &&& outcome is Rejected <==> same || !twice && stays
            &&& outcome is Pending <==> !same && !twice && !stays
            &&& new_store == store
        },
{
    sound_is_admissible(s, header, order, now);
    let height = header.height;
    if crate::accept::equivocation(s.chain, header) is Some {
        let i = choose|i: int| first_conflict(s.chain, header, i);
        assert(conflicts_at(s.chain, header, i));
        assert(s.chain[i].header.height == height);
    }
    assert(!crate::accept::finalized_height(s.chain, height));
    if height < s.config.fork_choice_v2_height && s.pending_blocks.contains_key(height) {
        better_by_place(order, header.proposer, s.pending_blocks[height].header.proposer);
    }
}

/// A block that becomes pending waits as it came. It gets the attestations of it that
/// came before, and none of another block; the early ones at its height leave their
/// buffer. Nothing else changes.
pub proof fn pending_block_waits_as_it_came<S: StateStore>(
    s: State,
    store: S,
    header: HeaderView,
    operations: Seq<OperationView>,
    order: Seq<ValidatorId>,
    now: Now,
    outcome: AcceptOutcome,
    after: State,
    new_store: S,
)
    requires
        accepted(s, store, header, operations, order, now, outcome, after, new_store),
        outcome is Pending,
    ensures
        after.pending_blocks.contains_key(header.height),
        waits_as(after.pending_blocks[header.height], header, operations, now),
        forall|h: u64|
            h != header.height ==> (#[trigger] after.pending_blocks.contains_key(h)
                <==> s.pending_blocks.contains_key(h)) && (s.pending_blocks.contains_key(h)
                ==> after.pending_blocks[h] == s.pending_blocks[h]),
        outcome->Pending_0@ == s.early_attestations.filter(
            |e: EarlyAttestation|
                e.block_height == header.height && e.block_hash == hash_of(header),
        ),
        after.early_attestations == s.early_attestations.filter(
            |e: EarlyAttestation| e.block_height != header.height,
        ),
        after.pending_attestations.contains_key(header.height) ==> forall|i: int|
            0 <= i < after.pending_attestations[header.height].len() ==> (
            #[trigger] after.pending_attestations[header.height][i]).block_hash == hash_of(header),
        s.pending_attestations.contains_key(header.height) ==> {
            let own = s.pending_attestations[header.height].filter(
                |a: Attestation| a.block_hash == hash_of(header),
            );
            own.len() > 0 ==> after.pending_attestations.contains_key(header.height)
                && after.pending_attestations[header.height] == own
        },
        forall|h: u64|
            h != header.height ==> (#[trigger] after.pending_attestations.contains_key(h)
                <==> s.pending_attestations.contains_key(h)) && (
            s.pending_attestations.contains_key(h) ==> after.pending_attestations[h]
                == s.pending_attestations[h]),
        after == (State {
            pending_blocks: after.pending_blocks,
            pending_attestations: after.pending_attestations,
            early_attestations: after.early_attestations,
            ..s
        }),
        new_store == store,
{
    let height = header.height;
    let p = |e: EarlyAttestation| e.block_height == height && e.block_hash == hash_of(header);
    let q = |e: EarlyAttestation| crate::accept::early_match(e, height, hash_of(header));
    assert(p =~= q);
    let own = |a: Attestation| a.block_hash == hash_of(header);
    crate::lists::filter_within(crate::finality::attestations_at(s, height), own);
}

proof fn better_by_place(order: Seq<ValidatorId>, a: ValidatorId, b: ValidatorId)
    requires
        order.len() <= usize::MAX,
        order.contains(a),
    ensures
        a != b ==> (crate::fork_choice::rank(order, a) < crate::fork_choice::rank(order, b)
            <==> comes_before(order, a, b)),
{
    rank_is_place(order, a);
    rank_is_place(order, b);
    let i = first_listed(order, a);
    if order.contains(b) {
        let j = first_listed(order, b);
        if j < i {
            assert(order.take(i)[j] == b);
        } else if order.take(i).contains(b) {
            let k = choose|k: int| 0 <= k < i && order.take(i)[k] == b;
            assert(order.take(j)[k] == b);
        }
    } else if order.take(i).contains(b) {
        let k = choose|k: int| 0 <= k < i && order.take(i)[k] == b;
        assert(order[k] == b);
    }
}

/// A candidate that was not known is at hand afterwards, as it came, or on its way to
/// the chain.
pub proof fn candidate_is_at_hand<S: StateStore>(
    s: State,
    store: S,
    header: HeaderView,
    operations: Seq<OperationView>,
    order: Seq<ValidatorId>,
    now: Now,
    outcome: AcceptOutcome,
    after: State,
    new_store: S,
)
    requires
        filed(s),
        accepted(s, store, header, operations, order, now, outcome, after, new_store),
        outcome is Candidate,
        !s.v2_blocks.contains_key(Slot { height: header.height, id: hash_of(header) }),
    ensures
        ({
            let slot = Slot { height: header.height, id: hash_of(header) };
            let step = outcome->Candidate_0@;
            ||| after.v2_blocks.contains_key(slot) && waits_as(
                after.v2_blocks[slot],
                header,
                operations,
                now,
            )
            ||| step matches StepView::Execute(job) && waits_as(
                job.pending,
                header,
                operations,
                now,
            )
        }),
{
    let slot = Slot { height: header.height, id: hash_of(header) };
    let t = crate::fork_choice::with_candidate(s, header, operations, now);
    assert(t.v2_blocks[slot] == crate::types::received(header, operations, now.mono_ms));
    let step = outcome->Candidate_0@;
    let chosen = match crate::fork_choice::choice_at(t, order, header.height) {
        crate::fork_choice::Choice::Elect(hash) => hash,
        crate::fork_choice::Choice::Move(hash) => hash,
        crate::fork_choice::Choice::Stay => hash_of(header),
    };
    let from = match crate::fork_choice::choice_at(t, order, header.height) {
        crate::fork_choice::Choice::Move(hash) => crate::fork_choice::vote_moved(
            t,
            header.height,
            hash,
        ),
        _ => t,
    };
    let other = Slot { height: header.height, id: chosen };
    assert(from.v2_blocks.contains_key(other));
    if step !is Idle {
        let attestations = choose|attestations: Seq<Attestation>| #[trigger]
            crate::fork_choice::attests(
                attestations,
                header.height,
                chosen,
                crate::fork_choice::voters(from.v2_votes, header.height, chosen),
            ) && finalization_started(
                crate::fork_choice::candidate_taken(from, header.height, chosen),
                store,
                crate::engine::JobView {
                    pending: from.v2_blocks[other],
                    attestations,
                    fork_choice: true,
                },
                after,
                new_store,
                step,
            );
        assert(step == first_step(
            crate::engine::JobView {
                pending: from.v2_blocks[other],
                attestations,
                fork_choice: true,
            },
        ));
    }
}

/// A block on its way to the chain keeps its header, its operations and its
/// attestations. One that ran already brings what that gave; any other is handed out
/// to be executed.
pub proof fn finalizing_keeps_the_block<S: StateStore>(
    s: State,
    store: S,
    job: crate::engine::JobView,
    after: State,
    new_store: S,
    step: StepView,
)
    requires
        finalization_started(s, store, job, after, new_store, step),
    ensures
        step_subject(step) == Some((job.pending.header, job.attestations)),
        job.pending.already_executed ==> (step matches StepView::Commit(sealed) && {
            &&& sealed.block.operations == job.pending.operations
            &&& job.pending.result matches Some(result) ==> sealed.block.result == result
            &&& job.pending.revert matches Some(revert) ==> sealed.revert == revert
            &&& sealed.fork_choice == job.fork_choice
            &&& after == s
            &&& new_store == store
        }),
        !job.pending.already_executed ==> step == StepView::Execute(job),
        after.chain == s.chain,
        after.validators == s.validators,
        after.v2_votes == s.v2_votes,
        after.pending_attestations == s.pending_attestations,
{
}

/// A block that fork choice sends to the chain leaves the candidates, and whatever was
/// pending at its height goes, attestations too. It comes with one attestation of it for
/// each validator that votes for it, and for nobody else. Where it ran already nothing
/// else changes; otherwise other votes and attestations still stand.
pub proof fn elected_block_stops_waiting<S: StateStore>(
    s: State,
    store: S,
    height: u64,
    hash: Digest,
    after: State,
    new_store: S,
    step: StepView,
)
    requires
        candidate_finalized(s, store, height, hash, after, new_store, step),
    ensures
        ({
            let slot = Slot { height, id: hash };
            if !s.v2_blocks.contains_key(slot) {
                step is Idle && after == s && new_store == store
            } else {
                &&& !after.v2_blocks.contains_key(slot)
                &&& !after.pending_blocks.contains_key(height)
                &&& after.pending_attestations == s.pending_attestations.remove(height)
                &&& after.v2_votes == s.v2_votes
                &&& after.chain == s.chain
                &&& s.v2_blocks[slot].already_executed ==> step is Commit && after == (State {
                    v2_blocks: s.v2_blocks.remove(slot),
                    pending_blocks: s.pending_blocks.remove(height),
                    pending_attestations: s.pending_attestations.remove(height),
                    ..s
                })
                &&& !s.v2_blocks[slot].already_executed ==> (step matches StepView::Execute(job)
                    && job.pending == s.v2_blocks[slot])
                &&& step matches StepView::Commit(sealed) ==> sealed.fork_choice
                &&& step matches StepView::Execute(job) ==> job.fork_choice
                &&& step_subject(step) matches Some((header, attestations))
                &&& header == s.v2_blocks[slot].header
                &&& forall|i: int|
                    0 <= i < attestations.len() ==> {
                        let a = #[trigger] attestations[i];
                        let from = Slot { height, id: a.validator_id };
                        &&& a.block_height == height
                        &&& a.block_hash == hash
                        &&& s.v2_votes.contains_key(from)
                        &&& s.v2_votes[from] == hash
                    }
                &&& forall|i: int, j: int|
                    0 <= i < j < attestations.len() ==> (#[trigger] attestations[i]).validator_id
                        != (#[trigger] attestations[j]).validator_id
                &&& forall|id: ValidatorId| #[trigger]
                    s.v2_votes.contains_key(Slot { height, id }) && s.v2_votes[Slot { height, id }]
                        == hash ==> exists|i: int|
                        0 <= i < attestations.len() && (#[trigger] attestations[i]).validator_id
                            == id
            }
        }),
{
    let slot = Slot { height, id: hash };
    if s.v2_blocks.contains_key(slot) {
        let ids = crate::fork_choice::voters(s.v2_votes, height, hash);
        let attestations = choose|attestations: Seq<Attestation>| #[trigger]
            crate::fork_choice::attests(attestations, height, hash, ids) && finalization_started(
                crate::fork_choice::candidate_taken(s, height, hash),
                store,
                crate::engine::JobView {
                    pending: s.v2_blocks[slot],
                    attestations,
                    fork_choice: true,
                },
                after,
                new_store,
                step,
            );
        assert forall|id: ValidatorId| #[trigger]
            s.v2_votes.contains_key(Slot { height, id }) && s.v2_votes[Slot { height, id }]
                == hash implies exists|i: int|
            0 <= i < attestations.len() && (#[trigger] attestations[i]).validator_id == id by {
            assert(ids.contains(id));
        }
        assert(step_subject(step) == Some((s.v2_blocks[slot].header, attestations)));
    }
}

/// A pending block that is sent to the chain stops waiting, with its attestations, and
/// was not chosen by fork choice. Where it ran already nothing else changes.
pub proof fn finalized_pending_block_stops_waiting<S: StateStore>(
    s: State,
    store: S,
    height: u64,
    after: State,
    new_store: S,
    step: StepView,
)
    requires
        pending_finalized(s, store, height, after, new_store, step),
    ensures
        !after.pending_blocks.contains_key(height),
        after.pending_attestations == s.pending_attestations.remove(height),
        after.v2_votes == s.v2_votes,
        after.chain == s.chain,
        !s.pending_blocks.contains_key(height) ==> step is Idle && new_store == store,
        step matches StepView::Commit(sealed) ==> !sealed.fork_choice && sealed.block.operations
            == s.pending_blocks[height].operations && after == (State {
            pending_blocks: s.pending_blocks.remove(height),
            pending_attestations: s.pending_attestations.remove(height),
            ..s
        }),
        step matches StepView::Execute(job) ==> !job.fork_choice && job.pending
            == s.pending_blocks[height],
        s.pending_blocks.contains_key(height) ==> step_subject(step) == Some(
            (
                s.pending_blocks[height].header,
                if s.pending_attestations.contains_key(height) {
                    s.pending_attestations[height]
                } else {
                    Seq::empty()
                },
            ),
        ),
{
}

/// A candidate that is at hand already stays as it is, with what running it gave, and
/// one that is not comes to those at hand as a block that did not run.
pub proof fn known_candidate_stays(
    s: State,
    header: HeaderView,
    operations: Seq<OperationView>,
    now: Now,
)
    ensures
        ({
            let slot = Slot { height: header.height, id: hash_of(header) };
            let after = with_candidate(s, header, operations, now);
            &&& s.v2_blocks.contains_key(slot) ==> after == s
            &&& !s.v2_blocks.contains_key(slot) ==> {
                &&& waits_as(after.v2_blocks[slot], header, operations, now)
                &&& after == (State {
                    v2_blocks: s.v2_blocks.insert(slot, after.v2_blocks[slot]),
                    ..s
                })
            }
        }),
{
}

/// An executed block joins the chain with its own header, operations and attestations,
/// and with what executing it gave.
pub proof fn executed_block_keeps_its_parts(job: crate::engine::JobView, execution: ExecutionView)
    ensures
        ({
            let sealed = sealed_block(job, execution);
            &&& sealed.block.header == job.pending.header
            &&& sealed.block.operations == job.pending.operations
            &&& sealed.block.attestations == job.attestations
            &&& sealed.block.result == execution.result
            &&& sealed.revert == execution.revert
            &&& sealed.fork_choice == job.fork_choice
        }),
{
}

/// A block replayed from a peer's chain keeps its header and its operations, and has
/// the state root, the gas and the reverse-delta of the replay. Its receipts are the
/// peer's where it sent any, and the replay's otherwise.
pub proof fn replayed_block_keeps_its_parts(
    header: HeaderView,
    operations: Seq<OperationView>,
    synced_receipts: Seq<ReceiptView>,
    execution: ExecutionView,
)
    ensures
        ({
            let sealed = replayed_block(header, operations, synced_receipts, execution);
            &&& sealed.block.header == header
            &&& sealed.block.operations == operations
            &&& sealed.block.attestations.len() == 0
            &&& sealed.block.result.state_root == execution.result.state_root
            &&& sealed.block.result.gas_used == execution.result.gas_used
            &&& synced_receipts.len() > 0 ==> sealed.block.result.receipts == synced_receipts
            &&& synced_receipts.len() == 0 ==> sealed.block.result.receipts
                == execution.result.receipts
            &&& sealed.revert == execution.revert
            &&& !sealed.fork_choice
        }),
{
}

/// A synced block may be replayed exactly where it has the next height and belongs to
/// that height's epoch, and, where sync is authenticated, comes signed from an active
/// validator.
pub proof fn replayable_blocks_follow(s: State, header: HeaderView)
    ensures
        replayable(s, header) <==> {
            &&& header.height == height_of(s.chain) + 1
            &&& header.epoch == header.height / 100
            &&& s.config.authenticate_sync_blocks ==> from_active_validator(s, header)
        },
{
}

/// A synced block that cannot be applied changes no more than the count of them; the
/// fifth in a row asks for a resync, unless one is under way, and starts the count anew.
pub proof fn failed_replay_is_counted(s: State)
    requires
        s.consecutive_sync_reverts < u32::MAX,
    ensures
        ({
            let after = sync_reverted(s);
            let fifth = s.consecutive_sync_reverts >= 4 && !s.resyncing;
            &&& after.needs_resync <==> s.needs_resync || fifth
            &&& after.consecutive_sync_reverts == if fifth {
                0
            } else {
                s.consecutive_sync_reverts + 1
            }
            &&& after == (State {
                needs_resync: after.needs_resync,
                consecutive_sync_reverts: after.consecutive_sync_reverts,
                ..s
            })
        }),
{
}

} // verus!
