//! What producing, committing and undoing blocks leaves behind, said of the chain, the
//! store and the headers.
use vstd::bytes::*;
use vstd::prelude::*;
use vstd::string::*;

use crate::accept::{attest_step, attested, AttestOutcome};
use crate::bytes::{zero_hash_spec, Digest, ValidatorId};
use crate::codec::{
    block_key_of, block_keys_distinct, chain_meta_key_of, eager_revert_key_of, hash_of,
    last_attestation_key_of, recorded_attestation, recorded_meta,
};
use crate::commit::{
    appended, committed, produced_alone, pruned_keys, prunes, slashing_processed, slot_missed,
    stored,
};
use crate::crypto::{blake3_digest, ed25519_signature};
use crate::engine::{initial_state, JobView, NodeEvent, Now, SealedView, State, Step, StepView};
use crate::epoch::{epoch_started, synced, EpochInputs, StakingValidator};
use crate::epoch_laws::{restake_takes_over_stakes, staked_by};
use crate::finality::{attestations_at, attesters, rejected, swept, timed_out, ExecutionView};
use crate::intents::fulfill_args;
use crate::journal::recorded;
use crate::laws::{keys_apart, restore_undoes_superseded_block};
use crate::produce::{
    attestation_persisted, block_operations, candidate_proposed, next_header, open_operations,
    own_pending, pending_proposed, published, signed_header, ProduceStep, SolvedIntent,
    SystemAddresses,
};
use crate::recovery::{
    eager_at, eager_plan, repaired, reset_state, restored, rollback_reaches, rolled_back, Source,
};
use crate::slashing::SlashingEvidence;
use crate::store::{
    apply_delta, durable_plan, durable_record, lookup, undo_all, undoes, Plan, StateStore,
};
use crate::table::Slot;
use crate::types::{
    views, ActionView, Attestation, BlockView, Delta, EngineConfig, HeaderView, OperationView,
    PendingView, ResultView,
};
use crate::validator::{active_stake, count_active, is_active_in, stake_in, ValidatorInfo};
use crate::vote_laws::listed_by;

verus! {

/// A produced block commits to what it holds. Its transactions root is the digest of
/// the operations' encoding and its receipts root that of the receipts' encoding, each
/// zero where there are none. It has the state root that executing it gave, the next
/// height and that height's epoch, names the last block as its parent, comes one block
/// time after it, and is this node's.
pub proof fn produced_header_commits_to_block(
    s: State,
    operations: Seq<OperationView>,
    result: ResultView,
    operations_json: Option<Seq<u8>>,
    receipts_json: Option<Seq<u8>>,
)
    requires
        operations.len() <= u64::MAX,
        result.receipts.len() <= u64::MAX,
        s.chain.len() > 0 ==> s.chain.last().header.height < u64::MAX,
    ensures
        ({
            let header = signed_header(
                s,
                next_header(s, operations, result, operations_json, receipts_json),
            );
            &&& operations.len() == 0 ==> header.transactions_root == zero_hash_spec()
            &&& operations.len() > 0 ==> (operations_json matches Some(data)
                ==> header.transactions_root == blake3_digest(data))
            &&& operations.len() > 0 && operations_json is None ==> header.transactions_root
                == blake3_digest(spec_u64_to_le_bytes(operations.len() as u64))
            &&& result.receipts.len() == 0 ==> header.receipts_root == zero_hash_spec()
            &&& result.receipts.len() > 0 ==> (receipts_json matches Some(data)
                ==> header.receipts_root == blake3_digest(data))
            &&& result.receipts.len() > 0 && receipts_json is None ==> header.receipts_root
                == blake3_digest(spec_u64_to_le_bytes(result.receipts.len() as u64))
            &&& header.state_root == result.state_root
            &&& header.proposer == s.config.validator_id
            &&& header.epoch == header.height / 100
            &&& s.chain.len() == 0 ==> header.height == 1 && header.parent_hash == zero_hash_spec()
                && header.timestamp_ms == s.config.block_time_ms
            &&& s.chain.len() > 0 ==> {
                let last = s.chain[s.chain.len() - 1].header;
                let later = last.timestamp_ms + s.config.block_time_ms;
                &&& header.height == last.height + 1
                &&& header.parent_hash == hash_of(last)
                &&& header.timestamp_ms == later || later > u64::MAX && header.timestamp_ms
                    == u64::MAX
            }
            &&& s.signing_keypair matches Some(key) ==> header.proposer_signature
                == ed25519_signature(key.seed@, hash_of(header)@)@
            &&& s.signing_keypair is None ==> header.proposer_signature.len() == 0
        }),
{
    let bare = next_header(s, operations, result, operations_json, receipts_json);
    crate::codec::hash_ignores_signature(bare, signed_header(s, bare).proposer_signature);
}

/// A block that this node proposes waits with everything that it is made of, as a block
/// that ran, and with this node's vote. As the only active validator the node is done:
/// the block is ready for the chain, attested by it alone.
pub proof fn produced_block_is_proposed<S: StateStore>(
    s: State,
    store: S,
    header: HeaderView,
    operations: Seq<OperationView>,
    execution: ExecutionView,
    order: Seq<ValidatorId>,
    now: Now,
    step: ProduceStep,
    after: State,
    new_store: S,
)
    requires
        published(s, store, header, operations, execution, order, now, step, after, new_store),
    ensures
        step is Alone <==> count_active(s.validators) <= 1,
        step matches ProduceStep::Alone(sealed) ==> {
            &&& sealed@.block.header == header
            &&& sealed@.block.operations == operations
            &&& sealed@.block.result == execution.result
            &&& sealed@.revert == execution.revert
            &&& sealed@.block.attestations.len() == 1
            &&& sealed@.block.attestations[0].validator_id == s.config.validator_id
            &&& sealed@.block.attestations[0].block_height == header.height
            &&& sealed@.block.attestations[0].block_hash == hash_of(header)
            &&& after == s
            &&& new_store == store
        },
{
}

/// What proposing a block does to the state, before the votes are counted.
pub proof fn proposal_waits_with_own_vote(
    s: State,
    header: HeaderView,
    operations: Seq<OperationView>,
    execution: ExecutionView,
    now: Now,
)
    ensures
        ({
            let pending = own_pending(header, operations, execution, now);
            let us = Slot { height: header.height, id: s.config.validator_id };
            let slot = Slot { height: header.height, id: hash_of(header) };
            let v2 = candidate_proposed(s, pending);
            let v1 = pending_proposed(s, pending);
            &&& pending.header == header
            &&& pending.operations == operations
            &&& pending.proposed_at_ms == now.mono_ms
            &&& pending.already_executed
            &&& pending.result == Some(execution.result)
            &&& pending.revert == Some(execution.revert)
            &&& v2.v2_blocks == s.v2_blocks.insert(slot, pending)
            &&& v2.v2_votes == s.v2_votes.insert(us, hash_of(header))
            &&& v2.v2_revotes == s.v2_revotes.push((header.height, hash_of(header)))
            &&& v2 == (State {
                v2_blocks: v2.v2_blocks,
                v2_votes: v2.v2_votes,
                v2_revotes: v2.v2_revotes,
                ..s
            })
            &&& v1.pending_blocks == s.pending_blocks.insert(header.height, pending)
            &&& forall|h: u64|
                h != header.height ==> (#[trigger] v1.pending_attestations.contains_key(h)
                    <==> s.pending_attestations.contains_key(h)) && (
                s.pending_attestations.contains_key(h) ==> v1.pending_attestations[h]
                    == s.pending_attestations[h])
            &&& v1.pending_attestations.contains_key(header.height) <==> {
                &&& s.pending_attestations.contains_key(header.height)
                &&& s.pending_attestations[header.height].filter(
                    |a: Attestation| a.block_hash == hash_of(header),
                ).len() > 0
            }
            &&& v1.pending_attestations.contains_key(header.height)
                ==> v1.pending_attestations[header.height]
                == s.pending_attestations[header.height].filter(
                |a: Attestation| a.block_hash == hash_of(header),
            )
            &&& v1 == (State {
                pending_blocks: v1.pending_blocks,
                pending_attestations: v1.pending_attestations,
                ..s
            })
        }),
{
    reveal(Seq::filter);
    let none = Seq::<Attestation>::empty();
    assert(none.filter(|a: Attestation| a.block_hash == hash_of(header)).len() == 0);
}

/// A proposed block waits with what running it gave, or, where this node's own
/// attestation completes more than two thirds of the active stake, goes to the chain
/// with that. An active node attests what it proposes.
pub proof fn proposed_block_waits_or_joins<S: StateStore>(
    s: State,
    store: S,
    header: HeaderView,
    operations: Seq<OperationView>,
    execution: ExecutionView,
    order: Seq<ValidatorId>,
    now: Now,
    next: Step,
    after: State,
    new_store: S,
)
    requires
        published(
            s,
            store,
            header,
            operations,
            execution,
            order,
            now,
            ProduceStep::Proposed(next),
            after,
            new_store,
        ),
        header.height < s.config.fork_choice_v2_height,
    ensures
        after.chain == s.chain,
        match next@ {
            StepView::Idle => {
                &&& after.pending_blocks == s.pending_blocks.insert(
                    header.height,
                    after.pending_blocks[header.height],
                )
                &&& runs_as(after.pending_blocks[header.height], header, operations, execution, now)
                &&& is_active_in(s.validators, s.config.validator_id)
                    ==> after.pending_attestations.contains_key(header.height) && listed_by(
                    after.pending_attestations[header.height],
                ).contains(s.config.validator_id)
            },
            StepView::Commit(sealed) => {
                &&& sealed.block.header == header
                &&& sealed.block.operations == operations
                &&& sealed.block.result == execution.result
                &&& sealed.revert == execution.revert
                &&& !sealed.fork_choice
                &&& listed_by(sealed.block.attestations).contains(s.config.validator_id)
                &&& 3 * stake_in(s.validators, listed_by(sealed.block.attestations)) > 2
                    * active_stake(s.validators)
            },
            StepView::Execute(_) => false,
        },
{
    let pending = own_pending(header, operations, execution, now);
    let t = pending_proposed(s, pending);
    let own = s.config.validator_id;
    let hash = hash_of(header);
    let mid = choose|mid: S| #[trigger]
        attestation_persisted(store, header, mid) && exists|outcome: AttestOutcome| #[trigger]
            attested(t, mid, own, header.height, hash, order, now, outcome, after, new_store)
                && next@ == attest_step(outcome);
    let outcome = choose|outcome: AttestOutcome| #[trigger]
        attested(t, mid, own, header.height, hash, order, now, outcome, after, new_store) && next@
            == attest_step(outcome);
    let held = attestations_at(t, header.height);
    assert(listed_by(held) =~= attesters(held));
    let one_more = held.push(
        Attestation { validator_id: own, block_height: header.height, block_hash: hash },
    );
    assert(listed_by(one_more) =~= attesters(one_more));
    assert(one_more[held.len() as int].validator_id == own);
    assert(listed_by(one_more).contains(own));
}

/// The block waits with everything that it is made of, as one that ran.
pub open spec fn runs_as(
    pending: PendingView,
    header: HeaderView,
    operations: Seq<OperationView>,
    execution: ExecutionView,
    now: Now,
) -> bool {
    &&& pending.header == header
    &&& pending.operations == operations
    &&& pending.proposed_at_ms == now.mono_ms
    &&& pending.already_executed
    &&& pending.result == Some(execution.result)
    &&& pending.revert == Some(execution.revert)
    &&& pending.mismatch_count == 0
}

/// A candidate that this node proposes is at hand with what running it gave, unless a
/// candidate goes to the chain at once.
pub proof fn proposed_candidate_is_at_hand<S: StateStore>(
    s: State,
    store: S,
    header: HeaderView,
    operations: Seq<OperationView>,
    execution: ExecutionView,
    order: Seq<ValidatorId>,
    now: Now,
    next: Step,
    after: State,
    new_store: S,
)
    requires
        published(
            s,
            store,
            header,
            operations,
            execution,
            order,
            now,
            ProduceStep::Proposed(next),
            after,
            new_store,
        ),
        header.height >= s.config.fork_choice_v2_height,
        next@ is Idle,
    ensures
        ({
            let slot = Slot { height: header.height, id: hash_of(header) };
            let us = Slot { height: header.height, id: s.config.validator_id };
            &&& after.v2_blocks == s.v2_blocks.insert(slot, after.v2_blocks[slot])
            &&& runs_as(after.v2_blocks[slot], header, operations, execution, now)
            &&& after.v2_votes.contains_key(us)
            &&& forall|other: Slot|
                other != us ==> (#[trigger] after.v2_votes.contains_key(other)
                    <==> s.v2_votes.contains_key(other)) && (s.v2_votes.contains_key(other)
                    ==> after.v2_votes[other] == s.v2_votes[other])
            &&& after.chain == s.chain
            &&& after.pending_blocks == s.pending_blocks
        }),
{
    let t = candidate_proposed(s, own_pending(header, operations, execution, now));
    let slot = Slot { height: header.height, id: hash_of(header) };
    assert(t.v2_blocks =~= s.v2_blocks.insert(slot, t.v2_blocks[slot]));
}

/// The record of the last attested block is the proposed one, and nothing else in the
/// store changes.
pub proof fn proposal_is_remembered<S: StateStore>(store: S, header: HeaderView, after: S)
    requires
        attestation_persisted(store, header, after),
        store.usable(),
    ensures
        lookup(after.contents(), last_attestation_key_of()) matches Some(data)
            && recorded_attestation(data) == Some((header.height, hash_of(header)@)),
        forall|key: Seq<u8>|
            key != last_attestation_key_of() ==> #[trigger] lookup(after.contents(), key) == lookup(
                store.contents(),
                key,
            ),
        after.root() == store.root(),
{
    crate::codec::attestation_record_round_trip(header.height, hash_of(header));
}

/// The users' operations of a block are those whose sender's account has not used their
/// nonce, or could not be read, in the order in which they came.
pub proof fn open_operations_are_the_unused_ones(
    ops: Seq<OperationView>,
    nonces: Seq<Option<u64>>,
)
    requires
        nonces.len() == ops.len(),
    ensures
        open_operations(ops, nonces) == ops.zip_with(nonces).filter(
            |p: (OperationView, Option<u64>)| !(p.1 matches Some(used) && p.0.nonce < used),
        ).map_values(|p: (OperationView, Option<u64>)| p.0),
    decreases ops.len(),
{
    let keep = |p: (OperationView, Option<u64>)|
        !(p.1 matches Some(used) && p.0.nonce < used);
    let first = |p: (OperationView, Option<u64>)| p.0;
    let pairs = ops.zip_with(nonces);
    reveal(Seq::filter);
    if ops.len() > 0 {
        let n = nonces.drop_last();
        open_operations_are_the_unused_ones(ops.drop_last(), n);
        open_needs_prefix(ops.drop_last(), nonces, n);
        assert(pairs.drop_last() =~= ops.drop_last().zip_with(n));
        assert(pairs.last() == (ops.last(), nonces.last()));
        let rest = pairs.drop_last().filter(keep);
        assert(rest.push(pairs.last()).map_values(first) =~= rest.map_values(first).push(
            ops.last(),
        ));
    } else {
        assert(pairs.filter(keep).map_values(first) =~= Seq::<OperationView>::empty());
    }
}

proof fn open_needs_prefix(
    ops: Seq<OperationView>,
    nonces: Seq<Option<u64>>,
    prefix: Seq<Option<u64>>,
)
    requires
        ops.len() <= nonces.len(),
        ops.len() <= prefix.len(),
        forall|i: int| 0 <= i < ops.len() ==> nonces[i] == prefix[i],
    ensures
        open_operations(ops, nonces) == open_operations(ops, prefix),
    decreases ops.len(),
{
    if ops.len() > 0 {
        open_needs_prefix(ops.drop_last(), nonces, prefix);
    }
}

/// A block holds the users' operations first, then one call of the staking contract for
/// each piece of evidence that waits, which names the offender and the penalty, then
/// one call of the intents contract for each solved intent.
pub proof fn block_holds_what_waits(
    s: State,
    drained: Seq<OperationView>,
    nonces: Seq<Option<u64>>,
    intents: Seq<SolvedIntent>,
    addresses: SystemAddresses,
)
    ensures
        ({
            let ops = block_operations(s, drained, nonces, intents, addresses);
            let users = open_operations(drained, nonces);
            let n = users.len();
            let m = s.pending_slashing.len();
            let solved = intents.filter(|i: SolvedIntent| i.solution is Some);
            &&& ops.len() == n + m + solved.len()
            &&& ops.take(n as int) == users
            &&& forall|i: int|
                0 <= i < m ==> {
                    let op = #[trigger] ops[n + i];
                    let evidence = s.pending_slashing[i];
                    &&& op.sender == s.config.validator_id
                    &&& op.nonce == 0
                    &&& op.max_fee == 0
                    &&& op.actions.len() == 1
                    &&& op.signature == seq![255u8]
                    &&& op.actions[0] matches ActionView::Call { target, method, args } && target
                        == addresses.staking && method == "slash"@ && args
                        == evidence.offender@ + spec_u64_to_le_bytes(evidence.penalty_bps)
                }
            &&& forall|i: int|
                0 <= i < solved.len() ==> {
                    let op = #[trigger] ops[n + m + i];
                    &&& op.sender == solved[i].intent.sender
                    &&& op.nonce == 0
                    &&& op.max_fee == solved[i].intent.max_fee
                    &&& op.actions.len() == 1
                    &&& op.signature == seq![255u8]
                    &&& op.actions[0] matches ActionView::Call { target, method, args } && target
                        == addresses.intents && method == "fulfill"@ && args == fulfill_args(
                        solved[i].intent.id,
                        views(solved[i].intent.constraints@),
                        solved[i].solution->0.solver,
                        solved[i].solution->0.claimed_tip,
                        views(solved[i].solution->0.operations@),
                    )
                }
        }),
{
    intents_in_order(addresses.intents, intents);
    let ops = block_operations(s, drained, nonces, intents, addresses);
    let users = open_operations(drained, nonces);
    assert(ops.take(users.len() as int) =~= users);
    let calls = crate::produce::intent_calls(addresses.intents, intents);
    let n = users.len() + s.pending_slashing.len();
    assert forall|i: int| 0 <= i < calls.len() implies #[trigger] ops[n + i] == calls[i] by {}
}

proof fn intents_in_order(address: ValidatorId, intents: Seq<SolvedIntent>)
    ensures
        ({
            let calls = crate::produce::intent_calls(address, intents);
            let solved = intents.filter(|i: SolvedIntent| i.solution is Some);
            &&& calls.len() == solved.len()
            &&& forall|i: int|
                0 <= i < calls.len() ==> (#[trigger] calls[i]) == crate::intents::fulfill_call(
                    address,
                    solved[i].intent,
                    solved[i].solution->0,
                )
        }),
    decreases intents.len(),
{
    reveal(Seq::filter);
    if intents.len() > 0 {
        intents_in_order(address, intents.drop_last());
    }
}

/// What a block leaves in the journal: it is the newest entry, with its own
/// reverse-delta. The entries before it stay, but for the oldest of two hundred and
/// fifty-six; those that do not lead up to it go.
pub proof fn journal_ends_with_the_block(journal: Plan, height: u64, delta: Delta)
    requires
        journal.len() <= 256,
    ensures
        ({
            let after = recorded(journal, 256, height, delta);
            &&& 0 < after.len() <= 256
            &&& after[after.len() - 1] == (height, delta)
            &&& journal.len() > 0 && height != journal[journal.len() - 1].0 + 1 ==> after.len() == 1
            &&& journal.len() == 0 ==> after.len() == 1
            &&& 0 < journal.len() < 256 && height == journal[journal.len() - 1].0 + 1
                ==> after.drop_last() == journal
            &&& journal.len() == 256 && height == journal[journal.len() - 1].0 + 1
                ==> after.drop_last() == journal.drop_first()
        }),
{
    let after = recorded(journal, 256, height, delta);
    if journal.len() > 0 && height == journal[journal.len() - 1].0 + 1 {
        if journal.len() == 256 {
            assert(after.drop_last() =~= journal.drop_first());
        } else {
            assert(after.drop_last() =~= journal);
        }
    }
}

/// A committed block is the new end of the chain, and nothing before it changes. Its
/// reverse-delta goes into the journal. Of what waits only what fork choice held at or
/// below its height leaves. The designated proposer's record is cleared where the block
/// is its own, no other validator's changes, and nobody's stake or status. The count of
/// timeouts ends only with more than two thirds of the stake behind the block.
pub proof fn commit_changes_no_more_than_it_should(
    s: State,
    sealed: SealedView,
    order: Seq<ValidatorId>,
)
    ensures
        ({
            let after = committed(s, sealed, order);
            let height = sealed.block.header.height;
            let own_slot = order.len() > 0 && order[0] == sealed.block.header.proposer;
            &&& after.chain == s.chain.push(sealed.block)
            &&& after.journal == recorded(s.journal, 256, height, sealed.revert)
            &&& after.validators.len() == s.validators.len()
            &&& forall|i: int|
                0 <= i < s.validators.len() ==> {
                    let v = #[trigger] after.validators[i];
                    let old_v = s.validators[i];
                    &&& v.id == old_v.id
                    &&& v.stake == old_v.stake
                    &&& v.status == old_v.status
                    &&& v.missed_blocks == if own_slot && old_v.id == order[0] {
                        0
                    } else {
                        old_v.missed_blocks
                    }
                }
            &&& after.consecutive_force_finalizes == if 3 * stake_in(
                s.validators,
                listed_by(sealed.block.attestations),
            ) > 2 * active_stake(s.validators) {
                0
            } else {
                s.consecutive_force_finalizes
            }
            &&& forall|slot: Slot| #[trigger]
                after.v2_invalid.contains_key(slot) <==> s.v2_invalid.contains_key(slot)
                    && slot.height > height
            &&& forall|slot: Slot| #[trigger]
                after.v2_votes.contains_key(slot) <==> s.v2_votes.contains_key(slot) && (
                !sealed.fork_choice || slot.height > height)
            &&& forall|slot: Slot| #[trigger]
                after.v2_votes.contains_key(slot) ==> after.v2_votes[slot] == s.v2_votes[slot]
            &&& forall|slot: Slot| #[trigger]
                after.v2_blocks.contains_key(slot) <==> s.v2_blocks.contains_key(slot) && (
                !sealed.fork_choice || slot.height > height)
            &&& forall|slot: Slot| #[trigger]
                after.v2_blocks.contains_key(slot) ==> after.v2_blocks[slot] == s.v2_blocks[slot]
            &&& after == (State {
                chain: after.chain,
                journal: after.journal,
                validators: after.validators,
                consecutive_force_finalizes: after.consecutive_force_finalizes,
                events: after.events,
                v2_invalid: after.v2_invalid,
                v2_votes: after.v2_votes,
                v2_blocks: after.v2_blocks,
                ..s
            })
        }),
{
    let list = sealed.block.attestations;
    assert(listed_by(list) =~= attesters(list));
}

/// Subscribers are told of a committed block once, and of each of its receipts in
/// order, after everything that they were told before.
pub proof fn commit_tells_subscribers(s: State, sealed: SealedView, order: Seq<ValidatorId>)
    requires
        sealed.block.result.receipts.len() <= u32::MAX,
    ensures
        ({
            let block = sealed.block;
            let told = committed(s, sealed, order).events;
            let n = s.events.len();
            &&& produced_alone(s, sealed).events == told
            &&& told.len() == n + 1 + block.result.receipts.len()
            &&& told.take(n as int) == s.events
            &&& told[n as int] == (NodeEvent::BlockFinalized {
                height: block.header.height,
                epoch: block.header.epoch,
                block_hash: hash_of(block.header),
                state_root: block.header.state_root,
                proposer: block.header.proposer,
                timestamp_ms: block.header.timestamp_ms,
                tx_count: block.result.receipts.len() as usize,
                gas_used: block.result.gas_used,
            })
            &&& forall|i: int|
                0 <= i < block.result.receipts.len() ==> #[trigger] told[n + 1 + i] == (
                NodeEvent::TxIncluded {
                    block_height: block.header.height,
                    index: i as u32,
                    sender: block.result.receipts[i].sender,
                    nonce: block.result.receipts[i].nonce,
                    success: block.result.receipts[i].success,
                    gas_used: block.result.receipts[i].gas_used,
                })
        }),
{
    let told = committed(s, sealed, order).events;
    assert(told.take(s.events.len() as int) =~= s.events);
}

/// A block that a lone validator produced, or that was replayed, joins the chain and
/// the journal and changes nothing else but what subscribers are told.
pub proof fn plain_commit_only_appends(s: State, sealed: SealedView)
    ensures
        ({
            let replayed = appended(s, sealed);
            let alone = produced_alone(s, sealed);
            let journal = recorded(s.journal, 256, sealed.block.header.height, sealed.revert);
            &&& replayed == (State { chain: s.chain.push(sealed.block), journal, ..s })
            &&& alone == (State {
                chain: s.chain.push(sealed.block),
                journal,
                events: alone.events,
                ..s
            })
        }),
{
}

/// What a committed block leaves in the store. Its undo record is gone. Where it has an
/// encoding, that can be read back under its height, and a restart comes up at its
/// height and epoch. A pruning node drops up to ten blocks that are ten million blocks
/// old. Nothing else changes.
pub proof fn commit_is_stored<S: StateStore>(
    s: State,
    store: S,
    block: BlockView,
    encoded: Option<Seq<u8>>,
    after: S,
)
    requires
        stored(s, store, block, encoded, after),
        store.usable(),
    ensures
        after.usable(),
        after.root() == store.root(),
        ({
            let height = block.header.height;
            let undo = eager_revert_key_of(S::eager_prefix_of(), height);
            let body = block_key_of(height);
            let meta = chain_meta_key_of();
            forall|key: Seq<u8>|
                key != undo && key != body && key != meta ==> #[trigger] lookup(
                    after.contents(),
                    key,
                ) == if s.config.prune && (exists|h: u64|
                    h != 0 && height - 10_000_010 <= h < height - 10_000_000 && key
                        == #[trigger] block_key_of(h)) {
                    None
                } else {
                    lookup(store.contents(), key)
                }
        }),
        ({
            let height = block.header.height;
            let undo = eager_revert_key_of(S::eager_prefix_of(), height);
            let body = block_key_of(height);
            let meta = chain_meta_key_of();
            &&& encoded matches Some(data) ==> lookup(after.contents(), body) == Some(data)
            &&& encoded is Some ==> recorded_meta(lookup(after.contents(), meta)) == (
                height,
                block.header.epoch,
            )
            &&& encoded is None && body != undo ==> lookup(after.contents(), body) == lookup(
                store.contents(),
                body,
            )
            &&& encoded is None && meta != undo ==> lookup(after.contents(), meta) == lookup(
                store.contents(),
                meta,
            )
            &&& undo != body && undo != meta ==> lookup(after.contents(), undo) is None
        }),
{
    let height = block.header.height;
    crate::codec::meta_record_round_trip(height, block.header.epoch);
    let gone = pruned_keys(height);
    let body = block_key_of(height);
    assert(!gone.contains(chain_meta_key_of())) by {
        if gone.contains(chain_meta_key_of()) {
            let h = choose|h: u64|
                prunes(height, h) && chain_meta_key_of() == #[trigger] block_key_of(h);
            keys_apart(h);
        }
    }
    keys_apart(height);
    assert(!gone.contains(body)) by {
        if gone.contains(body) {
            let h = choose|h: u64| prunes(height, h) && body == #[trigger] block_key_of(h);
            block_keys_distinct(h, height);
        }
    }
    assert forall|key: Seq<u8>| #[trigger] gone.contains(key) <==> (exists|h: u64|
        h != 0 && height - 10_000_010 <= h < height - 10_000_000 && key == #[trigger] block_key_of(
            h,
        )) by {
        if gone.contains(key) {
            let h = choose|h: u64| prunes(height, h) && key == #[trigger] block_key_of(h);
            assert(h != 0 && height - 10_000_010 <= h < height - 10_000_000);
        }
        if exists|h: u64|
            h != 0 && height - 10_000_010 <= h < height - 10_000_000 && key
                == #[trigger] block_key_of(h) {
            let h = choose|h: u64|
                h != 0 && height - 10_000_010 <= h < height - 10_000_000 && key
                    == #[trigger] block_key_of(h);
            assert(prunes(height, h));
        }
    }
}

/// Evidence waits at the end of the queue, unless its offender is accused already, and
/// everything that waited before stays. The offender's record of missed blocks starts
/// anew; no other validator changes, and nobody's stake or status.
pub proof fn evidence_waits_its_turn(s: State, evidence: SlashingEvidence)
    ensures
        ({
            let after = slashing_processed(s, evidence);
            let queue = s.pending_slashing;
            let n = queue.len();
            let known = exists|i: int|
                0 <= i < n && (#[trigger] queue[i]).offender == evidence.offender;
            &&& after.pending_slashing.len() == if known {
                n
            } else {
                n + 1
            }
            &&& after.pending_slashing.take(n as int) == queue
            &&& !known ==> after.pending_slashing[n as int] == evidence
            &&& after.validators.len() == s.validators.len()
            &&& forall|i: int|
                0 <= i < s.validators.len() ==> {
                    let v = #[trigger] after.validators[i];
                    let old_v = s.validators[i];
                    &&& v.id == old_v.id
                    &&& v.stake == old_v.stake
                    &&& v.status == old_v.status
                    &&& v.missed_blocks == if old_v.id == evidence.offender {
                        0
                    } else {
                        old_v.missed_blocks
                    }
                }
            &&& after == (State {
                validators: after.validators,
                pending_slashing: after.pending_slashing,
                ..s
            })
        }),
{
    let after = slashing_processed(s, evidence);
    let n = s.pending_slashing.len() as int;
    assert(after.pending_slashing.take(n) =~= s.pending_slashing);
}

/// At the start of an epoch the last block becomes the pending checkpoint, with nobody's
/// signature yet, and the latest checkpoint stays. The next proposer order is drawn by
/// the accumulated randomness from its activation height on, and by the last state root
/// before. Subscribers learn how many validators are active. Nothing else changes.
pub proof fn epoch_starts_from_the_last_block(s: State, inputs: EpochInputs)
    requires
        count_active(epoch_started(s, inputs).validators) <= usize::MAX,
    ensures
        ({
            let after = epoch_started(s, inputs);
            let told = NodeEvent::ValidatorSetChanged {
                epoch: inputs.epoch,
                active_count: count_active(after.validators) as usize,
            };
            &&& after.current_epoch == inputs.epoch
            &&& after.validators == synced(inputs.validators@, inputs.staking@).validators
            &&& after.events == s.events.push(told)
            &&& after.checkpoints.latest == s.checkpoints.latest
            &&& s.chain.len() == 0 ==> after.checkpoints.pending == s.checkpoints.pending
                && after.epoch_seed == s.epoch_seed
            &&& s.chain.len() > 0 ==> {
                let last = s.chain[s.chain.len() - 1].header;
                &&& after.checkpoints.pending matches Some(c)
                &&& c.height == last.height
                &&& c.epoch == inputs.epoch
                &&& c.block_hash == hash_of(last)
                &&& c.state_root == last.state_root
                &&& c.attestations.len() == 0
            }
            &&& s.chain.len() > 0 ==> after.epoch_seed == if s.chain[s.chain.len()
                - 1].header.height >= s.config.epoch_randomness_height {
                inputs.randomness_seed
            } else {
                blake3_digest(s.chain[s.chain.len() - 1].header.state_root@)
            }
            &&& after == (State {
                validators: after.validators,
                current_epoch: after.current_epoch,
                events: after.events,
                checkpoints: after.checkpoints,
                epoch_seed: after.epoch_seed,
                ..s
            })
        }),
{
}

/// A restored snapshot is a fresh start at its height: the chain is one block there with
/// the snapshot's root, and nothing waits. What the node knows beyond the chain, its
/// configuration, its key, its checkpoints, the evidence it found and whether it is
/// resyncing, stays.
pub proof fn snapshot_starts_afresh(
    s: State,
    height: u64,
    epoch: u64,
    root: Digest,
    staking: Seq<StakingValidator>,
)
    ensures
        ({
            let after = reset_state(s, height, epoch, root, staking);
            &&& after.chain.len() == 1
            &&& after.chain[0].header.height == height
            &&& after.chain[0].header.epoch == epoch
            &&& after.chain[0].header.state_root == root
            &&& after.chain[0].result.state_root == root
            &&& after.chain[0].header.parent_hash == zero_hash_spec()
            &&& after.chain[0].header.proposer == s.config.validator_id
            &&& after.chain[0].header.timestamp_ms == 0
            &&& after.chain[0].header.proposer_signature.len() == 0
            &&& after.chain[0].result.receipts.len() == 0
            &&& after.chain[0].result.gas_used == 0
            &&& after.chain[0].operations.len() == 0
            &&& after.chain[0].attestations.len() == 0
            &&& after.validators.len() == s.validators.len()
            &&& forall|i: int|
                0 <= i < s.validators.len() ==> {
                    let v = #[trigger] after.validators[i];
                    &&& v.id == s.validators[i].id
                    &&& v.status == s.validators[i].status
                    &&& v.missed_blocks == s.validators[i].missed_blocks
                    &&& v.stake == match staked_by(staking, v.id) {
                        Some(stake) => stake,
                        None => s.validators[i].stake,
                    }
                }
            &&& after.current_epoch == epoch
            &&& after.journal.len() == 0
            &&& after.pending_blocks == Map::<u64, PendingView>::empty()
            &&& after.pending_attestations == Map::<u64, Seq<Attestation>>::empty()
            &&& after.early_attestations.len() == 0
            &&& after.v2_blocks == Map::<Slot, PendingView>::empty()
            &&& after.v2_votes == Map::<Slot, Digest>::empty()
            &&& after.v2_invalid == Map::<Slot, ()>::empty()
            &&& after.v2_revotes.len() == 0
            &&& after.consecutive_force_finalizes == 0
            &&& after.consecutive_sync_reverts == 0
            &&& after.last_partition_probe_ms is None
            &&& after.dropped_block_height is None
            &&& after.config == s.config
            &&& after.signing_keypair == s.signing_keypair
            &&& after.pending_slashing == s.pending_slashing
            &&& after.checkpoints == s.checkpoints
            &&& after.trusted_checkpoints == s.trusted_checkpoints
            &&& after.epoch_seed == s.epoch_seed
            &&& after.needs_resync == s.needs_resync
            &&& after.resyncing == s.resyncing
            &&& after.events == s.events
        }),
{
    restake_takes_over_stakes(s.validators, staking);
}

/// A rollback leaves no block above its target, keeps every block up to it, and stands
/// in the target's epoch. Blocks that waited and their attestations go; votes,
/// candidates, evidence and checkpoints stay.
pub proof fn rollback_ends_at_its_target(s: State, target: u64)
    ensures
        ({
            let after = rolled_back(s, target);
            &&& forall|i: int|
                0 <= i < after.chain.len() ==> (#[trigger] after.chain[i]).header.height <= target
            &&& forall|i: int|
                0 <= i < s.chain.len() && (#[trigger] s.chain[i]).header.height <= target
                    ==> after.chain.contains(s.chain[i])
            &&& forall|i: int|
                0 <= i < after.chain.len() ==> s.chain.contains(#[trigger] after.chain[i])
            &&& after.current_epoch == target / 100
            &&& after.journal.is_prefix_of(s.journal)
            &&& after.pending_blocks == Map::<u64, PendingView>::empty()
            &&& after.pending_attestations == Map::<u64, Seq<Attestation>>::empty()
            &&& after.early_attestations.len() == 0
            &&& after.dropped_block_height is None
            &&& after.consecutive_force_finalizes == 0
            &&& after == (State {
                chain: after.chain,
                journal: after.journal,
                current_epoch: after.current_epoch,
                pending_blocks: after.pending_blocks,
                pending_attestations: after.pending_attestations,
                early_attestations: after.early_attestations,
                dropped_block_height: after.dropped_block_height,
                consecutive_force_finalizes: after.consecutive_force_finalizes,
                ..s
            })
        }),
{
    broadcast use vstd::seq_lib::group_filter_ensures;

    crate::journal::kept_bounds(s.journal, target);
    let p = |b: BlockView| b.header.height <= target;
    let after = rolled_back(s, target);
    assert forall|i: int| 0 <= i < after.chain.len() implies (
    #[trigger] after.chain[i]).header.height <= target by {
        assert(p(s.chain.filter(p)[i]));
    }
    assert forall|i: int|
        0 <= i < s.chain.len() && (#[trigger] s.chain[i]).header.height <= target implies after.chain.contains(
        s.chain[i],
    ) by {
        assert(p(s.chain[i]));
        assert(s.chain.filter(p).contains(s.chain[i]));
    }
    assert forall|i: int| 0 <= i < after.chain.len() implies s.chain.contains(
        #[trigger] after.chain[i],
    ) by {
        filtered_from(s.chain, p, i);
    }
    let n = crate::journal::kept(s.journal, target) as int;
    assert(after.journal =~= s.journal.take(n));
}

proof fn filtered_from(chain: Seq<BlockView>, p: spec_fn(BlockView) -> bool, i: int)
    requires
        0 <= i < chain.filter(p).len(),
    ensures
        chain.contains(chain.filter(p)[i]),
    decreases chain.len(),
{
    reveal(Seq::filter);
    let rest = chain.drop_last();
    if i < rest.filter(p).len() {
        filtered_from(rest, p, i);
        let j = choose|j: int| 0 <= j < rest.len() && rest[j] == rest.filter(p)[i];
        assert(chain[j] == chain.filter(p)[i]);
    } else {
        assert(chain[chain.len() - 1] == chain.filter(p)[i]);
    }
}

/// A rollback reaches every height below the tip down to the one before the oldest block
/// of the journal, and no other.
pub proof fn rollback_reaches_the_journal(s: State, target: u64)
    requires
        s.chain.len() > 0,
    ensures
        rollback_reaches(s, target) <==> {
            &&& target < s.chain[s.chain.len() - 1].header.height
            &&& s.journal.len() > 0
            &&& target + 1 >= s.journal[0].0
        },
{
}

/// A slot counts as missed when there is a designated proposer and the block is not its
/// own, and then it is the designated proposer that missed it.
pub proof fn missed_slot_is_the_designated(order: Seq<ValidatorId>, proposer: ValidatorId)
    ensures
        slot_missed(order, proposer) is Some <==> order.len() > 0 && order[0] != proposer,
        slot_missed(order, proposer) matches Some(id) ==> id == order[0],
{
}

/// A node comes up where it stopped: at the recorded height and epoch, with the store's
/// root at its tip, the given validators and trusted blocks, and nothing that waits.
pub proof fn node_comes_up_where_it_stopped(
    config: EngineConfig,
    validators: Seq<ValidatorInfo>,
    trusted: Seq<crate::checkpoint::TrustedCheckpoint>,
    meta: (u64, u64),
    root: Digest,
)
    ensures
        ({
            let s = initial_state(config, validators, trusted, meta, root);
            &&& meta.0 == 0 ==> s.chain.len() == 0
            &&& meta.0 > 0 ==> s.chain.len() == 1 && s.chain[0].header.height == meta.0
                && s.chain[0].header.epoch == meta.1 && s.chain[0].header.state_root == root
                && s.chain[0].result.state_root == root
            &&& s.current_epoch == meta.1
            &&& s.config == config
            &&& s.validators == validators
            &&& s.trusted_checkpoints == trusted
            &&& s.checkpoints.pending is None
            &&& s.checkpoints.latest is None
            &&& s.signing_keypair is None
            &&& s.journal.len() == 0
            &&& s.pending_blocks == Map::<u64, PendingView>::empty()
            &&& s.pending_attestations == Map::<u64, Seq<Attestation>>::empty()
            &&& s.early_attestations.len() == 0
            &&& s.pending_slashing.len() == 0
            &&& s.v2_blocks == Map::<Slot, PendingView>::empty()
            &&& s.v2_votes == Map::<Slot, Digest>::empty()
            &&& s.v2_invalid == Map::<Slot, ()>::empty()
            &&& s.v2_revotes.len() == 0
            &&& s.events.len() == 0
            &&& s.consecutive_force_finalizes == 0
            &&& s.consecutive_sync_reverts == 0
            &&& !s.needs_resync
            &&& !s.resyncing
            &&& s.dropped_block_height is None
            &&& s.last_partition_probe_ms is None
            &&& s.epoch_seed == zero_hash_spec()
        }),
{
}

/// Restoring the store touches nothing where it has the root of the last block, or where
/// there is none. Otherwise the blocks that ran ahead of finality are forgotten, those
/// and no others, and a resync is asked for only where the root still differs.
pub proof fn restore_forgets_only_what_ran<S: StateStore>(
    s: State,
    store: S,
    after: State,
    new_store: S,
)
    requires
        restored(s, store, after, new_store),
    ensures
        s.chain.len() == 0 || store.root() == s.chain[s.chain.len() - 1].result.state_root
            ==> after == s && new_store == store,
        s.chain.len() > 0 && store.root() != s.chain[s.chain.len() - 1].result.state_root ==> {
            &&& forall|slot: Slot| #[trigger]
                after.v2_blocks.contains_key(slot) <==> s.v2_blocks.contains_key(slot) && !(
                s.v2_blocks[slot].already_executed && s.v2_blocks[slot].revert is Some)
            &&& forall|slot: Slot| #[trigger]
                after.v2_blocks.contains_key(slot) ==> after.v2_blocks[slot] == s.v2_blocks[slot]
            &&& forall|height: u64| #[trigger]
                after.pending_blocks.contains_key(height) <==> s.pending_blocks.contains_key(height)
                    && !(s.pending_blocks[height].already_executed
                    && s.pending_blocks[height].revert is Some)
            &&& forall|height: u64| #[trigger]
                after.pending_blocks.contains_key(height) ==> after.pending_blocks[height]
                    == s.pending_blocks[height]
            &&& after.needs_resync <==> s.needs_resync || new_store.root() != s.chain[s.chain.len()
                - 1].result.state_root
        },
        after == (State {
            v2_blocks: after.v2_blocks,
            pending_blocks: after.pending_blocks,
            needs_resync: after.needs_resync,
            ..s
        }),
{
}

/// A restore undoes this node's own block that was pending: where it alone ran ahead of
/// finality, and undoing it gives the root of the last block, the store is as it was
/// before, and no resync is asked for.
pub proof fn restore_undoes_own_pending_block<S: StateStore>(
    s: State,
    store: S,
    after: State,
    new_store: S,
    height: u64,
    delta: Delta,
)
    requires
        restored(s, store, after, new_store),
        store.usable(),
        s.chain.len() > 0,
        store.root() != s.chain[s.chain.len() - 1].result.state_root,
        s.pending_blocks.contains_key(height),
        s.pending_blocks[height].already_executed,
        s.pending_blocks[height].revert == Some(delta),
        forall|h: u64|
            h != height && #[trigger] s.pending_blocks.contains_key(h)
                ==> !s.pending_blocks[h].already_executed,
        forall|slot: Slot| #[trigger]
            s.v2_blocks.contains_key(slot) ==> !s.v2_blocks[slot].already_executed,
        S::root_of(apply_delta(store.contents(), delta)) == s.chain[s.chain.len()
            - 1].result.state_root,
    ensures
        new_store.contents() == apply_delta(store.contents(), delta),
        new_store.root() == s.chain[s.chain.len() - 1].result.state_root,
        !after.pending_blocks.contains_key(height),
        after.needs_resync == s.needs_resync,
{
    assert(eager_at(s, Source::Pending(height)) == Some((height, delta)));
    restore_undoes_superseded_block(
        s,
        store,
        after,
        new_store,
        Source::Pending(height),
        height,
        delta,
    );
}

/// A restore undoes this node's own candidate likewise.
pub proof fn restore_undoes_own_candidate<S: StateStore>(
    s: State,
    store: S,
    after: State,
    new_store: S,
    own: Slot,
    delta: Delta,
)
    requires
        restored(s, store, after, new_store),
        store.usable(),
        s.chain.len() > 0,
        store.root() != s.chain[s.chain.len() - 1].result.state_root,
        s.v2_blocks.contains_key(own),
        s.v2_blocks[own].already_executed,
        s.v2_blocks[own].revert == Some(delta),
        forall|slot: Slot|
            slot != own && #[trigger] s.v2_blocks.contains_key(slot)
                ==> !s.v2_blocks[slot].already_executed,
        forall|h: u64| #[trigger]
            s.pending_blocks.contains_key(h) ==> !s.pending_blocks[h].already_executed,
        S::root_of(apply_delta(store.contents(), delta)) == s.chain[s.chain.len()
            - 1].result.state_root,
    ensures
        new_store.contents() == apply_delta(store.contents(), delta),
        new_store.root() == s.chain[s.chain.len() - 1].result.state_root,
        !after.v2_blocks.contains_key(own),
        after.needs_resync == s.needs_resync,
{
    assert(eager_at(s, Source::Candidate(own)) == Some((own.height, delta)));
    restore_undoes_superseded_block(
        s,
        store,
        after,
        new_store,
        Source::Candidate(own),
        own.height,
        delta,
    );
}

/// Where no block that the node knows of ran ahead and the store is still off, a restore
/// falls back on the undo records: the record of the next block, where it is the only
/// one above the tip, takes the store back to before that block.
pub proof fn restore_falls_back_on_records<S: StateStore>(
    s: State,
    store: S,
    after: State,
    new_store: S,
    delta: Delta,
)
    requires
        restored(s, store, after, new_store),
        store.usable(),
        s.chain.len() > 0,
        s.chain[s.chain.len() - 1].header.height < u64::MAX,
        store.root() != s.chain[s.chain.len() - 1].result.state_root,
        S::root_of(store.contents()) != s.chain[s.chain.len() - 1].result.state_root,
        forall|slot: Slot| #[trigger]
            s.v2_blocks.contains_key(slot) ==> !s.v2_blocks[slot].already_executed,
        forall|h: u64| #[trigger]
            s.pending_blocks.contains_key(h) ==> !s.pending_blocks[h].already_executed,
        durable_record(
            store.contents(),
            S::eager_prefix_of(),
            (s.chain[s.chain.len() - 1].header.height + 1) as u64,
        ) == Some(delta),
        forall|h: u64|
            h > s.chain[s.chain.len() - 1].header.height + 1 ==> (#[trigger] durable_record(
                store.contents(),
                S::eager_prefix_of(),
                h,
            )) is None,
    ensures
        new_store.contents() == apply_delta(store.contents(), delta),
        new_store.root() == S::root_of(new_store.contents()),
{
    let tip = s.chain[s.chain.len() - 1].header.height;
    let target = s.chain[s.chain.len() - 1].result.state_root;
    let contents = store.contents();
    let prefix = S::eager_prefix_of();
    let (sources, plan) = choose|sources: Seq<Source>, plan: Plan| #[trigger]
        eager_plan(s, sources, plan) && repaired(contents, plan, tip, target, new_store);
    if plan.len() > 0 {
        assert(eager_at(s, sources[0]) == Some(plan[0]));
    }
    assert(undo_all(contents, plan) == contents);
    let durable = choose|durable: Plan| #[trigger]
        durable_plan(contents, prefix, tip, durable) && new_store.contents() == undo_all(
            contents,
            durable,
        ) && new_store.root() == S::root_of(new_store.contents());
    let next = (tip + 1) as u64;
    assert forall|i: int| 0 <= i < durable.len() implies (#[trigger] durable[i]).0 == next by {
        assert(durable_record(contents, prefix, durable[i].0) is Some);
    }
    assert(undoes(durable, next));
    if durable.len() > 1 {
        assert(durable[0].0 > durable[1].0);
    }
    assert(undo_all(contents, durable.drop_last()) == contents);
    assert(durable.last() == durable[0] && durable[0].1 == delta);
}

/// A block that fails execution changes nothing but what bars it: where fork choice is
/// in force it leaves the candidates, is marked, and loses this node's vote; otherwise
/// the node asks for a resync.
pub proof fn failed_block_is_barred_or_resyncs(s: State, job: JobView)
    ensures
        ({
            let header = job.pending.header;
            let slot = Slot { height: header.height, id: hash_of(header) };
            let us = Slot { height: header.height, id: s.config.validator_id };
            let after = rejected(s, job);
            if header.height < s.config.fork_choice_v2_height {
                after == (State { needs_resync: true, ..s })
            } else {
                &&& !after.v2_blocks.contains_key(slot)
                &&& after.v2_invalid == s.v2_invalid.insert(slot, ())
                &&& after.v2_votes == if s.v2_votes.contains_key(us) && s.v2_votes[us] == slot.id {
                    s.v2_votes.remove(us)
                } else {
                    s.v2_votes
                }
                &&& after == (State {
                    v2_blocks: s.v2_blocks.remove(slot),
                    v2_invalid: after.v2_invalid,
                    v2_votes: after.v2_votes,
                    ..s
                })
            }
        }),
{
}

/// A block has waited too long once more than the timeout has passed since it came, and
/// attestations at or below the last block's height are swept away, those and no others.
pub proof fn waiting_ends(s: State, pending: PendingView, timeout_ms: u64, now: Now)
    ensures
        timed_out(pending, timeout_ms, now) <==> now.mono_ms > pending.proposed_at_ms + timeout_ms,
        ({
            let after = swept(s);
            let tip = if s.chain.len() == 0 {
                0
            } else {
                s.chain[s.chain.len() - 1].header.height
            };
            &&& forall|height: u64| #[trigger]
                after.pending_attestations.contains_key(height)
                    <==> s.pending_attestations.contains_key(height) && height > tip
            &&& forall|height: u64| #[trigger]
                after.pending_attestations.contains_key(height)
                    ==> after.pending_attestations[height] == s.pending_attestations[height]
            &&& after == (State { pending_attestations: after.pending_attestations, ..s })
        }),
{
}

} // verus!
