//! Decisions of the engine, one by one.

use solen_consensus::accept::{AcceptOutcome, AttestOutcome, MAX_EARLY_ATTESTATIONS};
use solen_consensus::bytes::ValidatorId;
use solen_consensus::checkpoint::{TrustedCheckpoint, TrustedCheckpoints};
use solen_consensus::codec::{account_key, block_hash, block_key, eager_revert_key};
use solen_consensus::crypto::Keypair;
use solen_consensus::engine::{ConsensusEngine, NodeEvent, Now, SealedBlock, Step};
use solen_consensus::epoch::{EpochInputs, StakingValidator};
use solen_consensus::finality::{Execution, TimeoutAction};
use solen_consensus::intents::{Intent, Solution};
use solen_consensus::memory_store::MemoryStore;
use solen_consensus::produce::{ProduceStep, SolvedIntent, SystemAddresses};
use solen_consensus::slashing::{SlashingEvidence, SlashingReason};
use solen_consensus::store::{
    apply_durable_reverts_above, Bytes, Contents, Record, StateStore, StoreError,
};
use solen_consensus::table::Slot;
use solen_consensus::types::{
    Action, Attestation, BlockHeader, BlockResult, BlockRevert, EngineConfig, ExecutionReceipt,
    FinalizedBlock, RevertEntry, UserOperation,
};
use solen_consensus::validator::{ValidatorInfo, ValidatorSet};

type Engine = ConsensusEngine<MemoryStore>;

const NOW: Now = Now {
    wall_ms: 1_800_000_000_000,
    mono_ms: 50_000,
};

fn at(mono_ms: u64) -> Now {
    Now { mono_ms, ..NOW }
}

fn keys(n: u8) -> Vec<Keypair> {
    (0..n).map(|i| Keypair::from_seed([i + 1; 32])).collect()
}

fn ids(keys: &[Keypair]) -> Vec<ValidatorId> {
    keys.iter().map(|k| k.public_key()).collect()
}

fn engine_with(config: EngineConfig, order: &[ValidatorId], trusted: Vec<TrustedCheckpoint>) -> Engine {
    let set = ValidatorSet::new(order.iter().map(|id| ValidatorInfo::new(*id, 100)).collect());
    ConsensusEngine::with_validators(
        config,
        MemoryStore::new(),
        set,
        TrustedCheckpoints { list: trusted },
    )
}

fn engine(own: ValidatorId, order: &[ValidatorId], v2_from: u64) -> Engine {
    let config = EngineConfig {
        validator_id: own,
        fork_choice_v2_height: v2_from,
        ..Default::default()
    };
    engine_with(config, order, vec![])
}

fn header(height: u64, proposer: &Keypair, timestamp_ms: u64) -> BlockHeader {
    let mut h = BlockHeader {
        height,
        epoch: height / 100,
        parent_hash: [0; 32],
        state_root: [0; 32],
        transactions_root: [0; 32],
        receipts_root: [0; 32],
        proposer: proposer.public_key(),
        timestamp_ms,
        proposer_signature: vec![],
    };
    resign(&mut h, proposer);
    h
}

fn resign(h: &mut BlockHeader, key: &Keypair) {
    h.proposer_signature = key.sign(&block_hash(h)).to_vec();
}

fn execution(root: [u8; 32]) -> Execution {
    Execution {
        result: BlockResult {
            state_root: root,
            receipts: vec![],
            gas_used: 0,
        },
        revert: BlockRevert { entries: vec![] },
    }
}

fn undo(key: &[u8], value: Option<&[u8]>) -> BlockRevert {
    BlockRevert {
        entries: vec![RevertEntry {
            key: key.to_vec(),
            value: value.map(|v| v.to_vec()),
        }],
    }
}

fn sealed(height: u64, root: [u8; 32], revert: BlockRevert) -> SealedBlock {
    SealedBlock {
        block: FinalizedBlock {
            header: BlockHeader {
                height,
                epoch: height / 100,
                parent_hash: [0; 32],
                state_root: root,
                transactions_root: [0; 32],
                receipts_root: [0; 32],
                proposer: [1; 32],
                timestamp_ms: height,
                proposer_signature: vec![],
            },
            result: BlockResult {
                state_root: root,
                receipts: vec![],
                gas_used: 0,
            },
            attestations: vec![],
            operations: vec![],
        },
        revert,
        fork_choice: false,
    }
}

fn is_rejected(outcome: AcceptOutcome) -> bool {
    matches!(outcome, AcceptOutcome::Rejected)
}

fn is_ignored(outcome: AttestOutcome) -> bool {
    matches!(outcome, AttestOutcome::Ignored)
}

#[test]
fn blocks_are_turned_away_for_each_reason() {
    let ks = keys(3);
    let order = ids(&ks);
    let good = header(1, &ks[1], 1000);
    let accept = |h: &BlockHeader| {
        let mut e = engine(order[0], &order, u64::MAX);
        e.accept_block(h, &vec![], &order, NOW)
    };
    assert!(matches!(accept(&good), AcceptOutcome::Pending(_)));

    let outsider = Keypair::from_seed([99; 32]);
    let mut wrong_epoch = header(1, &ks[1], 1000);
    wrong_epoch.epoch = 1;
    resign(&mut wrong_epoch, &ks[1]);
    let mut unsigned = header(1, &ks[1], 1000);
    unsigned.proposer_signature.clear();
    let mut forged = header(1, &ks[1], 1000);
    resign(&mut forged, &ks[2]);
    for bad in [
        header(2, &ks[1], 1000),
        header(1, &ks[1], NOW.wall_ms + 30_001),
        header(1, &outsider, 1000),
        wrong_epoch,
        unsigned,
        forged,
    ] {
        assert!(is_rejected(accept(&bad)));
    }
    assert!(matches!(
        accept(&header(1, &ks[1], NOW.wall_ms + 30_000)),
        AcceptOutcome::Pending(_)
    ));

    // Not in the proposer order.
    let mut e = engine(order[0], &order, u64::MAX);
    assert!(is_rejected(e.accept_block(&good, &vec![], &vec![order[0]], NOW)));
    // While a snapshot is restored.
    e.set_resyncing(true);
    assert!(e.is_resyncing());
    assert!(is_rejected(e.accept_block(&good, &vec![], &order, NOW)));
    // Against a trusted checkpoint.
    let config = EngineConfig {
        validator_id: order[0],
        ..Default::default()
    };
    let trusted = vec![TrustedCheckpoint {
        height: 1,
        block_hash: [7; 32],
    }];
    let mut e = engine_with(config, &order, trusted);
    assert!(is_rejected(e.accept_block(&good, &vec![], &order, NOW)));
}

#[test]
fn blocks_must_extend_the_tip() {
    let ks = keys(3);
    let order = ids(&ks);
    let mut e = engine(order[0], &order, u64::MAX);
    e.commit_block(sealed(1, [0; 32], undo(b"acc/x", None)), &None, &order);
    let parent = block_hash(&e.latest_block().unwrap().header);
    let mut next = header(2, &ks[1], 1000);
    assert!(is_rejected(e.accept_block(&next, &vec![], &order, NOW)));
    next.parent_hash = parent;
    resign(&mut next, &ks[1]);
    let mut late = next.clone();
    late.timestamp_ms = 1;
    resign(&mut late, &ks[1]);
    assert!(is_rejected(e.accept_block(&late, &vec![], &order, NOW)));
    assert!(matches!(
        e.accept_block(&next, &vec![], &order, NOW),
        AcceptOutcome::Pending(_)
    ));
    // An old block.
    assert!(is_rejected(e.accept_block(&header(1, &ks[1], 1000), &vec![], &order, NOW)));
}

#[test]
fn competing_proposals_are_ranked() {
    let ks = keys(3);
    let order = ids(&ks);
    let mut e = engine(order[0], &order, u64::MAX);
    let third = header(1, &ks[2], 1000);
    let second = header(1, &ks[1], 1000);
    assert!(matches!(
        e.accept_block(&third, &vec![], &order, NOW),
        AcceptOutcome::Pending(_)
    ));
    assert!(is_rejected(e.accept_block(&third, &vec![], &order, NOW)));
    // The better rank replaces, the worse does not.
    assert!(matches!(
        e.accept_block(&second, &vec![], &order, NOW),
        AcceptOutcome::Pending(_)
    ));
    assert!(is_rejected(e.accept_block(&third, &vec![], &order, NOW)));
    // The same proposer again is a double signature.
    let twin = header(1, &ks[1], 2000);
    match e.accept_block(&twin, &vec![], &order, NOW) {
        AcceptOutcome::DoubleSign { first } => {
            assert_eq!(block_hash(&first), block_hash(&second))
        }
        other => panic!("unexpected outcome {:?}", other),
    }
}

#[test]
fn an_executed_proposal_is_not_replaced() {
    let ks = keys(3);
    let order = ids(&ks);
    // This node ranks last.
    let mut e = engine(order[2], &order, u64::MAX);
    let root = e.store().state_root();
    e.produce_block(vec![], execution(root), &None, &None, &order, NOW);
    assert!(e.has_pending_block(1));
    assert!(is_rejected(e.accept_block(&header(1, &ks[0], 9000), &vec![], &order, NOW)));
    assert!(e.pending_blocks.get(1).unwrap().already_executed);
}

#[test]
fn early_attestations_are_buffered_bounded_and_replayed() {
    let ks = keys(3);
    let order = ids(&ks);
    let mut e = engine(order[0], &order, u64::MAX);
    let block = header(1, &ks[1], 1000);
    let hash = block_hash(&block);
    assert!(is_ignored(e.accept_attestation(&order[1], 1, &hash, &order, at(0))));
    assert!(is_ignored(e.accept_attestation(&order[1], 1, &[5; 32], &order, at(0))));
    assert!(is_ignored(e.accept_attestation(&order[2], 1, &[5; 32], &order, at(1))));
    assert!(is_ignored(e.accept_attestation(&[42; 32], 1, &hash, &order, at(1))));
    assert_eq!(e.early_attestations.len(), 2);
    // Only the matching one comes out; the rest of the height is dropped.
    match e.accept_block(&block, &vec![], &order, at(1)) {
        AcceptOutcome::Pending(early) => {
            assert_eq!(early.len(), 1);
            assert_eq!(early[0].validator_id, order[1]);
        }
        other => panic!("unexpected outcome {:?}", other),
    }
    assert_eq!(e.early_attestations.len(), 0);

    // The buffer has an end, and forgets after ten seconds.
    for height in 10..400 {
        e.accept_attestation(&order[1], height, &hash, &order, at(2));
    }
    assert_eq!(e.early_attestations.len(), MAX_EARLY_ATTESTATIONS);
    e.accept_attestation(&order[1], 500, &hash, &order, at(10_001));
    assert_eq!(e.early_attestations.len(), MAX_EARLY_ATTESTATIONS);
    e.accept_attestation(&order[1], 500, &hash, &order, at(10_002));
    assert_eq!(e.early_attestations.len(), 1);
}

#[test]
fn attestations_count_once_and_only_for_the_block() {
    let ks = keys(4);
    let order = ids(&ks);
    let mut e = engine(order[0], &order, u64::MAX);
    let block = header(1, &ks[1], 1000);
    let hash = block_hash(&block);
    e.accept_block(&block, &vec![], &order, NOW);
    assert!(matches!(
        e.accept_attestation(&order[1], 1, &hash, &order, NOW),
        AttestOutcome::Recorded
    ));
    assert!(is_ignored(e.accept_attestation(&order[1], 1, &hash, &order, NOW)));
    assert!(is_ignored(e.accept_attestation(&order[2], 1, &[3; 32], &order, NOW)));
    assert_eq!(e.pending_blocks.get(1).unwrap().mismatch_count, 1);
    assert!(matches!(
        e.accept_attestation(&order[2], 1, &hash, &order, NOW),
        AttestOutcome::Recorded
    ));
    match e.accept_attestation(&order[3], 1, &hash, &order, NOW) {
        AttestOutcome::Finalizing(Step::Execute(job)) => {
            assert_eq!(job.attestations.len(), 3);
            assert!(!job.fork_choice);
            // Without fork choice a failed execution asks for a resync.
            assert!(e.complete_execution(job, None).is_none());
            assert!(e.take_resync_request());
            assert!(!e.resync_requested());
        }
        other => panic!("unexpected outcome {:?}", other),
    }
}

#[test]
fn verified_attestations_need_a_valid_signature() {
    let ks = keys(4);
    let order = ids(&ks);
    let mut e = engine(order[0], &order, u64::MAX);
    let block = header(1, &ks[1], 1000);
    let hash = block_hash(&block);
    e.accept_block(&block, &vec![], &order, NOW);
    let chain = e.config().chain_id;
    let payload = Engine::attestation_signing_payload(chain, 1, &hash);
    let other_chain = Engine::attestation_signing_payload(chain + 1, 1, &hash);
    let bad = ks[2].sign(&other_chain);
    assert!(is_ignored(e.accept_verified_attestation(&order[2], 1, &hash, &bad, &order, NOW)));
    let good = ks[2].sign(&payload);
    assert!(matches!(
        e.accept_verified_attestation(&order[2], 1, &hash, &good, &order, NOW),
        AttestOutcome::Recorded
    ));
}

#[test]
fn failed_candidates_are_barred_and_lose_our_vote() {
    let ks = keys(3);
    let order = ids(&ks);
    let mut e = engine(order[0], &order, 0);
    let block = header(1, &ks[1], 1000);
    let hash = block_hash(&block);
    assert!(matches!(
        e.accept_block(&block, &vec![], &order, NOW),
        AcceptOutcome::Candidate(Step::Idle)
    ));
    // The first vote makes it the leader, and we follow.
    e.accept_attestation(&order[1], 1, &hash, &order, NOW);
    assert_eq!(e.take_v2_revotes(), vec![(1, hash)]);
    match e.accept_attestation(&order[2], 1, &hash, &order, NOW) {
        AttestOutcome::Finalizing(Step::Execute(job)) => {
            assert_eq!(job.attestations.len(), 3);
            assert!(job.fork_choice);
            e.complete_execution(job, None);
        }
        other => panic!("unexpected outcome {:?}", other),
    }
    assert!(!e.resync_requested());
    assert!(e.v2_invalid.contains(Slot { height: 1, id: hash }));
    // The others' votes stand.
    assert_eq!(e.v2_votes.len(), 2);
    assert_eq!(e.v2_blocks.len(), 0);
    assert!(is_rejected(e.accept_block(&block, &vec![], &order, NOW)));
}

#[test]
fn a_failed_candidate_leaves_the_others_in_the_race() {
    let ks = keys(4);
    let order = ids(&ks);
    let mut e = engine(order[0], &order, 0);
    let bad = header(1, &ks[1], 1000);
    let good = header(1, &ks[2], 1000);
    let (bad_hash, good_hash) = (block_hash(&bad), block_hash(&good));
    e.accept_block(&bad, &vec![], &order, NOW);
    e.accept_block(&good, &vec![], &order, NOW);
    e.accept_attestation(&order[1], 1, &bad_hash, &order, NOW);
    match e.accept_attestation(&order[2], 1, &bad_hash, &order, NOW) {
        AttestOutcome::Finalizing(Step::Execute(job)) => {
            assert_eq!(block_hash(&job.pending.header), bad_hash);
            assert!(e.complete_execution(job, None).is_none());
        }
        other => panic!("unexpected outcome {:?}", other),
    }
    assert_eq!(e.height(), 0);
    assert!(!e.resync_requested());
    assert!(e.v2_invalid.contains(Slot { height: 1, id: bad_hash }));
    assert!(!e.v2_blocks.contains(Slot { height: 1, id: bad_hash }));
    assert!(e.v2_blocks.contains(Slot { height: 1, id: good_hash }));
    // Our vote follows the good one as soon as it leads.
    assert!(matches!(
        e.accept_attestation(&order[1], 1, &good_hash, &order, NOW),
        AttestOutcome::Recorded
    ));
    match e.accept_attestation(&order[2], 1, &good_hash, &order, NOW) {
        AttestOutcome::Finalizing(Step::Execute(job)) => {
            assert_eq!(block_hash(&job.pending.header), good_hash);
            assert_eq!(job.attestations.len(), 3);
            let sealed = e.complete_execution(job, Some(execution([0; 32]))).unwrap();
            e.commit_block(sealed, &None, &order);
        }
        other => panic!("unexpected outcome {:?}", other),
    }
    assert_eq!(e.height(), 1);
}

#[test]
fn a_second_signature_at_a_final_height_is_reported() {
    let ks = keys(3);
    let order = ids(&ks);
    let mut e = engine(order[0], &order, u64::MAX);
    let first = header(1, &ks[1], 1000);
    let mut block = sealed(1, [0; 32], undo(b"acc/x", None));
    block.block.header = first.clone();
    e.commit_block(block, &None, &order);
    for h in 2..5 {
        e.commit_block(sealed(h, [0; 32], undo(b"acc/x", None)), &None, &order);
    }
    let twin = header(1, &ks[1], 2000);
    match e.accept_block(&twin, &vec![], &order, NOW) {
        AcceptOutcome::DoubleSign { first: known } => {
            assert_eq!(block_hash(&known), block_hash(&first))
        }
        other => panic!("unexpected outcome {:?}", other),
    }
    assert_eq!(e.height(), 4);
    assert_eq!(e.chain().len(), 4);
    assert!(!e.has_pending_block(1));
    // The same block again proves nothing, nor does one without its signature, nor
    // another proposer's.
    assert!(is_rejected(e.accept_block(&first, &vec![], &order, NOW)));
    let mut unsigned = twin.clone();
    unsigned.proposer_signature.clear();
    assert!(is_rejected(e.accept_block(&unsigned, &vec![], &order, NOW)));
    let mut forged = twin.clone();
    resign(&mut forged, &ks[2]);
    assert!(is_rejected(e.accept_block(&forged, &vec![], &order, NOW)));
    let other = header(1, &ks[2], 2000);
    assert!(is_rejected(e.accept_block(&other, &vec![], &order, NOW)));
    e.set_resyncing(true);
    assert!(is_rejected(e.accept_block(&twin, &vec![], &order, NOW)));
}

#[test]
fn votes_elect_by_stake_then_rank() {
    let ks = keys(5);
    let order = ids(&ks);
    let mut e = engine(order[4], &order, 0);
    let a = header(1, &ks[1], 1000);
    let b = header(1, &ks[2], 1000);
    let (ha, hb) = (block_hash(&a), block_hash(&b));
    e.accept_block(&a, &vec![], &order, NOW);
    e.accept_block(&b, &vec![], &order, NOW);
    // A vote for the worse rank leads while it is alone: our own vote follows it.
    e.accept_attestation(&order[0], 1, &hb, &order, NOW);
    assert_eq!(e.take_v2_revotes(), vec![(1, hb)]);
    // Two against two: the better rank decides, and our vote moves on.
    e.accept_attestation(&order[1], 1, &ha, &order, NOW);
    assert_eq!(e.take_v2_revotes(), vec![]);
    e.accept_attestation(&order[2], 1, &ha, &order, NOW);
    assert_eq!(e.take_v2_revotes(), vec![(1, ha)]);
    let tally = e.v2_tally(1);
    let count = |h: [u8; 32]| tally.iter().find(|t| t.hash == h).unwrap().voters.len();
    assert_eq!((count(ha), count(hb)), (3, 1));
    // Votes for blocks that are not at hand elect nothing.
    e.accept_attestation(&order[3], 1, &[9; 32], &order, NOW);
    assert_eq!(e.height(), 0);
}

fn waiting(v: &[ValidatorId], height: u64) -> Engine {
    let mut e = engine(v[0], v, u64::MAX);
    for h in 1..height {
        e.commit_block(sealed(h, [0; 32], undo(b"acc/x", None)), &None, &v.to_vec());
    }
    let ks = keys(3);
    let mut block = header(height, &ks[1], 1_000_000);
    if let Some(tip) = e.latest_block() {
        block.parent_hash = block_hash(&tip.header);
        resign(&mut block, &ks[1]);
    }
    assert!(matches!(
        e.accept_block(&block, &vec![], &v.to_vec(), at(1_000)),
        AcceptOutcome::Pending(_)
    ));
    e
}

#[test]
fn timeouts_wait_for_a_quorum_and_then_give_up() {
    let order = ids(&keys(3));
    let mut e = waiting(&order, 4);
    assert_eq!(e.timed_out_heights(500, at(1_500)), Vec::<u64>::new());
    assert_eq!(e.timed_out_heights(500, at(1_501)), vec![4]);
    assert!(matches!(e.finalize_timed_out_block(5), TimeoutAction::Skipped));
    assert!(matches!(e.finalize_timed_out_block(4), TimeoutAction::Waiting));
    assert!(matches!(e.finalize_timed_out_block(4), TimeoutAction::Waiting));
    assert!(e.has_pending_block(4));
    assert!(matches!(e.finalize_timed_out_block(4), TimeoutAction::Abandoned));
    assert!(!e.has_pending_block(4));
    assert!(!e.is_likely_partitioned());
    assert!(matches!(e.finalize_timed_out_block(4), TimeoutAction::Abandoned));
    assert!(e.is_likely_partitioned());
    e.reset_partition_state();
    assert!(!e.is_likely_partitioned());
}

/// A node at height 3 whose pending block was attested by two of three validators and
/// then given up.
fn after_giving_up(order: &Vec<ValidatorId>) -> (Engine, BlockHeader) {
    let mut e = waiting(order, 4);
    let block = e.pending_blocks.get(4).unwrap().header.clone();
    for id in &order[..2] {
        assert!(matches!(
            e.accept_attestation(id, 4, &block_hash(&block), order, at(1_000)),
            AttestOutcome::Recorded
        ));
    }
    assert!(matches!(e.finalize_timed_out_block(4), TimeoutAction::Waiting));
    assert!(matches!(e.finalize_timed_out_block(4), TimeoutAction::Waiting));
    assert!(matches!(e.finalize_timed_out_block(4), TimeoutAction::Abandoned));
    assert!(!e.has_pending_block(4));
    assert_eq!(e.pending_attestations.get(4).unwrap().len(), 2);
    (e, block)
}

#[test]
fn votes_count_on_when_a_dropped_block_returns() {
    let order = ids(&keys(3));
    let (mut e, block) = after_giving_up(&order);
    let hash = block_hash(&block);
    assert!(matches!(
        e.accept_block(&block, &vec![], &order, at(2_000)),
        AcceptOutcome::Pending(_)
    ));
    assert_eq!(e.pending_attestations.get(4).unwrap().len(), 2);
    match e.accept_attestation(&order[2], 4, &hash, &order, at(2_000)) {
        AttestOutcome::Finalizing(Step::Execute(job)) => assert_eq!(job.attestations.len(), 3),
        other => panic!("unexpected outcome {:?}", other),
    }

    // The same of this node's own block, outvoted and proposed again.
    let mut e = engine(order[0], &order, u64::MAX);
    let root = e.store().state_root();
    let made = e.produce_block(vec![], execution(root), &None, &None, &order, NOW);
    let hash = block_hash(&made.produced.header);
    e.accept_attestation(&order[1], 1, &hash, &order, NOW);
    e.accept_attestation(&order[2], 1, &[8; 32], &order, NOW);
    assert!(matches!(e.finalize_timed_out_block(1), TimeoutAction::Dropped));
    assert_eq!(e.pending_attestations.get(1).unwrap().len(), 2);
    let again = e.produce_block(vec![], execution(root), &None, &None, &order, NOW);
    assert_eq!(block_hash(&again.produced.header), hash);
    assert_eq!(e.pending_attestations.get(1).unwrap().len(), 2);
    match e.accept_attestation(&order[2], 1, &hash, &order, NOW) {
        AttestOutcome::Finalizing(Step::Commit(sealed)) => {
            assert_eq!(sealed.block.attestations.len(), 3)
        }
        other => panic!("unexpected outcome {:?}", other),
    }
}

#[test]
fn votes_do_not_count_for_the_next_block() {
    let ks = keys(3);
    let order = ids(&ks);
    let (mut e, _) = after_giving_up(&order);
    // Another block takes its place, and needs a quorum of its own.
    let mut next = header(4, &ks[2], 2_000_000);
    next.parent_hash = block_hash(&e.latest_block().unwrap().header);
    resign(&mut next, &ks[2]);
    let hash = block_hash(&next);
    assert!(matches!(
        e.accept_block(&next, &vec![], &order, at(2_000)),
        AcceptOutcome::Pending(_)
    ));
    assert_eq!(e.pending_attestations.len(), 0);
    for id in &order[1..] {
        assert!(matches!(
            e.accept_attestation(id, 4, &hash, &order, at(2_000)),
            AttestOutcome::Recorded
        ));
    }
    match e.accept_attestation(&order[0], 4, &hash, &order, at(2_000)) {
        AttestOutcome::Finalizing(Step::Execute(job)) => {
            let voters: Vec<ValidatorId> = job.attestations.iter().map(|a| a.validator_id).collect();
            assert_eq!(voters, vec![order[1], order[2], order[0]]);
            assert!(job
                .attestations
                .iter()
                .all(|a| a.block_height == 4 && a.block_hash == hash));
        }
        other => panic!("unexpected outcome {:?}", other),
    }
}

#[test]
fn votes_stay_with_a_block_that_is_proposed_again() {
    let order = ids(&keys(4));
    let mut e = engine(order[0], &order, u64::MAX);
    let root = e.store().state_root();
    let made = e.produce_block(vec![], execution(root), &None, &None, &order, NOW);
    let hash = block_hash(&made.produced.header);
    e.accept_attestation(&order[1], 1, &hash, &order, NOW);
    assert_eq!(e.pending_attestations.get(1).unwrap().len(), 2);
    let again = e.produce_block(vec![], execution(root), &None, &None, &order, NOW);
    assert_eq!(block_hash(&again.produced.header), hash);
    assert_eq!(e.pending_attestations.get(1).unwrap().len(), 2);
    // A different block starts with this node's vote alone.
    let other = e.produce_block(vec![], execution([9; 32]), &None, &None, &order, NOW);
    assert_ne!(block_hash(&other.produced.header), hash);
    assert_eq!(e.pending_attestations.get(1).unwrap().len(), 1);
}

#[test]
fn a_pass_over_timeouts_counts_what_it_finalizes() {
    let order = ids(&keys(3));
    // With a quorum behind it the block goes on; nothing else does.
    let mut e = waiting(&order, 2);
    e.pending_attestations.insert(1, vec![]);
    let tip = e.height();
    let mut run = e.begin_timeouts(500, at(1_501));
    assert_eq!(run.heights, vec![2]);
    match e.next_timeout(&mut run) {
        Some(TimeoutAction::Finalized(Step::Execute(job))) => {
            let sealed = e.complete_execution(job, Some(execution([0; 32]))).unwrap();
            e.commit_block(sealed, &None, &order);
        }
        other => panic!("unexpected action {:?}", other),
    }
    assert!(e.next_timeout(&mut run).is_none());
    assert_eq!((run.done, run.finalized), (1, 1));
    assert_eq!(e.height(), tip + 1);
    assert_eq!(e.pending_attestations.len(), 0);

    let mut e = waiting(&order, 4);
    let mut run = e.begin_timeouts(500, at(1_501));
    assert!(matches!(e.next_timeout(&mut run), Some(TimeoutAction::Waiting)));
    assert!(e.next_timeout(&mut run).is_none());
    assert_eq!((run.done, run.finalized), (1, 0));
    assert_eq!(e.height(), 3);
    let run = e.begin_timeouts(500, at(1_500));
    assert!(run.heights.is_empty());
}

#[test]
fn timeouts_finalize_bootstrap_blocks_but_not_forever() {
    let order = ids(&keys(3));
    let mut e = waiting(&order, 2);
    assert!(matches!(
        e.finalize_timed_out_block(2),
        TimeoutAction::Finalized(Step::Execute(_))
    ));
    e.consecutive_force_finalizes = 3;
    assert!(matches!(e.finalize_timed_out_block(2), TimeoutAction::Abandoned));
}

#[test]
fn timeouts_drop_an_outvoted_own_block() {
    let ks = keys(3);
    let order = ids(&ks);
    let mut e = engine(order[0], &order, u64::MAX);
    let root = e.store().state_root();
    e.produce_block(vec![], execution(root), &None, &None, &order, NOW);
    e.accept_attestation(&order[1], 1, &[8; 32], &order, NOW);
    assert!(matches!(e.finalize_timed_out_block(1), TimeoutAction::Dropped));
    assert_eq!(e.take_dropped_block_height(), Some(1));
    assert_eq!(e.take_dropped_block_height(), None);
}

#[test]
fn forced_finalization_asks_for_a_quorum() {
    let order = ids(&keys(3));
    let mut e = waiting(&order, 4);
    assert!(e.force_finalize_block_if_quorum(4).is_none());
    assert!(e.has_pending_block(4));
    assert!(matches!(e.force_finalize_block(4), Step::Execute(_)));
    assert!(matches!(e.force_finalize_block(4), Step::Idle));
    let mut early = waiting(&order, 3);
    assert!(early.force_finalize_block_if_quorum(3).is_some());
    // With nothing pending there is nothing to finalize.
    assert!(early.force_finalize_block_if_quorum(3).is_none());
    let mut alone = ConsensusEngine::new(
        EngineConfig::default(),
        MemoryStore::new(),
        TrustedCheckpoints { list: vec![] },
    );
    assert!(alone.force_finalize_block_if_quorum(1).is_none());
    assert_eq!(alone.height(), 0);
}

#[test]
fn stale_entries_are_cleared_and_swept() {
    let order = ids(&keys(3));
    let mut e = waiting(&order, 4);
    let hash = block_hash(&e.pending_blocks.get(4).unwrap().header);
    e.accept_attestation(&order[1], 4, &hash, &order, NOW);
    e.clear_stale_pending(3);
    assert!(e.has_pending_block(4));
    e.clear_stale_pending(4);
    assert!(!e.has_pending_block(4));
    assert_eq!(e.pending_attestations.len(), 0);
    let mut e = waiting(&order, 4);
    e.pending_attestations.insert(3, vec![]);
    e.pending_attestations.insert(4, vec![]);
    e.sweep_attestations();
    assert!(!e.pending_attestations.contains(3));
    assert!(e.pending_attestations.contains(4));
}

#[test]
fn commits_store_the_block_and_survive_a_restart() {
    let order = ids(&keys(3));
    let mut e = engine(order[0], &order, u64::MAX);
    let record = eager_revert_key(&MemoryStore::eager_revert_prefix(), 250);
    e.store.put(&record, b"undo").unwrap();
    let mut block = sealed(250, [4; 32], undo(b"acc/x", None));
    block.block.header.proposer = order[0];
    block.block.attestations = vec![Attestation {
        validator_id: order[1],
        block_height: 250,
        block_hash: [0; 32],
    }];
    block.block.result.receipts = vec![ExecutionReceipt {
        sender: [6; 32],
        nonce: 2,
        success: true,
        gas_used: 21,
        error: None,
        events: vec![],
        auth_method: String::new(),
    }];
    e.validator_set.set_missed(&order[0], 4);
    e.consecutive_force_finalizes = 2;
    let missed = e.commit_block(block, &Some(b"encoded".to_vec()), &order);
    assert_eq!(missed, None);
    assert_eq!(e.validator_set().all()[0].missed_blocks, 0);
    assert_eq!(e.consecutive_force_finalizes, 2);
    assert_eq!(e.store().get(&record).unwrap(), None);
    assert_eq!(e.stored_block(250), Some(b"encoded".to_vec()));
    let events = e.take_events();
    assert_eq!(events.len(), 2);
    assert!(matches!(
        events[0],
        NodeEvent::BlockFinalized {
            height: 250,
            tx_count: 1,
            ..
        }
    ));
    assert!(matches!(
        events[1],
        NodeEvent::TxIncluded {
            index: 0,
            nonce: 2,
            ..
        }
    ));
    assert!(e.take_events().is_empty());

    let mut copy = MemoryStore::new();
    for r in e.store().scan_prefix(b"").unwrap() {
        copy.put(&r.key, &r.value).unwrap();
    }
    let set = ValidatorSet::new(vec![ValidatorInfo::new(order[0], 1)]);
    let back = ConsensusEngine::with_validators(
        EngineConfig::default(),
        copy,
        set,
        TrustedCheckpoints { list: vec![] },
    );
    assert_eq!(back.height(), 250);
    assert_eq!(back.current_epoch, 2);
}

#[test]
fn only_a_quorum_ends_a_partition() {
    let order = ids(&keys(3));
    let mut e = engine(order[0], &order, u64::MAX);
    let attested = |height: u64, by: &[ValidatorId]| {
        let mut block = sealed(height, [0; 32], undo(b"acc/x", None));
        block.block.attestations = by
            .iter()
            .map(|id| Attestation {
                validator_id: *id,
                block_height: height,
                block_hash: [0; 32],
            })
            .collect();
        block
    };
    e.consecutive_force_finalizes = 4;
    e.commit_block(attested(1, &[]), &None, &order);
    e.commit_block(attested(2, &order[..1]), &None, &order);
    e.commit_block(attested(3, &order[..2]), &None, &order);
    assert!(e.is_likely_partitioned());
    e.commit_block(attested(4, &order), &None, &order);
    assert!(!e.is_likely_partitioned());
    assert_eq!(e.consecutive_force_finalizes, 0);
}

#[test]
fn a_missed_slot_is_reported_and_recorded() {
    let order = ids(&keys(3));
    let mut e = engine(order[0], &order, u64::MAX);
    let missed = e.commit_block(sealed(1, [0; 32], undo(b"acc/x", None)), &None, &order);
    assert_eq!(missed, Some(order[0]));
    e.record_missed_slot(&order[0], 1, &None);
    assert_eq!(e.validator_set().all()[0].missed_blocks, 1);
    let evidence = SlashingEvidence {
        offender: order[0],
        reason: SlashingReason::Downtime { missed_blocks: 2 },
        penalty_bps: 10,
    };
    e.record_missed_slot(&order[0], 2, &Some(evidence));
    assert_eq!(e.validator_set().all()[0].missed_blocks, 0);
    assert_eq!(e.pending_slashing.len(), 1);
}

#[test]
fn pruning_nodes_drop_blocks_beyond_the_window() {
    let order = ids(&keys(1));
    let config = EngineConfig {
        prune: true,
        ..Default::default()
    };
    let mut e = engine_with(config, &order, vec![]);
    for h in [9u64, 10, 19, 20, 21] {
        e.store.put(&block_key(h), b"old").unwrap();
    }
    e.commit_synced(sealed(10_000_020, [0; 32], undo(b"a", None)), &Some(vec![1]));
    let held: Vec<bool> = [9u64, 10, 19, 20, 21]
        .iter()
        .map(|h| e.stored_block(*h).is_some())
        .collect();
    assert_eq!(held, vec![true, false, false, true, true]);
}

#[test]
fn journals_forget_across_gaps_and_bound_rollbacks() {
    let order = ids(&keys(3));
    let mut e = engine(order[0], &order, u64::MAX);
    assert_eq!(e.min_rollback_target(), None);
    for h in 1..=300u64 {
        e.commit_synced(sealed(h, [0; 32], undo(b"acc/x", None)), &None);
    }
    // 256 blocks are retained: 45 to 300.
    assert_eq!(e.min_rollback_target(), Some(44));
    assert!(!e.rollback_to_height(43, &[0; 32]));
    assert_eq!(e.height(), 300);
    e.commit_synced(sealed(400, [0; 32], undo(b"acc/x", None)), &None);
    assert_eq!(e.min_rollback_target(), Some(399));
}

#[test]
fn rollback_undoes_newest_first_and_checks_the_root() {
    let order = ids(&keys(3));
    let mut e = engine(order[0], &order, u64::MAX);
    e.store.put(b"acc/k", b"one").unwrap();
    e.store.commit_root();
    let root1 = e.store().state_root();
    e.commit_synced(sealed(1, root1, undo(b"acc/k", None)), &None);
    for (h, before, value) in [(2u64, b"one", b"two"), (3, b"two", b"tri")] {
        e.store.put(b"acc/k", value).unwrap();
        e.store.commit_root();
        let root = e.store().state_root();
        e.commit_synced(sealed(h, root, undo(b"acc/k", Some(before))), &None);
    }
    assert!(e.rollback_to_height(1, &root1));
    assert_eq!(e.store().get(b"acc/k").unwrap(), Some(b"one".to_vec()));
    assert_eq!(e.height(), 1);
    assert_eq!(e.min_rollback_target(), Some(0));
    // A wrong expectation keeps the chain and reports failure.
    assert!(!e.rollback_to_height(0, &[9; 32]));
    assert_eq!(e.height(), 1);
}

#[test]
fn an_unrepairable_store_asks_for_a_resync() {
    let order = ids(&keys(3));
    let mut e = engine(order[0], &order, u64::MAX);
    let root = e.store().state_root();
    e.commit_synced(sealed(1, root, undo(b"acc/x", None)), &None);
    e.restore_store_to_finalized_tip();
    assert!(!e.resync_requested());
    e.store.put(b"acc/leak", b"1").unwrap();
    e.store.commit_root();
    // An undo record for the next height repairs it.
    let pairs: Vec<(Vec<u8>, Option<Vec<u8>>)> = vec![(b"acc/leak".to_vec(), None)];
    let record = eager_revert_key(&MemoryStore::eager_revert_prefix(), 2);
    e.store.put(&record, &borsh::to_vec(&pairs).unwrap()).unwrap();
    e.restore_store_to_finalized_tip();
    assert!(!e.resync_requested());
    assert_eq!(e.store().state_root(), root);
    // Without one there is no way back.
    e.store.delete(&record).unwrap();
    e.store.put(b"acc/leak", b"2").unwrap();
    e.store.commit_root();
    e.restore_store_to_finalized_tip();
    assert!(e.resync_requested());
}

#[test]
fn repeated_sync_failures_mean_a_fork() {
    let ks = keys(3);
    let order = ids(&ks);
    let mut e = engine(order[0], &order, u64::MAX);
    let block = header(1, &ks[1], 1000);
    for _ in 0..4 {
        assert!(e.start_replay(&block));
        assert!(e.replay_synced_block(&block, &vec![], vec![], None).is_none());
        assert!(!e.resync_requested());
    }
    // A block that applies starts the count anew.
    let done = e.replay_synced_block(&block, &vec![], vec![], Some(execution([0; 32])));
    e.commit_synced(done.unwrap(), &None);
    assert!(!e.start_replay(&block));
    assert!(!e.start_replay(&header(3, &ks[1], 1000)));
    let mut wrong_epoch = header(2, &ks[1], 1000);
    wrong_epoch.epoch = 9;
    assert!(!e.start_replay(&wrong_epoch));
    let next = header(2, &ks[1], 1000);
    for i in 0..5 {
        assert!(!e.resync_requested(), "after {} failures", i);
        e.replay_synced_block(&next, &vec![], vec![], None);
    }
    assert!(e.resync_requested());
    assert_eq!(e.consecutive_sync_reverts, 0);
}

#[test]
fn synced_blocks_leave_no_gap() {
    let ks = keys(3);
    let order = ids(&ks);
    let mut e = engine(order[0], &order, u64::MAX);
    for height in [0, 2, 7] {
        let block = header(height, &ks[1], 6000);
        assert!(!e.start_replay(&block));
        let ran = Some(execution([0; 32]));
        assert!(e.replay_synced_block(&block, &vec![], vec![], ran).is_none());
        assert!(e.replay_synced_block(&block, &vec![], vec![], None).is_none());
    }
    assert_eq!(e.height(), 0);
    assert_eq!(e.consecutive_sync_reverts, 0);
    assert!(e.start_replay(&header(1, &ks[1], 6000)));
}

#[test]
fn synced_receipts_are_preferred() {
    let ks = keys(3);
    let order = ids(&ks);
    let mut e = engine(order[0], &order, u64::MAX);
    let receipt = |nonce: u64| ExecutionReceipt {
        sender: [1; 32],
        nonce,
        success: true,
        gas_used: 0,
        error: None,
        events: vec![],
        auth_method: String::new(),
    };
    let block = header(1, &ks[1], 1000);
    let mut ran = execution([0; 32]);
    ran.result.receipts = vec![receipt(1)];
    let sealed = e
        .replay_synced_block(&block, &vec![], vec![receipt(2)], Some(ran))
        .unwrap();
    assert_eq!(sealed.block.result.receipts[0].nonce, 2);
    let mut ran = execution([0; 32]);
    ran.result.receipts = vec![receipt(1)];
    let sealed = e
        .replay_synced_block(&block, &vec![], vec![], Some(ran))
        .unwrap();
    assert_eq!(sealed.block.result.receipts[0].nonce, 1);
}

#[test]
fn persisted_blocks_are_listed_up_to_the_first_gap() {
    let order = ids(&keys(1));
    let mut e = engine(order[0], &order, u64::MAX);
    for h in [1u64, 2, 4] {
        e.commit_synced(
            sealed(h, [0; 32], undo(b"a", None)),
            &Some(vec![h as u8]),
        );
    }
    assert_eq!(e.load_persisted_blocks_range(1, 10), vec![vec![1], vec![2]]);
    assert_eq!(e.load_persisted_blocks_range(1, 1), vec![vec![1]]);
    assert_eq!(e.get_blocks_for_sync(4, 10), vec![vec![4]]);
    assert_eq!(e.load_persisted_blocks(), vec![vec![1], vec![2]]);
    assert!(e.load_persisted_blocks_range(3, 10).is_empty());
    // No bound is too large.
    assert_eq!(e.get_blocks_for_sync(1, usize::MAX), vec![vec![1], vec![2]]);
    assert!(e.get_blocks_for_sync(u64::MAX, usize::MAX).is_empty());
}

#[test]
fn votes_count_before_their_block_arrives() {
    let ks = keys(4);
    let order = ids(&ks);
    let mut e = engine(order[0], &order, 0);
    let block = header(1, &ks[1], 1000);
    let hash = block_hash(&block);
    for id in &order[1..] {
        assert!(matches!(
            e.accept_attestation(id, 1, &hash, &order, NOW),
            AttestOutcome::Recorded
        ));
    }
    assert_eq!(e.v2_votes.len(), 3);
    match e.accept_block(&block, &vec![], &order, NOW) {
        AcceptOutcome::Candidate(Step::Execute(job)) => {
            assert_eq!(block_hash(&job.pending.header), hash);
            assert_eq!(job.attestations.len(), 3);
        }
        other => panic!("unexpected outcome {:?}", other),
    }
}

#[test]
fn undoing_twice_changes_nothing() {
    let mut store = MemoryStore::new();
    store.put(b"acc/a", b"new").unwrap();
    store.put(b"acc/b", b"kept").unwrap();
    let delta = BlockRevert {
        entries: vec![
            RevertEntry { key: b"acc/a".to_vec(), value: None },
            RevertEntry { key: b"acc/a".to_vec(), value: Some(b"old".to_vec()) },
            RevertEntry { key: b"acc/c".to_vec(), value: None },
        ],
    };
    store.apply_batch_atomic(&delta).unwrap();
    store.commit_root();
    let root = store.state_root();
    store.apply_batch_atomic(&delta).unwrap();
    store.commit_root();
    assert_eq!(store.state_root(), root);
    assert_eq!(store.get(b"acc/a").unwrap(), Some(b"old".to_vec()));
    assert_eq!(store.get(b"acc/b").unwrap(), Some(b"kept".to_vec()));
}

#[test]
fn epoch_seeds_agree_across_proposers() {
    let order = ids(&keys(3));
    let seed_of = |proposer: ValidatorId, timestamp_ms: u64| {
        let mut e = engine(order[0], &order, u64::MAX);
        let mut block = sealed(100, [6; 32], undo(b"a", None));
        block.block.header.proposer = proposer;
        block.block.header.timestamp_ms = timestamp_ms;
        e.commit_synced(block, &None);
        let inputs = EpochInputs {
            epoch: 1,
            validators: e.validator_set().all().clone(),
            staking: vec![],
            randomness_seed: [0; 32],
        };
        assert!(e.try_epoch_transition(100, inputs));
        e.epoch_seed()
    };
    assert_eq!(seed_of(order[0], 1), seed_of(order[2], 99_000));
}

#[test]
fn production_does_not_depend_on_the_time() {
    let ks = keys(3);
    let order = ids(&ks);
    let mut first = engine(order[0], &order, 0);
    first.set_signing_keypair(Keypair::from_seed([1; 32]));
    let root = first.store().state_root();
    let a = first.produce_block(vec![], execution(root), &None, &None, &order, NOW);
    let b = first.produce_block(vec![], execution(root), &None, &None, &order, at(99_999));
    assert_eq!(block_hash(&a.produced.header), block_hash(&b.produced.header));
    assert_eq!(a.produced.header.timestamp_ms, 2000);
    assert_eq!(a.produced.header.proposer_signature.len(), 64);
    assert!(first.header_is_validator_signed(&a.produced.header));
    assert_eq!(
        first.last_attested_block(),
        Some((1, block_hash(&a.produced.header)))
    );
    // And a peer takes it.
    let mut peer = engine(order[1], &order, 0);
    assert!(matches!(
        peer.accept_block(&a.produced.header, &vec![], &order, NOW),
        AcceptOutcome::Candidate(_)
    ));
}

#[test]
fn assembled_operations_are_fresh_and_in_order() {
    let order = ids(&keys(1));
    let mut e = engine(order[0], &order, u64::MAX);
    let op = |nonce: u64| UserOperation {
        sender: [1; 32],
        nonce,
        actions: vec![],
        max_fee: 0,
        signature: vec![],
    };
    e.process_slashing(&SlashingEvidence {
        offender: [9; 32],
        reason: SlashingReason::DoubleSign { height: 1 },
        penalty_bps: 5,
    });
    let intent = |id: u64, solved: bool| SolvedIntent {
        intent: Intent {
            id,
            sender: [3; 32],
            max_fee: 1,
            expiry_height: 10,
            constraints: vec![],
        },
        solution: if solved {
            Some(Solution {
                solver: [4; 32],
                claimed_tip: 0,
                operations: vec![],
            })
        } else {
            None
        },
    };
    let addresses = SystemAddresses {
        staking: [0xAA; 32],
        intents: [0xBB; 32],
    };
    let ops = e.assemble_operations(
        vec![op(1), op(2), op(3)],
        &vec![Some(2), Some(2), None],
        &vec![intent(1, false), intent(2, true)],
        &addresses,
    );
    let nonces: Vec<u64> = ops.iter().map(|o| o.nonce).collect();
    assert_eq!(nonces, vec![2, 3, 0, 0]);
    let targets: Vec<[u8; 32]> = ops[2..]
        .iter()
        .map(|o| match &o.actions[0] {
            Action::Call { target, .. } => *target,
            other => panic!("unexpected action {:?}", other),
        })
        .collect();
    assert_eq!(targets, vec![[0xAA; 32], [0xBB; 32]]);
    assert!(e.pending_slashing.is_empty());
}

#[test]
fn preparing_a_block_cleans_the_store_first() {
    let order = ids(&keys(3));
    let mut e = engine(order[0], &order, 0);
    let key = account_key(&[1; 32]);
    e.store.put(&key, &[2]).unwrap();
    e.store.commit_root();
    let root = e.store().state_root();
    e.commit_synced(sealed(1, root, undo(b"acc/x", None)), &None);
    // A block that was superseded wrote the account and left its undo record.
    e.store.put(&key, &[9]).unwrap();
    let pairs: Vec<(Vec<u8>, Option<Vec<u8>>)> = vec![(key.clone(), Some(vec![2]))];
    let record = eager_revert_key(&MemoryStore::eager_revert_prefix(), 2);
    e.store.put(&record, &borsh::to_vec(&pairs).unwrap()).unwrap();
    e.store.commit_root();
    e.process_slashing(&SlashingEvidence {
        offender: [9; 32],
        reason: SlashingReason::DoubleSign { height: 1 },
        penalty_bps: 5,
    });
    let op = |sender: u8, nonce: u64| UserOperation {
        sender: [sender; 32],
        nonce,
        actions: vec![],
        max_fee: 0,
        signature: vec![],
    };
    let addresses = SystemAddresses {
        staking: [0xAA; 32],
        intents: [0xBB; 32],
    };
    let ops = e.prepare_block(
        vec![op(1, 1), op(1, 2), op(1, 3), op(7, 0)],
        |account: &Vec<u8>| Some(u64::from(account[0])),
        &vec![],
        &addresses,
    );
    assert_eq!(e.store().state_root(), root);
    assert_eq!(e.store().get(&key).unwrap(), Some(vec![2]));
    assert!(!e.resync_requested());
    // The nonce was read after the repair; the penalty comes last.
    let listed: Vec<(u8, u64)> = ops.iter().map(|o| (o.sender[0], o.nonce)).collect();
    assert_eq!(listed[..3], [(1, 2), (1, 3), (7, 0)]);
    assert_eq!(listed.len(), 4);
    assert!(e.pending_slashing.is_empty());
}

#[test]
fn a_lone_validator_finalizes_at_once() {
    let order = ids(&keys(1));
    let mut e = engine(order[0], &order, u64::MAX);
    let root = e.store().state_root();
    let made = e.produce_block(vec![], execution(root), &None, &None, &order, NOW);
    assert!(made.produced.finalized.is_some());
    match made.step {
        ProduceStep::Alone(block) => {
            assert_eq!(block.block.attestations.len(), 1);
            e.commit_produced(block, &Some(vec![7]));
        }
        other => panic!("unexpected step {:?}", other),
    }
    assert_eq!(e.height(), 1);
    assert_eq!(e.stored_block(1), Some(vec![7]));
    assert_eq!(e.take_events().len(), 1);
}

#[test]
fn backups_and_probers_rotate_with_the_clock() {
    let order = ids(&keys(3));
    let at_secs = |secs: u64| Now {
        wall_ms: secs * 1000,
        mono_ms: 0,
    };
    let nodes: Vec<Engine> = order.iter().map(|id| engine(*id, &order, 0)).collect();
    for secs in 0..40u64 {
        let backups: Vec<bool> = nodes
            .iter()
            .map(|n| n.is_backup_proposer(6000, &order, at_secs(secs)))
            .collect();
        // Rounds of four seconds, starting with the first backup.
        let expected = ((secs / 4 + 1) % 3) as usize;
        assert_eq!(backups.iter().filter(|b| **b).count(), 1);
        assert!(backups[expected]);
        assert!(!nodes[expected].is_backup_proposer(5999, &order, at_secs(secs)));
    }
    for window in 0..6u64 {
        let expected = order[(window % 3) as usize];
        let now = at_secs(window * 30 + 29);
        assert_eq!(nodes[0].partition_probe_proposer(&order, now), Some(expected));
        assert!(nodes[(window % 3) as usize].is_partition_probe_proposer(&order, now));
    }
    assert_eq!(nodes[0].partition_probe_proposer(&vec![], NOW), None);
    assert!(!nodes[0].is_backup_proposer(u64::MAX, &vec![order[0]], NOW));
    assert!(nodes[0].is_next_proposer(&order));
    assert!(!nodes[1].is_next_proposer(&order));
}

#[test]
fn backups_wait_for_a_pending_block() {
    let ks = keys(3);
    let order = ids(&ks);
    let steps_in = |e: &Engine| {
        (0..40u64).any(|secs| {
            let now = Now {
                wall_ms: secs * 1000,
                mono_ms: 0,
            };
            e.is_backup_proposer(60_000, &order, now)
        })
    };
    let mut e = engine(order[1], &order, u64::MAX);
    assert!(steps_in(&e));
    e.accept_block(&header(1, &ks[2], 1000), &vec![], &order, NOW);
    assert!(e.has_pending_block(1));
    assert!(!steps_in(&e));
    // Its own block does not hold a node back.
    let mut e = engine(order[1], &order, u64::MAX);
    let root = e.store().state_root();
    e.produce_block(vec![], execution(root), &None, &None, &order, NOW);
    assert!(e.has_pending_block(1));
    assert!(steps_in(&e));
}

/// A store that can be told to refuse writes or reads. What stands for its contents in
/// proofs is never called.
struct Balky {
    inner: MemoryStore,
    refuse_writes: bool,
    refuse_reads: bool,
}

impl StateStore for Balky {
    fn contents(&self) -> Contents {
        unreachable!()
    }

    fn root(&self) -> [u8; 32] {
        unreachable!()
    }

    fn usable(&self) -> bool {
        unreachable!()
    }

    fn root_of(_: Contents) -> [u8; 32] {
        unreachable!()
    }

    fn eager_prefix_of() -> Bytes {
        unreachable!()
    }

    fn eager_revert_prefix() -> Vec<u8> {
        MemoryStore::eager_revert_prefix()
    }

    fn get(&self, key: &[u8]) -> Result<Option<Vec<u8>>, StoreError> {
        if self.refuse_reads {
            return Err(StoreError {});
        }
        self.inner.get(key)
    }

    fn put(&mut self, key: &[u8], value: &[u8]) -> Result<(), StoreError> {
        if self.refuse_writes {
            return Err(StoreError {});
        }
        self.inner.put(key, value)
    }

    fn delete(&mut self, key: &[u8]) -> Result<(), StoreError> {
        if self.refuse_writes {
            return Err(StoreError {});
        }
        self.inner.delete(key)
    }

    fn apply_batch_atomic(&mut self, writes: &BlockRevert) -> Result<(), StoreError> {
        if self.refuse_writes {
            return Err(StoreError {});
        }
        self.inner.apply_batch_atomic(writes)
    }

    fn commit_root(&mut self) {
        self.inner.commit_root()
    }

    fn state_root(&self) -> [u8; 32] {
        self.inner.state_root()
    }

    fn scan_prefix(&self, prefix: &[u8]) -> Result<Vec<Record>, StoreError> {
        if self.refuse_reads {
            return Err(StoreError {});
        }
        self.inner.scan_prefix(prefix)
    }
}

#[test]
fn refused_undo_records_are_not_reported_as_applied() {
    let store = |refuse_writes: bool| {
        let mut inner = MemoryStore::new();
        inner.put(b"acc/leak", b"1").unwrap();
        let pairs: Vec<(Vec<u8>, Option<Vec<u8>>)> = vec![(b"acc/leak".to_vec(), None)];
        let record = eager_revert_key(&MemoryStore::eager_revert_prefix(), 2);
        inner.put(&record, &borsh::to_vec(&pairs).unwrap()).unwrap();
        inner.commit_root();
        Balky {
            inner,
            refuse_writes,
            refuse_reads: false,
        }
    };
    let mut refusing = store(true);
    let root = refusing.state_root();
    assert!(!apply_durable_reverts_above(&mut refusing, 1));
    assert_eq!(refusing.state_root(), root);
    assert_eq!(refusing.get(b"acc/leak").unwrap(), Some(b"1".to_vec()));
    let mut serving = store(false);
    assert!(!apply_durable_reverts_above(&mut serving, 2));
    assert!(apply_durable_reverts_above(&mut serving, 1));
    assert_eq!(serving.get(b"acc/leak").unwrap(), None);
}

#[test]
fn an_unreadable_record_means_a_fresh_start() {
    let order = ids(&keys(1));
    let mut e = engine(order[0], &order, u64::MAX);
    e.commit_synced(sealed(250, [4; 32], undo(b"a", None)), &Some(vec![]));
    let back = |refuse_reads: bool| {
        let mut inner = MemoryStore::new();
        for r in e.store().scan_prefix(b"").unwrap() {
            inner.put(&r.key, &r.value).unwrap();
        }
        let store = Balky {
            inner,
            refuse_writes: false,
            refuse_reads,
        };
        let set = ValidatorSet::new(vec![ValidatorInfo::new(order[0], 1)]);
        let trusted = TrustedCheckpoints { list: vec![] };
        let node =
            ConsensusEngine::with_validators(EngineConfig::default(), store, set, trusted);
        (node.height(), node.current_epoch)
    };
    assert_eq!(back(false), (250, 2));
    assert_eq!(back(true), (0, 0));
}

#[test]
fn a_resync_is_asked_for_and_taken() {
    let order = ids(&keys(3));
    let mut e = engine(order[0], &order, 0);
    assert!(!e.take_resync_request());
    e.request_resync();
    assert!(e.resync_requested());
    assert!(e.take_resync_request());
    assert!(!e.resync_requested());
}

#[test]
fn probes_are_rationed() {
    let order = ids(&keys(3));
    let mut e = engine(order[0], &order, 0);
    assert!(e.partition_probe_due(at(0)));
    assert!(!e.partition_probe_due(at(29_999)));
    assert!(e.partition_probe_due(at(30_000)));
    assert!(!e.partition_probe_due(at(30_001)));
    e.reset_partition_state();
    assert!(e.partition_probe_due(at(30_002)));
}

#[test]
fn epochs_bring_validators_checkpoints_and_seeds() {
    let ks = keys(3);
    let order = ids(&ks);
    let mut e = engine(order[0], &order, u64::MAX);
    e.set_signing_keypair(Keypair::from_seed([1; 32]));
    e.commit_synced(sealed(100, [6; 32], undo(b"a", None)), &None);
    let inputs = |epoch: u64, e: &Engine| EpochInputs {
        epoch,
        validators: e.validator_set().all().clone(),
        staking: order
            .iter()
            .map(|id| StakingValidator {
                id: *id,
                is_active: true,
                total_stake: 200,
                total_delegated: 0,
                commission_rate_bps: 0,
            })
            .collect(),
        randomness_seed: [0xEE; 32],
    };
    let first = inputs(1, &e);
    assert!(!e.try_epoch_transition(99, inputs(1, &e)));
    assert!(e.try_epoch_transition(100, first));
    assert_eq!(e.current_epoch, 1);
    assert_eq!(e.validator_set().all()[0].stake, 200);
    assert_eq!(e.epoch_seed(), *blake3::hash(&[6; 32]).as_bytes());
    let hash = block_hash(&e.latest_block().unwrap().header);
    assert_eq!(e.pending_checkpoint(), Some((100, hash, [6; 32])));
    assert!(matches!(
        e.take_events()[0],
        NodeEvent::ValidatorSetChanged {
            epoch: 1,
            active_count: 3
        }
    ));

    // Signatures count only for the pending checkpoint.
    let signature = e.sign_checkpoint(b"checkpoint").unwrap();
    assert_eq!(signature, Keypair::from_seed([1; 32]).sign(b"checkpoint").to_vec());
    assert!(!e.attest_checkpoint(order[0], signature));
    assert!(!e.attest_checkpoint_with_data(order[1], vec![], 99, &hash, &[6; 32]));
    assert!(!e.attest_checkpoint_with_data(order[1], vec![], 100, &hash, &[6; 32]));
    assert!(e.attest_checkpoint_with_data(order[2], vec![], 100, &hash, &[6; 32]));
    assert_eq!(e.pending_checkpoint(), None);
    e.persist_finalized_checkpoint(&vec![1, 2]);
    assert_eq!(
        e.store().get(b"__finalized_checkpoint__").unwrap(),
        Some(vec![1, 2])
    );
    // The store does not have the checkpoint's root.
    assert!(e.reconcile_tip_with_finalized_checkpoint());
    assert!(e.resync_requested());

    // From the activation height on the accumulator's seed is used.
    e.config.epoch_randomness_height = 200;
    e.commit_synced(sealed(200, [7; 32], undo(b"a", None)), &None);
    let second = inputs(2, &e);
    e.try_epoch_transition(200, second);
    assert_eq!(e.epoch_seed(), [0xEE; 32]);
    assert!(!e.reconcile_tip_with_finalized_checkpoint());
}

#[test]
fn resets_start_from_the_stores_record() {
    let order = ids(&keys(3));
    let mut e = waiting(&order, 4);
    e.commit_synced(sealed(777, [1; 32], undo(b"a", None)), &Some(vec![]));
    let staking = vec![StakingValidator {
        id: order[1],
        is_active: true,
        total_stake: 900,
        total_delegated: 0,
        commission_rate_bps: 0,
    }];
    assert_eq!(e.reset_to_store_meta(&staking), (777, 7));
    assert_eq!(e.height(), 777);
    assert_eq!(e.chain().len(), 1);
    assert_eq!(e.current_epoch, 7);
    assert_eq!(e.min_rollback_target(), None);
    assert!(!e.has_pending_block(4));
    let stakes: Vec<u128> = e.validator_set().all().iter().map(|v| v.stake).collect();
    assert_eq!(stakes, vec![100, 900, 100]);
    assert_eq!(e.active_validator_count(), 3);
}

#[test]
fn memory_store_roots_follow_the_state_alone() {
    let mut a = MemoryStore::new();
    let mut b = MemoryStore::new();
    let empty = a.state_root();
    for (k, v) in [(&b"acc/1"[..], &b"x"[..]), (b"acc/2", b"y"), (b"acc/10", b"z")] {
        a.put(k, v).unwrap();
    }
    for (k, v) in [(&b"acc/10"[..], &b"z"[..]), (b"acc/2", b"y"), (b"acc/1", b"x")] {
        b.put(k, v).unwrap();
    }
    b.put(b"block/1", b"b").unwrap();
    b.put(b"__note__", b"n").unwrap();
    assert_eq!(a.state_root(), empty);
    a.commit_root();
    b.commit_root();
    assert_eq!(a.state_root(), b.state_root());
    assert_ne!(a.state_root(), empty);
    let listed: Vec<Vec<u8>> = a
        .scan_prefix(b"acc/1")
        .unwrap()
        .into_iter()
        .map(|r| r.key)
        .collect();
    assert_eq!(listed, vec![b"acc/1".to_vec(), b"acc/10".to_vec()]);
    a.apply_batch_atomic(&BlockRevert {
        entries: vec![
            RevertEntry { key: b"acc/1".to_vec(), value: None },
            RevertEntry { key: b"acc/2".to_vec(), value: Some(b"q".to_vec()) },
            RevertEntry { key: b"acc/10".to_vec(), value: None },
        ],
    })
    .unwrap();
    assert_eq!(a.get(b"acc/1").unwrap(), None);
    assert_eq!(a.get(b"acc/2").unwrap(), Some(b"q".to_vec()));
    a.delete(b"acc/2").unwrap();
    a.commit_root();
    assert_eq!(a.state_root(), empty);
}
