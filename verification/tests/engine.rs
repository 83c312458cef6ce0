//! Scenarios of whole nodes: a toy executor on an in-memory store around the engine.

use ed25519_dalek::{Signature, Verifier, VerifyingKey};
use solen_consensus::accept::{AcceptOutcome, AttestOutcome};
use solen_consensus::bytes::ValidatorId;
use solen_consensus::checkpoint::TrustedCheckpoints;
use solen_consensus::codec::{account_key, block_hash, eager_revert_key};
use solen_consensus::crypto::Keypair;
use solen_consensus::engine::{ConsensusEngine, Now, SealedBlock, Step, EPOCH_LENGTH};
use solen_consensus::finality::Execution;
use solen_consensus::fork_choice::Tally;
use solen_consensus::memory_store::MemoryStore;
use solen_consensus::produce::{ProduceStep, ProducedBlock, SystemAddresses};
use solen_consensus::slashing::{SlashingEvidence, SlashingReason};
use solen_consensus::store::StateStore;
use solen_consensus::table::Slot;
use solen_consensus::types::{
    Action, BlockHeader, BlockResult, BlockRevert, EngineConfig, ExecutionReceipt, FinalizedBlock,
    PendingBlock, RevertEntry, UserOperation,
};
use solen_consensus::validator::{ValidatorInfo, ValidatorSet};

const FEE: u128 = 7;
const WALL_MS: u64 = 1_800_000_000_000;

/// An account of the toy executor.
#[derive(Clone, Default)]
struct Account {
    balance: u128,
    nonce: u64,
    public_key: Vec<u8>,
}

impl Account {
    fn encode(&self) -> Vec<u8> {
        let mut out = self.balance.to_le_bytes().to_vec();
        out.extend_from_slice(&self.nonce.to_le_bytes());
        out.extend_from_slice(&self.public_key);
        out
    }

    fn decode(data: &[u8]) -> Account {
        Account {
            balance: u128::from_le_bytes(data[..16].try_into().unwrap()),
            nonce: u64::from_le_bytes(data[16..24].try_into().unwrap()),
            public_key: data[24..].to_vec(),
        }
    }
}

fn load(store: &MemoryStore, id: &[u8; 32]) -> Option<Account> {
    store
        .get(&account_key(id))
        .unwrap()
        .map(|data| Account::decode(&data))
}

fn operation_signing_message(op: &UserOperation) -> Vec<u8> {
    let mut out = op.sender.to_vec();
    out.extend_from_slice(&op.nonce.to_le_bytes());
    out.extend_from_slice(&op.max_fee.to_le_bytes());
    for action in &op.actions {
        out.extend_from_slice(format!("{:?}", action).as_bytes());
    }
    out
}

/// Writes with the values that they replace.
struct Overlay {
    revert: Vec<(Vec<u8>, Option<Vec<u8>>)>,
}

impl Overlay {
    fn write(&mut self, store: &mut MemoryStore, key: Vec<u8>, value: Vec<u8>) {
        if !self.revert.iter().any(|(k, _)| *k == key) {
            let before = store.get(&key).unwrap();
            self.revert.push((key.clone(), before));
        }
        store.put(&key, &value).unwrap();
    }
}

fn run_operation(store: &mut MemoryStore, overlay: &mut Overlay, op: &UserOperation) -> bool {
    let mut sender = match load(store, &op.sender) {
        Some(account) => account,
        None => return false,
    };
    if sender.nonce != op.nonce || op.signature.len() != 64 || sender.public_key.len() != 32 {
        return false;
    }
    let key = VerifyingKey::from_bytes(&sender.public_key.clone().try_into().unwrap()).unwrap();
    let signature = Signature::from_bytes(&op.signature.clone().try_into().unwrap());
    if key
        .verify(&operation_signing_message(op), &signature)
        .is_err()
    {
        return false;
    }
    let spent: u128 = op
        .actions
        .iter()
        .map(|a| match a {
            Action::Transfer { amount, .. } => *amount,
            _ => 0,
        })
        .sum();
    if sender.balance < spent + FEE {
        return false;
    }
    sender.balance -= spent + FEE;
    sender.nonce += 1;
    overlay.write(store, account_key(&op.sender), sender.encode());
    for action in &op.actions {
        if let Action::Transfer { to, amount } = action {
            let mut account = load(store, to).unwrap_or_default();
            account.balance += amount;
            overlay.write(store, account_key(to), account.encode());
        }
    }
    true
}

fn to_revert(pairs: Vec<(Vec<u8>, Option<Vec<u8>>)>) -> BlockRevert {
    BlockRevert {
        entries: pairs
            .into_iter()
            .map(|(key, value)| RevertEntry { key, value })
            .collect(),
    }
}

fn execute(
    store: &mut MemoryStore,
    ops: &[UserOperation],
    height: u64,
    durable: bool,
) -> Execution {
    let mut overlay = Overlay { revert: vec![] };
    let mut receipts = vec![];
    for op in ops {
        let success = run_operation(store, &mut overlay, op);
        receipts.push(ExecutionReceipt {
            sender: op.sender,
            nonce: op.nonce,
            success,
            gas_used: 21,
            error: None,
            events: vec![],
            auth_method: "ed25519".to_string(),
        });
    }
    let mut pairs = overlay.revert;
    if durable {
        let record = eager_revert_key(&MemoryStore::eager_revert_prefix(), height);
        pairs.push((record.clone(), None));
        store
            .put(&record, &borsh::to_vec(&pairs).unwrap())
            .unwrap();
    }
    store.commit_root();
    Execution {
        result: BlockResult {
            state_root: store.state_root(),
            receipts,
            gas_used: 21 * ops.len() as u64,
        },
        revert: to_revert(pairs),
    }
}

fn execute_checked(
    store: &mut MemoryStore,
    ops: &[UserOperation],
    height: u64,
    expected: &[u8; 32],
) -> Option<Execution> {
    let execution = execute(store, ops, height, false);
    if execution.result.state_root == *expected {
        Some(execution)
    } else {
        store.apply_batch_atomic(&execution.revert).unwrap();
        store.commit_root();
        None
    }
}

fn encode(block: &FinalizedBlock) -> Option<Vec<u8>> {
    Some(format!("{:?}", block).into_bytes())
}

fn no_checkpoints() -> TrustedCheckpoints {
    TrustedCheckpoints { list: vec![] }
}

/// An engine with its mempool, executor and clock.
struct Node {
    engine: ConsensusEngine<MemoryStore>,
    mempool: Vec<UserOperation>,
    now: Now,
}

impl Node {
    fn new(engine: ConsensusEngine<MemoryStore>) -> Node {
        Node {
            engine,
            mempool: vec![],
            now: Now {
                wall_ms: WALL_MS,
                mono_ms: 1_000,
            },
        }
    }

    fn with_validators(config: EngineConfig, store: MemoryStore, set: ValidatorSet) -> Node {
        Node::new(ConsensusEngine::with_validators(
            config,
            store,
            set,
            no_checkpoints(),
        ))
    }

    /// The active validators, in the order of the set.
    fn order(&self) -> Vec<ValidatorId> {
        self.engine
            .validator_set()
            .all()
            .iter()
            .filter(|v| v.is_active())
            .map(|v| v.id)
            .collect()
    }

    fn height(&self) -> u64 {
        self.engine.height()
    }

    fn root(&self) -> [u8; 32] {
        self.engine.store().state_root()
    }

    fn commit(&mut self, sealed: SealedBlock) {
        let encoded = encode(&sealed.block);
        let order = self.order();
        self.engine.commit_block(sealed, &encoded, &order);
    }

    fn drive(&mut self, step: Step) {
        match step {
            Step::Idle => {}
            Step::Commit(sealed) => self.commit(sealed),
            Step::Execute(job) => {
                let outcome = execute_checked(
                    &mut self.engine.store,
                    &job.pending.operations,
                    job.pending.header.height,
                    &job.pending.header.state_root,
                );
                if let Some(sealed) = self.engine.complete_execution(job, outcome) {
                    self.commit(sealed);
                }
            }
        }
    }

    fn produce_block(&mut self) -> ProducedBlock {
        let max = self.engine.config().max_ops_per_block.min(self.mempool.len());
        let drained: Vec<UserOperation> = self.mempool.drain(..max).collect();
        let addresses = SystemAddresses {
            staking: [0xAA; 32],
            intents: [0xBB; 32],
        };
        let operations = self.engine.prepare_block(
            drained,
            |account: &Vec<u8>| Some(Account::decode(account).nonce),
            &vec![],
            &addresses,
        );
        let height = self.engine.height() + 1;
        let execution = execute(&mut self.engine.store, &operations, height, true);
        let operations_json = Some(format!("{:?}", operations).into_bytes());
        let receipts_json = Some(format!("{:?}", execution.result.receipts).into_bytes());
        let order = self.order();
        let production = self.engine.produce_block(
            operations,
            execution,
            &operations_json,
            &receipts_json,
            &order,
            self.now,
        );
        match production.step {
            ProduceStep::Alone(sealed) => {
                let encoded = encode(&sealed.block);
                self.engine.commit_produced(sealed, &encoded);
            }
            ProduceStep::Proposed(step) => self.drive(step),
        }
        production.produced
    }

    fn accept_block(&mut self, header: &BlockHeader, ops: &[UserOperation]) -> bool {
        let order = self.order();
        match self
            .engine
            .accept_block(header, &ops.to_vec(), &order, self.now)
        {
            AcceptOutcome::Rejected | AcceptOutcome::DoubleSign { .. } => false,
            AcceptOutcome::Candidate(step) => {
                self.drive(step);
                true
            }
            AcceptOutcome::Pending(early) => {
                for e in early {
                    self.accept_attestation(e.validator_id, e.block_height, e.block_hash);
                }
                true
            }
        }
    }

    fn accept_attestation(&mut self, id: ValidatorId, height: u64, hash: [u8; 32]) -> bool {
        let before = self.height();
        let order = self.order();
        let outcome = self
            .engine
            .accept_attestation(&id, height, &hash, &order, self.now);
        match outcome {
            AttestOutcome::Finalizing(step) => {
                self.drive(step);
                !self.engine.fc_v2_active(height) || self.height() > before
            }
            _ => false,
        }
    }

    fn replay_synced_block(&mut self, header: &BlockHeader, ops: &[UserOperation]) -> bool {
        if !self.engine.start_replay(header) {
            return false;
        }
        let outcome = execute_checked(
            &mut self.engine.store,
            ops,
            header.height,
            &header.state_root,
        );
        match self
            .engine
            .replay_synced_block(header, &ops.to_vec(), vec![], outcome)
        {
            Some(sealed) => {
                let encoded = encode(&sealed.block);
                self.engine.commit_synced(sealed, &encoded);
                true
            }
            None => false,
        }
    }
}

fn keypairs(n: u8) -> Vec<Keypair> {
    (0..n).map(|i| Keypair::from_seed([i + 1; 32])).collect()
}

fn ids_of(keys: &[Keypair]) -> Vec<ValidatorId> {
    keys.iter().map(|k| k.public_key()).collect()
}

fn equal_set(ids: &[ValidatorId]) -> ValidatorSet {
    ValidatorSet::new(ids.iter().map(|id| ValidatorInfo::new(*id, 100)).collect())
}

fn sign(header: &mut BlockHeader, key: &Keypair) {
    let hash = block_hash(header);
    header.proposer_signature = key.sign(&hash).to_vec();
}

fn name(text: &[u8]) -> [u8; 32] {
    let mut id = [0u8; 32];
    id[..text.len()].copy_from_slice(text);
    id
}

fn setup_engine() -> (Node, Keypair, [u8; 32], [u8; 32]) {
    let mut store = MemoryStore::new();
    let kp = Keypair::from_seed([42; 32]);
    let alice = name(b"alic");
    let bob = name(b"bob");
    for (id, balance, public_key) in [
        (alice, 100_000, kp.public_key().to_vec()),
        (bob, 1_000, vec![]),
    ] {
        let account = Account {
            balance,
            nonce: 0,
            public_key,
        };
        store.put(&account_key(&id), &account.encode()).unwrap();
    }
    store.commit_root();
    let engine = ConsensusEngine::new(EngineConfig::default(), store, no_checkpoints());
    (Node::new(engine), kp, alice, bob)
}

fn setup_multi_validator_engine() -> Node {
    let config = EngineConfig {
        validator_id: [1u8; 32],
        ..Default::default()
    };
    Node::with_validators(
        config,
        MemoryStore::new(),
        equal_set(&[[1u8; 32], [2u8; 32], [3u8; 32]]),
    )
}

fn transfer(kp: &Keypair, from: [u8; 32], to: [u8; 32], nonce: u64, amount: u128) -> UserOperation {
    let mut op = UserOperation {
        sender: from,
        nonce,
        actions: vec![Action::Transfer { to, amount }],
        max_fee: 1000,
        signature: vec![],
    };
    op.signature = kp.sign(&operation_signing_message(&op)).to_vec();
    op
}

fn balance(node: &Node, id: &[u8; 32]) -> u128 {
    load(node.engine.store(), id).unwrap().balance
}

fn tip(node: &Node) -> ([u8; 32], u64) {
    node.engine
        .get_block(node.height())
        .map(|b| (block_hash(&b.header), b.header.timestamp_ms))
        .unwrap_or(([0u8; 32], 0))
}

fn empty_header(
    height: u64,
    parent_hash: [u8; 32],
    state_root: [u8; 32],
    proposer: ValidatorId,
    timestamp_ms: u64,
) -> BlockHeader {
    BlockHeader {
        height,
        epoch: height / EPOCH_LENGTH,
        parent_hash,
        state_root,
        transactions_root: [0u8; 32],
        receipts_root: [0u8; 32],
        proposer,
        timestamp_ms,
        proposer_signature: vec![],
    }
}

fn own_executed(header: BlockHeader, revert: BlockRevert) -> PendingBlock {
    PendingBlock {
        header,
        operations: vec![],
        proposed_at_ms: 1_000,
        already_executed: true,
        result: None,
        revert: Some(revert),
        mismatch_count: 0,
    }
}

#[test]
fn produce_empty_block() {
    let (mut node, _, _, _) = setup_engine();
    let produced = node.produce_block();
    let block = produced.finalized.unwrap();

    assert_eq!(block.header.height, 1);
    assert_eq!(block.result.receipts.len(), 0);
}

#[test]
fn produce_block_with_transactions() {
    let (mut node, kp, alice, bob) = setup_engine();
    node.mempool.push(transfer(&kp, alice, bob, 0, 500));

    let produced = node.produce_block();
    let block = produced.finalized.unwrap();
    assert_eq!(block.result.receipts.len(), 1);
    assert!(block.result.receipts[0].success);
}

#[test]
fn chain_grows_with_parent_hashes() {
    let (mut node, _, _, _) = setup_engine();

    node.produce_block();
    node.produce_block();
    node.produce_block();

    assert_eq!(node.height(), 3);

    let b2 = node.engine.get_block(2).unwrap();
    let b3 = node.engine.get_block(3).unwrap();
    assert_eq!(b3.header.parent_hash, block_hash(&b2.header));
}

#[test]
fn multi_validator_propose_and_attest() {
    let v2 = [2u8; 32];
    let v3 = [3u8; 32];
    let mut node = setup_multi_validator_engine();

    // The proposal waits for attestations.
    let produced = node.produce_block();
    assert!(produced.finalized.is_none());
    assert_eq!(node.height(), 0);

    // Two of three are not more than two thirds.
    let bh = block_hash(&produced.header);
    node.accept_attestation(v2, 1, bh);
    assert_eq!(node.height(), 0);

    node.accept_attestation(v3, 1, bh);
    assert_eq!(node.height(), 1);

    let block = node.engine.get_block(1).unwrap();
    assert_eq!(block.attestations.len(), 3);
}

#[test]
fn multi_validator_accept_block_from_peer() {
    let v1 = [1u8; 32];
    let config = EngineConfig {
        validator_id: [2u8; 32],
        ..Default::default()
    };
    let mut node = Node::with_validators(
        config,
        MemoryStore::new(),
        equal_set(&[v1, [2u8; 32], [3u8; 32], [4u8; 32]]),
    );

    let header = empty_header(1, [0u8; 32], [0u8; 32], v1, 12345);

    // The header is unsigned, so it is turned away.
    assert!(!node.accept_block(&header, &[]));
    assert_eq!(node.height(), 0);
}

#[test]
fn rollback_to_height_rewinds_state_to_common_ancestor() {
    let (mut node, kp, alice, bob) = setup_engine();
    fn produce_transfer(
        node: &mut Node,
        kp: &Keypair,
        from: [u8; 32],
        to: [u8; 32],
        nonce: u64,
        amount: u128,
    ) {
        node.mempool.push(transfer(kp, from, to, nonce, amount));
        node.produce_block();
    }

    produce_transfer(&mut node, &kp, alice, bob, 0, 500);
    produce_transfer(&mut node, &kp, alice, bob, 1, 300);
    let target_h = node.height();
    let target_root = node.engine.get_block(target_h).unwrap().header.state_root;
    let alice_at_target = balance(&node, &alice);
    let bob_at_target = balance(&node, &bob);
    assert_eq!(
        bob_at_target,
        1_000 + 800,
        "bob receives transfers (no fees on the recipient)"
    );

    produce_transfer(&mut node, &kp, alice, bob, 2, 100);
    produce_transfer(&mut node, &kp, alice, bob, 3, 100);
    produce_transfer(&mut node, &kp, alice, bob, 4, 100);
    assert_eq!(node.height(), target_h + 3);
    assert_ne!(
        node.engine
            .get_block(node.height())
            .unwrap()
            .header
            .state_root,
        target_root
    );
    assert_ne!(balance(&node, &alice), alice_at_target);

    assert!(node.engine.rollback_to_height(target_h, &target_root));
    assert_eq!(node.height(), target_h);
    assert_eq!(
        node.engine.get_block(target_h).unwrap().header.state_root,
        target_root
    );
    assert_eq!(node.root(), target_root, "live store root restored");
    assert_eq!(
        balance(&node, &alice),
        alice_at_target,
        "alice balance restored"
    );
    assert_eq!(balance(&node, &bob), bob_at_target, "bob balance restored");
    assert!(node.engine.get_block(target_h + 1).is_none());

    produce_transfer(&mut node, &kp, alice, bob, 2, 100);
    assert_eq!(node.height(), target_h + 1);
}

#[test]
fn competing_blocks_with_split_attestations_deadlock() {
    let kps = keypairs(5);
    let ids = ids_of(&kps);
    let config = EngineConfig {
        validator_id: ids[0],
        ..Default::default()
    };
    let mut node = Node::with_validators(config, MemoryStore::new(), equal_set(&ids));

    let head_h = node.height();
    let (parent_hash, parent_ts) = tip(&node);
    let next_h = head_h + 1;
    let make_block = |idx: usize| -> BlockHeader {
        let mut h = empty_header(next_h, parent_hash, [0u8; 32], ids[idx], parent_ts + 6000);
        sign(&mut h, &kps[idx]);
        h
    };

    let block_a = make_block(1);
    let block_b = make_block(2);
    let hash_a = block_hash(&block_a);
    let hash_b = block_hash(&block_b);
    assert_ne!(hash_a, hash_b);

    assert!(node.accept_block(&block_a, &[]), "block_a accepted");
    node.accept_block(&block_b, &[]);

    node.accept_attestation(ids[0], next_h, hash_a);
    node.accept_attestation(ids[1], next_h, hash_a);
    node.accept_attestation(ids[2], next_h, hash_b);
    node.accept_attestation(ids[3], next_h, hash_b);

    assert_eq!(
        node.height(),
        head_h,
        "split attestations cannot converge -> chain wedged (the bug under repair)"
    );
}

#[test]
fn competing_blocks_converge_under_fork_choice_v2() {
    let kps = keypairs(5);
    let ids = ids_of(&kps);
    let config = EngineConfig {
        validator_id: ids[0],
        fork_choice_v2_height: 0,
        ..Default::default()
    };
    let mut node = Node::with_validators(config, MemoryStore::new(), equal_set(&ids));

    let head_h = node.height();
    let (parent_hash, parent_ts) = tip(&node);
    let empty_root = node.root();
    let next_h = head_h + 1;
    let make_block = |idx: usize| -> BlockHeader {
        let mut h = empty_header(next_h, parent_hash, empty_root, ids[idx], parent_ts + 6000);
        sign(&mut h, &kps[idx]);
        h
    };

    let block_a = make_block(1);
    let block_b = make_block(2);
    let hash_a = block_hash(&block_a);
    let hash_b = block_hash(&block_b);
    assert_ne!(hash_a, hash_b);

    assert!(node.accept_block(&block_a, &[]));
    assert!(node.accept_block(&block_b, &[]));

    node.accept_attestation(ids[1], next_h, hash_a);
    node.accept_attestation(ids[2], next_h, hash_a);
    node.accept_attestation(ids[3], next_h, hash_b);
    node.accept_attestation(ids[4], next_h, hash_b);
    assert_eq!(node.height(), head_h, "2/2 split must not finalize");

    // The later votes replace the earlier ones.
    node.accept_attestation(ids[3], next_h, hash_a);
    node.accept_attestation(ids[4], next_h, hash_a);

    assert_eq!(
        node.height(),
        next_h,
        "vote-change converged -> block A finalized"
    );
    let finalized = node.engine.get_block(next_h).unwrap();
    assert_eq!(
        block_hash(&finalized.header),
        hash_a,
        "the converged hash finalized"
    );
}

#[test]
fn bad_root_block_rejected_without_resync_then_backup_finalizes() {
    let kps = keypairs(5);
    let ids = ids_of(&kps);
    let config = EngineConfig {
        validator_id: ids[0],
        fork_choice_v2_height: 0,
        ..Default::default()
    };
    let mut node = Node::with_validators(config, MemoryStore::new(), equal_set(&ids));

    let head_h = node.height();
    let (parent_hash, parent_ts) = tip(&node);
    let empty_root = node.root();
    let next_h = head_h + 1;
    let make_block = |idx: usize, state_root: [u8; 32]| -> BlockHeader {
        let mut h = empty_header(next_h, parent_hash, state_root, ids[idx], parent_ts + 6000);
        sign(&mut h, &kps[idx]);
        h
    };

    let bad_block = make_block(1, [7u8; 32]);
    let bad_hash = block_hash(&bad_block);
    assert!(
        node.accept_block(&bad_block, &[]),
        "bad block accepted as candidate (header valid)"
    );

    node.accept_attestation(ids[0], next_h, bad_hash);
    node.accept_attestation(ids[1], next_h, bad_hash);
    node.accept_attestation(ids[2], next_h, bad_hash);
    node.accept_attestation(ids[3], next_h, bad_hash);

    assert_eq!(node.height(), head_h, "bad block must NOT finalize");
    assert!(
        !node.engine.resync_requested(),
        "must NOT latch into resync — that is what halted mainnet 2026-07-16"
    );
    assert!(
        !node.accept_block(&bad_block, &[]),
        "known execution-invalid block must not be re-accepted (else it re-wins as rank-0 proposer)"
    );

    let good_block = make_block(2, empty_root);
    let good_hash = block_hash(&good_block);
    assert_ne!(bad_hash, good_hash);
    assert!(
        node.accept_block(&good_block, &[]),
        "valid backup block accepted"
    );
    node.accept_attestation(ids[0], next_h, good_hash);
    node.accept_attestation(ids[1], next_h, good_hash);
    node.accept_attestation(ids[2], next_h, good_hash);
    node.accept_attestation(ids[3], next_h, good_hash);

    assert_eq!(
        node.height(),
        next_h,
        "backup's valid block finalized — chain advanced, no halt"
    );
    assert_eq!(
        block_hash(&node.engine.get_block(next_h).unwrap().header),
        good_hash
    );
}

#[test]
fn produce_restores_store_after_leaked_eager_commit() {
    let kps = keypairs(3);
    let ids = ids_of(&kps);
    let config = EngineConfig {
        validator_id: ids[0],
        fork_choice_v2_height: 0,
        ..Default::default()
    };
    let mut node = Node::with_validators(config, MemoryStore::new(), equal_set(&ids));

    let p1 = node.produce_block();
    let hash1 = block_hash(&p1.header);
    node.accept_attestation(ids[1], 1, hash1);
    node.accept_attestation(ids[2], 1, hash1);
    assert_eq!(
        node.height(),
        1,
        "block 1 finalized — we have a finalized tip"
    );
    let tip_root = node.root();

    let leaked_key = b"acc/leaked-phantom".to_vec();
    node.engine.store.put(&leaked_key, b"phantom").unwrap();
    node.engine.store.commit_root();
    let drifted_root = node.root();
    assert_ne!(
        drifted_root, tip_root,
        "store drifted from finalized tip (leaked eager-commit)"
    );

    let mut header = empty_header(2, hash1, drifted_root, ids[0], 12000);
    let bh = block_hash(&header);
    sign(&mut header, &kps[0]);
    let revert = to_revert(vec![(leaked_key.clone(), None)]);
    node.engine
        .v2_blocks
        .insert(Slot { height: 2, id: bh }, own_executed(header, revert));

    let _ = node.produce_block();
    assert_eq!(
        node.root(),
        tip_root,
        "produce restored the store to the finalized tip before building the next block"
    );
    assert!(
        node.engine.store().get(&leaked_key).unwrap().is_none(),
        "the leaked eager-commit write was undone"
    );
}

#[test]
fn produce_persists_durable_eager_revert_and_clears_on_finalize() {
    let kps = keypairs(3);
    let ids = ids_of(&kps);
    let config = EngineConfig {
        validator_id: ids[0],
        fork_choice_v2_height: 0,
        ..Default::default()
    };
    let mut node = Node::with_validators(config, MemoryStore::new(), equal_set(&ids));
    let record = eager_revert_key(&MemoryStore::eager_revert_prefix(), 1);

    let p1 = node.produce_block();
    let hash1 = block_hash(&p1.header);
    assert!(
        node.engine.store().get(&record).unwrap().is_some(),
        "produce persisted a durable eager-revert for the eager-committed height"
    );
    node.accept_attestation(ids[1], 1, hash1);
    node.accept_attestation(ids[2], 1, hash1);
    assert_eq!(node.height(), 1);
    assert!(
        node.engine.store().get(&record).unwrap().is_none(),
        "finalize cleared the durable eager-revert — a canonical block is never undone"
    );
}

#[test]
fn boot_reconcile_repairs_durable_leaked_eager_commit_after_restart() {
    let kps = keypairs(3);
    let ids = ids_of(&kps);
    let config = EngineConfig {
        validator_id: ids[0],
        fork_choice_v2_height: 0,
        ..Default::default()
    };
    let mut node = Node::with_validators(config, MemoryStore::new(), equal_set(&ids));

    let p1 = node.produce_block();
    let hash1 = block_hash(&p1.header);
    node.accept_attestation(ids[1], 1, hash1);
    node.accept_attestation(ids[2], 1, hash1);
    assert_eq!(node.height(), 1, "have a finalized tip at height 1");
    let tip_root = node.root();

    let phantom = b"acc/phantom-reward".to_vec();
    let rk = eager_revert_key(&MemoryStore::eager_revert_prefix(), 2);
    let pairs: Vec<(Vec<u8>, Option<Vec<u8>>)> = vec![(phantom.clone(), None), (rk.clone(), None)];
    node.engine.store.put(&phantom, b"leaked").unwrap();
    node.engine
        .store
        .put(&rk, &borsh::to_vec(&pairs).unwrap())
        .unwrap();
    node.engine.store.commit_root();
    assert_ne!(node.root(), tip_root, "store drifted (leaked eager-commit)");

    // A restart: only the store's contents survive.
    let mut restarted_store = MemoryStore::new();
    for record in node.engine.store().scan_prefix(b"").unwrap() {
        restarted_store.put(&record.key, &record.value).unwrap();
    }
    drop(node);
    let node2 = Node::with_validators(config, restarted_store, equal_set(&ids));

    assert_eq!(node2.height(), 1, "restart restored the finalized height");
    assert_eq!(
        node2.root(),
        tip_root,
        "boot reconcile repaired the store to the true finalized-tip root"
    );
    assert!(
        node2.engine.store().get(&phantom).unwrap().is_none(),
        "the leaked eager write was undone"
    );
    assert!(
        node2.engine.store().get(&rk).unwrap().is_none(),
        "the durable eager-revert record was consumed by the repair"
    );
    assert_eq!(
        node2.engine.latest_block().unwrap().result.state_root,
        tip_root,
        "boot placeholder carries the corrected root, not the leaked one"
    );
}

#[test]
fn produce_block_finalizes_under_fork_choice_v2() {
    let kps = keypairs(3);
    let ids = ids_of(&kps);
    let config = EngineConfig {
        validator_id: ids[0],
        fork_choice_v2_height: 0,
        ..Default::default()
    };
    let mut node = Node::with_validators(config, MemoryStore::new(), equal_set(&ids));

    let produced = node.produce_block();
    assert!(
        produced.finalized.is_none(),
        "multi-validator: not finalized on production"
    );
    assert_eq!(node.height(), 0);
    let h = produced.header.height;
    let bh = block_hash(&produced.header);

    assert!(
        node.engine.take_v2_revotes().contains(&(h, bh)),
        "self-vote enqueued"
    );

    node.accept_attestation(ids[1], h, bh);
    node.accept_attestation(ids[2], h, bh);
    assert_eq!(
        node.height(),
        h,
        "produced block finalized via peer votes (v2)"
    );
}

#[test]
fn v2_vote_change_replaces_not_adds() {
    let kps = keypairs(5);
    let ids = ids_of(&kps);
    // An observer, so that it casts no vote of its own.
    let config = EngineConfig {
        validator_id: [99u8; 32],
        fork_choice_v2_height: 0,
        ..Default::default()
    };
    let mut node = Node::with_validators(config, MemoryStore::new(), equal_set(&ids));

    let empty_root = node.root();
    let next_h = node.height() + 1;
    let make_block = |idx: usize| -> BlockHeader {
        let mut h = empty_header(next_h, [0u8; 32], empty_root, ids[idx], 6000);
        sign(&mut h, &kps[idx]);
        h
    };
    let block_a = make_block(0);
    let block_b = make_block(1);
    let hash_a = block_hash(&block_a);
    let hash_b = block_hash(&block_b);
    assert!(node.accept_block(&block_a, &[]));
    assert!(node.accept_block(&block_b, &[]));

    node.accept_attestation(ids[1], next_h, hash_a);
    node.accept_attestation(ids[2], next_h, hash_a);
    node.accept_attestation(ids[3], next_h, hash_a);
    assert_eq!(node.height(), next_h - 1, "3/5 < quorum");
    node.accept_attestation(ids[1], next_h, hash_a);
    assert_eq!(
        node.height(),
        next_h - 1,
        "duplicate vote does not inflate quorum"
    );
    node.accept_attestation(ids[1], next_h, hash_b);
    assert_eq!(node.height(), next_h - 1, "vote-change moves, not adds");
    node.accept_attestation(ids[1], next_h, hash_a);
    node.accept_attestation(ids[4], next_h, hash_a);
    assert_eq!(node.height(), next_h, "four distinct votes finalize");
    assert_eq!(
        block_hash(&node.engine.get_block(next_h).unwrap().header),
        hash_a
    );
}

#[test]
fn v2_rejects_out_of_window_attestation_heights() {
    let kps = keypairs(5);
    let ids = ids_of(&kps);
    let config = EngineConfig {
        validator_id: [99u8; 32],
        fork_choice_v2_height: 0,
        ..Default::default()
    };
    let mut node = Node::with_validators(config, MemoryStore::new(), equal_set(&ids));

    let current = node.height();
    let some_hash = [7u8; 32];

    assert!(!node.accept_attestation(ids[1], u64::MAX, some_hash));
    assert!(!node.accept_attestation(ids[1], current + 65, some_hash));
    assert!(!node.accept_attestation(ids[1], current, some_hash));
    assert_eq!(
        node.engine.v2_votes.len(),
        0,
        "no out-of-window height may be stored in v2_votes"
    );

    node.accept_attestation(ids[1], current + 1, some_hash);
    node.accept_attestation(ids[1], current + 64, some_hash);
    let slot = |height: u64| Slot {
        height,
        id: ids[1],
    };
    assert!(
        node.engine.v2_votes.contains(slot(current + 1)),
        "next height recorded"
    );
    assert!(
        node.engine.v2_votes.contains(slot(current + 64)),
        "window edge recorded"
    );
    assert_eq!(
        node.engine.v2_votes.len(),
        2,
        "only the two in-window heights stored"
    );
}

#[test]
fn header_is_validator_signed_distinguishes_real_from_forged() {
    let kps = keypairs(3);
    let ids = ids_of(&kps);
    let config = EngineConfig {
        validator_id: ids[0],
        ..Default::default()
    };
    let node = Node::with_validators(config, MemoryStore::new(), equal_set(&ids));
    let engine = &node.engine;

    let mk = |proposer: [u8; 32], signer: Option<&Keypair>| -> BlockHeader {
        let mut h = empty_header(999_999, [0u8; 32], [0u8; 32], proposer, 0);
        h.epoch = 0;
        if let Some(kp) = signer {
            sign(&mut h, kp);
        }
        h
    };

    assert!(engine.header_is_validator_signed(&mk(ids[1], Some(&kps[1]))));
    assert!(!engine.header_is_validator_signed(&mk(ids[1], None)));
    let outsider = Keypair::from_seed([77; 32]);
    assert!(!engine.header_is_validator_signed(&mk(outsider.public_key(), Some(&outsider))));
    let mut wrong = mk(ids[1], None);
    sign(&mut wrong, &kps[2]);
    assert!(!engine.header_is_validator_signed(&wrong));
}

#[test]
fn replay_synced_block_authenticates_when_enabled() {
    let kps = keypairs(3);
    let ids = ids_of(&kps);
    let make_engine = |auth: bool| {
        let config = EngineConfig {
            validator_id: ids[0],
            authenticate_sync_blocks: auth,
            ..Default::default()
        };
        Node::with_validators(config, MemoryStore::new(), equal_set(&ids))
    };
    let build = |node: &Node, signer: Option<&Keypair>, proposer: [u8; 32]| -> BlockHeader {
        let mut h = empty_header(1, [0u8; 32], node.root(), proposer, 6000);
        if let Some(kp) = signer {
            sign(&mut h, kp);
        }
        h
    };

    let mut eng = make_engine(true);
    let forged = build(&eng, None, ids[1]);
    assert!(
        !eng.replay_synced_block(&forged, &[]),
        "unsigned synced block must be rejected"
    );
    assert_eq!(
        eng.height(),
        0,
        "rejected forgery must not advance the chain"
    );
    let signed = build(&eng, Some(&kps[1]), ids[1]);
    assert!(
        eng.replay_synced_block(&signed, &[]),
        "validator-signed synced block must apply"
    );
    assert_eq!(eng.height(), 1);

    let mut eng2 = make_engine(true);
    let outsider = Keypair::from_seed([77; 32]);
    let foreign = build(&eng2, Some(&outsider), outsider.public_key());
    assert!(
        !eng2.replay_synced_block(&foreign, &[]),
        "non-validator-signed synced block must be rejected"
    );
    assert_eq!(eng2.height(), 0);

    let mut eng3 = make_engine(false);
    let forged3 = build(&eng3, None, ids[1]);
    assert!(
        eng3.replay_synced_block(&forged3, &[]),
        "with flag off, legacy path accepts unauthenticated block"
    );
    assert_eq!(eng3.height(), 1);
}

#[test]
fn process_slashing_does_not_locally_mutate_consensus_set() {
    let mut node = setup_multi_validator_engine();
    let offender = [2u8; 32];
    let evidence = SlashingEvidence {
        offender,
        reason: SlashingReason::Downtime { missed_blocks: 100 },
        penalty_bps: 100,
    };

    let (stake_before, active_before) = {
        let all = node.engine.validator_set().all();
        let v = all.iter().find(|v| v.id == offender).unwrap();
        (v.stake, v.is_active())
    };
    assert!(active_before);

    node.engine.process_slashing(&evidence);

    let all = node.engine.validator_set().all();
    let v = all.iter().find(|v| v.id == offender).unwrap();
    assert_eq!(v.stake, stake_before, "stake must not change locally");
    assert!(
        v.is_active(),
        "status must remain Active locally (jail only via finalized on-chain slash)"
    );
}

#[test]
fn rollback_rejects_target_outside_journal_range() {
    let (mut node, kp, alice, bob) = setup_engine();
    node.mempool.push(transfer(&kp, alice, bob, 0, 100));
    node.produce_block();
    let h = node.height();
    let root = node.engine.get_block(h).unwrap().header.state_root;

    assert!(!node.engine.rollback_to_height(h, &root));
    assert!(!node.engine.rollback_to_height(h + 5, &root));
    assert_eq!(node.height(), h, "height unchanged after rejected rollback");
}

#[test]
fn accept_path_restores_before_executing_canonical_peer_block() {
    let kps = keypairs(5);
    let ids = ids_of(&kps);
    let config = EngineConfig {
        validator_id: ids[0],
        fork_choice_v2_height: 0,
        ..Default::default()
    };
    let mut node = Node::with_validators(config, MemoryStore::new(), equal_set(&ids));

    let p1 = node.produce_block();
    let hash1 = block_hash(&p1.header);
    for id in &ids[1..] {
        node.accept_attestation(*id, 1, hash1);
    }
    assert_eq!(node.height(), 1, "finalized tip at height 1");

    let head_h = node.height();
    let next_h = head_h + 1;
    let (parent_hash, parent_ts) = tip(&node);
    let tip_root = node.root();

    let phantom = b"acc/phantom-leak".to_vec();
    node.engine.store.put(&phantom, b"leaked").unwrap();
    node.engine.store.commit_root();
    let drifted_root = node.root();
    assert_ne!(
        drifted_root, tip_root,
        "store drifted (leaked eager-commit)"
    );
    let mut leaked_header =
        empty_header(next_h, parent_hash, drifted_root, ids[0], parent_ts + 6000);
    let leaked_bh = block_hash(&leaked_header);
    sign(&mut leaked_header, &kps[0]);
    let revert = to_revert(vec![(phantom.clone(), None)]);
    node.engine.v2_blocks.insert(
        Slot {
            height: next_h,
            id: leaked_bh,
        },
        own_executed(leaked_header, revert),
    );

    let mut canonical = empty_header(next_h, parent_hash, tip_root, ids[1], parent_ts + 6000);
    let canonical_hash = block_hash(&canonical);
    sign(&mut canonical, &kps[1]);
    assert_ne!(canonical_hash, leaked_bh);
    assert!(
        node.accept_block(&canonical, &[]),
        "canonical peer block accepted as candidate"
    );

    for id in &ids[1..] {
        node.accept_attestation(*id, next_h, canonical_hash);
    }

    assert_eq!(
        node.height(),
        next_h,
        "canonical peer block finalized — accept path restored the store first (no wedge)"
    );
    assert_eq!(
        block_hash(&node.engine.get_block(next_h).unwrap().header),
        canonical_hash,
        "the finalized block is the canonical one"
    );
    assert!(
        !node.engine.resync_requested(),
        "must NOT latch into resync — the store was locally repairable"
    );
    assert!(
        node.engine.store().get(&phantom).unwrap().is_none(),
        "the leaked eager write was undone by the accept-path restore"
    );
}

#[test]
fn resync_marker_result_root_prevents_false_drift_resync_loop() {
    let ids = ids_of(&keypairs(3));
    let config = EngineConfig {
        validator_id: ids[0],
        fork_choice_v2_height: 0,
        ..Default::default()
    };

    let mut store = MemoryStore::new();
    let account = Account {
        balance: 1_000_000,
        nonce: 0,
        public_key: vec![],
    };
    store
        .put(&account_key(&name(b"seed")), &account.encode())
        .unwrap();
    store.commit_root();
    let mut node = Node::with_validators(config, store, equal_set(&ids));
    let real_root = node.root();
    assert_ne!(real_root, [0u8; 32], "store holds real genesis state");

    node.engine.reset_to_height(5, 0, &vec![]);

    let marker_result_root = node.engine.chain().last().unwrap().result.state_root;
    assert_eq!(
        marker_result_root, real_root,
        "resync marker result.state_root must carry the real restored root"
    );

    assert!(
        !node.engine.resync_requested(),
        "precondition: no resync pending"
    );
    node.engine.restore_store_to_finalized_tip();
    assert!(
        !node.engine.resync_requested(),
        "a freshly snapshot-restored store must not be seen as drifted (no false resync loop)"
    );
    assert_eq!(
        node.root(),
        real_root,
        "restore must not mutate a clean restored store"
    );
}

#[test]
fn v2_leader_is_deterministic_on_equal_stake_same_rank_ties() {
    let ids = ids_of(&keypairs(5));
    let config = EngineConfig {
        validator_id: ids[0],
        fork_choice_v2_height: 0,
        ..Default::default()
    };
    let mut node = Node::with_validators(config, MemoryStore::new(), equal_set(&ids));

    let h = 1u64;
    let mk = |troot: [u8; 32]| BlockHeader {
        transactions_root: troot,
        ..empty_header(h, [0u8; 32], [7u8; 32], ids[0], 1000)
    };
    let hdr_a = mk([0u8; 32]);
    let hdr_b = mk([1u8; 32]);
    let ha = block_hash(&hdr_a);
    let hb = block_hash(&hdr_b);
    assert_ne!(ha, hb);
    for (hash, header) in [(ha, hdr_a), (hb, hdr_b)] {
        let pending = PendingBlock {
            already_executed: false,
            revert: None,
            ..own_executed(header, to_revert(vec![]))
        };
        node.engine
            .v2_blocks
            .insert(Slot { height: h, id: hash }, pending);
    }
    let expected = std::cmp::min(ha, hb);

    let order = node.order();
    for i in 0..64 {
        let mut tally = vec![
            Tally {
                hash: ha,
                voters: vec![ids[1], ids[2]],
            },
            Tally {
                hash: hb,
                voters: vec![ids[3], ids[4]],
            },
        ];
        if i % 2 == 1 {
            tally.reverse();
        }
        assert_eq!(
            node.engine.v2_leader(h, &tally, &order),
            Some(expected),
            "v2_leader must deterministically elect the min-hash candidate on an equal-stake, same-rank tie"
        );
    }
}
