//! The consensus engine's state, its construction and its plain queries.
//!
//! The engine decides; the node around it executes blocks, gossips and keeps
//! time. Where a decision needs a block executed, the engine hands out a `Step`
//! and is told the outcome.
use vstd::prelude::*;
use vstd::string::*;

use crate::bytes::{same_hash, signature_of, zero_hash, zero_hash_spec, Digest, ValidatorId};
use crate::checkpoint::{
    checkpoint_attested, no_checkpoints, CheckpointsView, FinalizedCheckpointStore,
    TrustedCheckpoint, TrustedCheckpoints,
};
use crate::codec::{
    self, attestation_payload, attestation_record, block_hash, chain_meta_key_of,
    decode_last_attestation, encode_last_attestation, finalized_checkpoint_key_of, hash_of,
    last_attestation_key_of, recorded_attestation, recorded_meta,
};
use crate::crypto::{ed25519_accepts, ed25519_verify, Keypair};
use crate::journal::{lowest_target, RollbackJournal, ROLLBACK_JOURNAL_CAP};
use crate::slashing::SlashingEvidence;
use crate::store::{
    apply_durable_reverts_above, durable_plan, load_chain_meta, lookup, undo_all, Plan, StateStore,
};
use crate::table::{above, Slot, Table};
use crate::types::{
    empty_result, views, Attestation, BlockHeader, BlockResult, BlockRevert, BlockView, Delta,
    EngineConfig, FinalizedBlock, HeaderView, PendingBlock, PendingView,
};
use crate::validator::{
    count_active, countable, fresh_validator, is_active_in, ValidatorInfo, ValidatorSet,
};

verus! {

/// How many blocks an epoch has.
pub const EPOCH_LENGTH: u64 = 100;

/// How many timeouts without a quorum in a row mean that the node is cut off.
pub const PARTITION_THRESHOLD: u32 = 3;

/// How often a node that is cut off may try to produce a block.
pub const PARTITION_PROBE_INTERVAL_MS: u64 = 30_000;

/// A validator's vote for a block.
#[derive(Clone, Copy, Debug)]
pub struct Vote {
    pub hash: Digest,
}

impl View for Vote {
    type V = Digest;

    open spec fn view(&self) -> Digest {
        self.hash
    }
}

/// A mark without further contents.
#[derive(Clone, Copy, Debug)]
pub struct Mark {}

impl View for Mark {
    type V = ();

    open spec fn view(&self) -> () {
        ()
    }
}

/// An attestation of a block that has not arrived yet.
#[derive(Clone, Copy, Debug)]
pub struct EarlyAttestation {
    pub validator_id: ValidatorId,
    pub block_height: u64,
    pub block_hash: Digest,
    /// When it arrived, on the monotonic clock.
    pub received_ms: u64,
}

/// Something that subscribers of the node are told.
#[derive(Clone, Copy, Debug)]
pub enum NodeEvent {
    BlockFinalized {
        height: u64,
        epoch: u64,
        block_hash: Digest,
        state_root: Digest,
        proposer: ValidatorId,
        timestamp_ms: u64,
        tx_count: usize,
        gas_used: u64,
    },
    /// The operation at `index` of the block was included.
    TxIncluded {
        block_height: u64,
        index: u32,
        sender: ValidatorId,
        nonce: u64,
        success: bool,
        gas_used: u64,
    },
    ValidatorSetChanged { epoch: u64, active_count: usize },
}

/// The node's clocks at the moment of a call.
#[derive(Clone, Copy, Debug)]
pub struct Now {
    /// Milliseconds since the Unix epoch.
    pub wall_ms: u64,
    /// Milliseconds on a clock that never goes back.
    pub mono_ms: u64,
}

/// A block that is ready to join the chain.
#[derive(Debug)]
pub struct SealedBlock {
    pub block: FinalizedBlock,
    pub revert: BlockRevert,
    /// Whether fork choice picked the block.
    pub fork_choice: bool,
}

#[verifier::ext_equal]
pub struct SealedView {
    pub block: BlockView,
    pub revert: Delta,
    pub fork_choice: bool,
}

impl View for SealedBlock {
    type V = SealedView;

    open spec fn view(&self) -> SealedView {
        SealedView {
            block: self.block@,
            revert: self.revert@,
            fork_choice: self.fork_choice,
        }
    }
}

/// A block that must be executed, and must give its header's state root, before
/// it can join the chain.
#[derive(Debug)]
pub struct ExecutionJob {
    pub pending: PendingBlock,
    pub attestations: Vec<Attestation>,
    /// Whether fork choice picked the block.
    pub fork_choice: bool,
}

#[verifier::ext_equal]
pub struct JobView {
    pub pending: PendingView,
    pub attestations: Seq<Attestation>,
    pub fork_choice: bool,
}

impl View for ExecutionJob {
    type V = JobView;

    open spec fn view(&self) -> JobView {
        JobView {
            pending: self.pending@,
            attestations: self.attestations@,
            fork_choice: self.fork_choice,
        }
    }
}

/// What the node has to do next for the engine.
#[derive(Debug)]
pub enum Step {
    Idle,
    Execute(ExecutionJob),
    Commit(SealedBlock),
}

#[verifier::ext_equal]
pub enum StepView {
    Idle,
    Execute(JobView),
    Commit(SealedView),
}

impl View for Step {
    type V = StepView;

    open spec fn view(&self) -> StepView {
        match self {
            Step::Idle => StepView::Idle,
            Step::Execute(job) => StepView::Execute(job@),
            Step::Commit(sealed) => StepView::Commit(sealed@),
        }
    }
}

/// What the engine keeps in memory.
#[verifier::ext_equal]
pub struct State {
    pub config: EngineConfig,
    pub signing_keypair: Option<Keypair>,
    pub chain: Seq<BlockView>,
    pub validators: Seq<ValidatorInfo>,
    pub current_epoch: u64,
    /// Attestations of pending blocks, by height.
    pub pending_attestations: Map<u64, Seq<Attestation>>,
    /// Blocks that wait for attestations, by height.
    pub pending_blocks: Map<u64, PendingView>,
    pub pending_slashing: Seq<SlashingEvidence>,
    pub consecutive_force_finalizes: u32,
    pub last_partition_probe_ms: Option<u64>,
    pub early_attestations: Seq<EarlyAttestation>,
    pub epoch_seed: Digest,
    pub checkpoints: CheckpointsView,
    pub trusted_checkpoints: Seq<TrustedCheckpoint>,
    pub dropped_block_height: Option<u64>,
    pub needs_resync: bool,
    pub consecutive_sync_reverts: u32,
    pub resyncing: bool,
    pub journal: Plan,
    /// Candidates of fork choice, by height and block hash.
    pub v2_blocks: Map<Slot, PendingView>,
    /// Current votes, by height and validator.
    pub v2_votes: Map<Slot, Digest>,
    /// Votes of this node that have not been broadcast yet.
    pub v2_revotes: Seq<(u64, Digest)>,
    /// Blocks that failed execution, by height and block hash.
    pub v2_invalid: Map<Slot, ()>,
    pub events: Seq<NodeEvent>,
}

/// The consensus engine.
pub struct ConsensusEngine<S: StateStore> {
    pub config: EngineConfig,
    pub store: S,
    pub signing_keypair: Option<Keypair>,
    pub chain: Vec<FinalizedBlock>,
    pub validator_set: ValidatorSet,
    pub current_epoch: u64,
    pub pending_attestations: Table<u64, Vec<Attestation>>,
    pub pending_blocks: Table<u64, PendingBlock>,
    /// Evidence to put into the next block.
    pub pending_slashing: Vec<SlashingEvidence>,
    /// Timeouts without a quorum in a row.
    pub consecutive_force_finalizes: u32,
    pub last_partition_probe_ms: Option<u64>,
    pub early_attestations: Vec<EarlyAttestation>,
    /// Seed of the proposer order of the current epoch.
    pub epoch_seed: Digest,
    pub finalized_checkpoints: FinalizedCheckpointStore,
    pub trusted_checkpoints: TrustedCheckpoints,
    /// An own proposal that was dropped, for the node to sync past.
    pub dropped_block_height: Option<u64>,
    /// Whether the state diverged beyond local repair.
    pub needs_resync: bool,
    /// Synced blocks in a row that could not be applied.
    pub consecutive_sync_reverts: u32,
    /// Whether a snapshot is being restored.
    pub resyncing: bool,
    pub rollback_journal: RollbackJournal,
    pub v2_blocks: Table<Slot, PendingBlock>,
    pub v2_votes: Table<Slot, Vote>,
    pub v2_revotes: Vec<(u64, Digest)>,
    pub v2_invalid: Table<Slot, Mark>,
    pub events: Vec<NodeEvent>,
}

impl<S: StateStore> View for ConsensusEngine<S> {
    type V = State;

    open spec fn view(&self) -> State {
        State {
            config: self.config,
            signing_keypair: self.signing_keypair,
            chain: views(self.chain@),
            validators: self.validator_set@,
            current_epoch: self.current_epoch,
            pending_attestations: self.pending_attestations@,
            pending_blocks: self.pending_blocks@,
            pending_slashing: self.pending_slashing@,
            consecutive_force_finalizes: self.consecutive_force_finalizes,
            last_partition_probe_ms: self.last_partition_probe_ms,
            early_attestations: self.early_attestations@,
            epoch_seed: self.epoch_seed,
            checkpoints: self.finalized_checkpoints@,
            trusted_checkpoints: self.trusted_checkpoints.list@,
            dropped_block_height: self.dropped_block_height,
            needs_resync: self.needs_resync,
            consecutive_sync_reverts: self.consecutive_sync_reverts,
            resyncing: self.resyncing,
            journal: self.rollback_journal@,
            v2_blocks: self.v2_blocks@,
            v2_votes: self.v2_votes@,
            v2_revotes: self.v2_revotes@,
            v2_invalid: self.v2_invalid@,
            events: self.events@,
        }
    }
}

/// The height of the last finalized block, or zero.
pub open spec fn tip_height(s: State) -> u64 {
    if s.chain.len() == 0 {
        0
    } else {
        s.chain.last().header.height
    }
}

/// The hash of the last finalized block, or zeros.
pub open spec fn tip_hash(s: State) -> Digest {
    if s.chain.len() == 0 {
        zero_hash_spec()
    } else {
        hash_of(s.chain.last().header)
    }
}

/// Blocks are filed under their own height and hash.
pub open spec fn filed(s: State) -> bool {
    &&& forall|h: u64| #[trigger]
        s.pending_blocks.contains_key(h) ==> s.pending_blocks[h].header.height == h
    &&& forall|k: Slot| #[trigger]
        s.v2_blocks.contains_key(k) ==> s.v2_blocks[k].header.height == k.height && hash_of(
            s.v2_blocks[k].header,
        ) == k.id
}

/// `list` holds attestations of blocks at `height`, at most one per validator.
pub open spec fn attested_once(list: Seq<Attestation>, height: u64) -> bool {
    &&& forall|i: int| 0 <= i < list.len() ==> (#[trigger] list[i]).block_height == height
    &&& forall|i: int, j: int|
        0 <= i < j < list.len() ==> (#[trigger] list[i]).validator_id != (
        #[trigger] list[j]).validator_id
}

/// Every attestation of `list` is of the block with the hash `hash`.
pub open spec fn attests_only(list: Seq<Attestation>, hash: Digest) -> bool {
    forall|i: int| 0 <= i < list.len() ==> (#[trigger] list[i]).block_hash == hash
}

/// Attestations are filed under their height, one per validator, and where a block is
/// pending there they are attestations of that very block.
pub open spec fn attestations_filed(s: State) -> bool {
    forall|h: u64| #[trigger]
        s.pending_attestations.contains_key(h) ==> attested_once(s.pending_attestations[h], h) && (
        s.pending_blocks.contains_key(h) ==> attests_only(
            s.pending_attestations[h],
            hash_of(s.pending_blocks[h].header),
        ))
}

/// A block that stands for a height whose real block is not at hand.
pub open spec fn marker_block(
    height: u64,
    epoch: u64,
    root: Digest,
    proposer: ValidatorId,
) -> BlockView {
    BlockView {
        header: HeaderView {
            height,
            epoch,
            parent_hash: zero_hash_spec(),
            state_root: root,
            transactions_root: zero_hash_spec(),
            receipts_root: zero_hash_spec(),
            proposer,
            timestamp_ms: 0,
            proposer_signature: Seq::empty(),
        },
        result: empty_result(root),
        attestations: Seq::empty(),
        operations: Seq::empty(),
    }
}

/// The state of an engine that starts at a recorded height.
pub open spec fn initial_state(
    config: EngineConfig,
    validators: Seq<ValidatorInfo>,
    trusted: Seq<TrustedCheckpoint>,
    meta: (u64, u64),
    root: Digest,
) -> State {
    State {
        config,
        signing_keypair: None,
        chain: if meta.0 > 0 {
            seq![marker_block(meta.0, meta.1, root, zero_hash_spec())]
        } else {
            Seq::empty()
        },
        validators,
        current_epoch: meta.1,
        pending_attestations: Map::empty(),
        pending_blocks: Map::empty(),
        pending_slashing: Seq::empty(),
        consecutive_force_finalizes: 0,
        last_partition_probe_ms: None,
        early_attestations: Seq::empty(),
        epoch_seed: zero_hash_spec(),
        checkpoints: no_checkpoints(),
        trusted_checkpoints: trusted,
        dropped_block_height: None,
        needs_resync: false,
        consecutive_sync_reverts: 0,
        resyncing: false,
        journal: Seq::empty(),
        v2_blocks: Map::empty(),
        v2_votes: Map::empty(),
        v2_revotes: Seq::empty(),
        v2_invalid: Map::empty(),
        events: Seq::empty(),
    }
}

/// The height and epoch that an engine stands at.
pub open spec fn started_at(s: State) -> (u64, u64) {
    (tip_height(s), s.current_epoch)
}

/// The store after a start: undo records above the recorded height are replayed.
pub open spec fn boot_reconciled<S: StateStore>(before: S, after: S, tip: u64) -> bool {
    exists|plan: Plan| #[trigger]
        durable_plan(before.contents(), S::eager_prefix_of(), tip, plan) && after.contents()
            == undo_all(before.contents(), plan) && after.root() == if plan.len() > 0 {
            S::root_of(after.contents())
        } else {
            before.root()
        }
}

/// A node that is cut off and last tried at `last` may try again.
pub open spec fn probe_open(last: Option<u64>, now: Now) -> bool {
    last matches Some(t) ==> now.mono_ms - t >= PARTITION_PROBE_INTERVAL_MS
}

/// A node that is cut off tries at most once in half a minute: after a try none is open
/// until that time has passed, and one is open from then on. One that never tried may
/// try at once.
pub proof fn probes_are_spaced(tried: Now, later: Now)
    ensures
        probe_open(Some(tried.mono_ms), later) <==> later.mono_ms >= tried.mono_ms + 30_000,
        probe_open(None, later),
{
}

/// The header carries a signature of its proposer.
pub open spec fn validly_signed(header: HeaderView) -> bool {
    &&& header.proposer_signature.len() == 64
    &&& ed25519_accepts(header.proposer@, hash_of(header)@, header.proposer_signature)
}

/// The header carries a signature of its proposer, who is an active validator.
pub open spec fn signed_by_validator(validators: Seq<ValidatorInfo>, header: HeaderView) -> bool {
    validly_signed(header) && is_active_in(validators, header.proposer)
}

/// Whether a header carries a signature of its proposer.
pub fn is_validly_signed(header: &BlockHeader) -> (signed: bool)
    ensures
        signed == validly_signed(header@),
{
    if header.proposer_signature.len() != 64 {
        return false;
    }
    let hash = block_hash(header);
    let signature = signature_of(header.proposer_signature.as_slice());
    ed25519_verify(&header.proposer, &hash, &signature)
}

/// Builds a block that stands for a height whose real block is not at hand.
pub fn marker(height: u64, epoch: u64, root: Digest, proposer: ValidatorId) -> (block:
    FinalizedBlock)
    ensures
        block@ == marker_block(height, epoch, root, proposer),
{
    let block = FinalizedBlock {
        header: BlockHeader {
            height,
            epoch,
            parent_hash: zero_hash(),
            state_root: root,
            transactions_root: zero_hash(),
            receipts_root: zero_hash(),
            proposer,
            timestamp_ms: 0,
            proposer_signature: Vec::new(),
        },
        result: BlockResult { state_root: root, receipts: Vec::new(), gas_used: 0 },
        attestations: Vec::new(),
        operations: Vec::new(),
    };
    assert(block@ =~~= marker_block(height, epoch, root, proposer));
    block
}

impl<S: StateStore> ConsensusEngine<S> {
    /// What every operation of the engine keeps.
    pub open spec fn inv(&self) -> bool {
        &&& self.validator_set.wf()
        &&& self.pending_attestations.wf()
        &&& self.pending_blocks.wf()
        &&& self.rollback_journal.wf()
        &&& self.rollback_journal.cap == ROLLBACK_JOURNAL_CAP
        &&& self.v2_blocks.wf()
        &&& self.v2_votes.wf()
        &&& self.v2_invalid.wf()
        &&& filed(self@)
        &&& attestations_filed(self@)
    }

    /// An engine whose own validator is the only one.
    pub fn new(config: EngineConfig, store: S, trusted: TrustedCheckpoints) -> (engine: Self)
        ensures
            engine.inv(),
            engine@ == initial_state(
                config,
                seq![fresh_validator(config.validator_id, 1000)],
                trusted.list@,
                started_at(engine@),
                engine.store.root(),
            ),
            started_at(engine@) == (0u64, 0u64) || started_at(engine@) == recorded_meta(
                lookup(store.contents(), chain_meta_key_of()),
            ),
            store.usable() ==> {
                &&& started_at(engine@) == recorded_meta(
                    lookup(store.contents(), chain_meta_key_of()),
                )
                &&& engine.store.usable()
                &&& boot_reconciled(store, engine.store, tip_height(engine@))
            },
    {
        let mut validators: Vec<ValidatorInfo> = Vec::new();
        validators.push(ValidatorInfo::new(config.validator_id, 1000));
        assert(validators@ =~= seq![fresh_validator(config.validator_id, 1000)]);
        assert(crate::validator::whole_stake(validators@) <= 1000) by {
            assert(validators@.drop_last().len() == 0);
            assert(crate::validator::whole_stake(validators@.drop_last()) == 0);
        }
        Self::with_validators(config, store, ValidatorSet::new(validators), trusted)
    }

    /// An engine for the given validators. It starts at the height that the store
    /// records, after undoing blocks above it that were committed eagerly and
    /// never finalized.
    pub fn with_validators(
        config: EngineConfig,
        store: S,
        validator_set: ValidatorSet,
        trusted: TrustedCheckpoints,
    ) -> (engine: Self)
        requires
            countable(validator_set@),
        ensures
            engine.inv(),
            engine@ == initial_state(
                config,
                validator_set@,
                trusted.list@,
                started_at(engine@),
                engine.store.root(),
            ),
            started_at(engine@) == (0u64, 0u64) || started_at(engine@) == recorded_meta(
                lookup(store.contents(), chain_meta_key_of()),
            ),
            store.usable() ==> {
                &&& started_at(engine@) == recorded_meta(
                    lookup(store.contents(), chain_meta_key_of()),
                )
                &&& engine.store.usable()
                &&& boot_reconciled(store, engine.store, tip_height(engine@))
            },
    {
        let mut store = store;
        let ghost before = store;
        let meta = load_chain_meta(&store);
        let applied = apply_durable_reverts_above(&mut store, meta.0);
        let mut chain: Vec<FinalizedBlock> = Vec::new();
        if meta.0 > 0 {
            chain.push(marker(meta.0, meta.1, store.state_root(), zero_hash()));
        }
        proof {
            if before.usable() {
                let plan = choose|plan: Plan| #[trigger]
                    durable_plan(before.contents(), S::eager_prefix_of(), meta.0, plan) && applied
                        == (plan.len() > 0) && store.contents() == undo_all(
                        before.contents(),
                        plan,
                    );
                assert(durable_plan(before.contents(), S::eager_prefix_of(), meta.0, plan));
                assert(boot_reconciled(before, store, meta.0));
            }
        }
        let engine = ConsensusEngine {
            config,
            store,
            signing_keypair: None,
            chain,
            validator_set,
            current_epoch: meta.1,
            pending_attestations: Table::new(),
            pending_blocks: Table::new(),
            pending_slashing: Vec::new(),
            consecutive_force_finalizes: 0,
            last_partition_probe_ms: None,
            early_attestations: Vec::new(),
            epoch_seed: zero_hash(),
            finalized_checkpoints: FinalizedCheckpointStore::new(),
            trusted_checkpoints: trusted,
            dropped_block_height: None,
            needs_resync: false,
            consecutive_sync_reverts: 0,
            resyncing: false,
            rollback_journal: RollbackJournal::new(ROLLBACK_JOURNAL_CAP),
            v2_blocks: Table::new(),
            v2_votes: Table::new(),
            v2_revotes: Vec::new(),
            v2_invalid: Table::new(),
            events: Vec::new(),
        };
        assert(engine@ =~= initial_state(
            config,
            validator_set@,
            trusted.list@,
            meta,
            engine.store.root(),
        ));
        engine
    }

    pub fn validator_id(&self) -> (id: ValidatorId)
        ensures
            id == self@.config.validator_id,
    {
        self.config.validator_id
    }

    /// Sets the key that block headers are signed with.
    pub fn set_signing_keypair(&mut self, keypair: Keypair)
        requires
            old(self).inv(),
        ensures
            final(self).inv(),
            final(self).store == old(self).store,
            final(self)@ == (State { signing_keypair: Some(keypair), ..old(self)@ }),
    {
        self.signing_keypair = Some(keypair);
    }

    pub fn config(&self) -> (config: &EngineConfig)
        ensures
            *config == self@.config,
    {
        &self.config
    }

    /// The events that were not taken yet; they are taken by this call.
    pub fn take_events(&mut self) -> (events: Vec<NodeEvent>)
        requires
            old(self).inv(),
        ensures
            final(self).inv(),
            final(self).store == old(self).store,
            events@ == old(self)@.events,
            final(self)@ == (State { events: Seq::empty(), ..old(self)@ }),
    {
        let mut events: Vec<NodeEvent> = Vec::new();
        std::mem::swap(&mut events, &mut self.events);
        events
    }

    /// Records the last attested block, so that a restart does not forget it.
    pub fn persist_last_attestation(&mut self, height: u64, hash: &Digest)
        requires
            old(self).inv(),
        ensures
            final(self).inv(),
            final(self)@ == old(self)@,
            final(self).store.root() == old(self).store.root(),
            old(self).store.usable() ==> final(self).store.usable()
                && final(self).store.contents() == old(self).store.contents().insert(
                last_attestation_key_of(),
                attestation_record(height, *hash),
            ),
    {
        let data = encode_last_attestation(height, hash);
        let _ = self.store.put("__last_attestation__".as_bytes(), data.as_slice());
    }

    /// The last attested block that the store records.
    pub fn last_attested_block(&self) -> (block: Option<(u64, Digest)>)
        ensures
            block matches Some(b) ==> (lookup(self.store.contents(), last_attestation_key_of())
                matches Some(data) && recorded_attestation(data) == Some((b.0, b.1@))),
            self.store.usable() && block is None ==> match lookup(
                self.store.contents(),
                last_attestation_key_of(),
            ) {
                Some(data) => recorded_attestation(data) is None,
                None => true,
            },
    {
        match self.store.get("__last_attestation__".as_bytes()) {
            Ok(Some(data)) => decode_last_attestation(data.as_slice()),
            _ => None,
        }
    }

    pub fn epoch_seed(&self) -> (seed: Digest)
        ensures
            seed == self@.epoch_seed,
    {
        self.epoch_seed
    }

    pub fn finalized_checkpoints(&self) -> (checkpoints: &FinalizedCheckpointStore)
        ensures
            checkpoints@ == self@.checkpoints,
    {
        &self.finalized_checkpoints
    }

    /// The height, block hash and state root of the checkpoint that gathers
    /// signatures.
    pub fn pending_checkpoint(&self) -> (pending: Option<(u64, Digest, Digest)>)
        ensures
            pending == (match self@.checkpoints.pending {
                Some(p) => Some((p.height, p.block_hash, p.state_root)),
                None => None,
            }),
    {
        match &self.finalized_checkpoints.pending {
            Some(p) => Some((p.height, p.block_hash, p.state_root)),
            None => None,
        }
    }

    /// Adds a signature under the pending checkpoint, if that is the checkpoint
    /// that was signed. The caller has verified the signature.
    pub fn attest_checkpoint_with_data(
        &mut self,
        validator_id: ValidatorId,
        signature: Vec<u8>,
        height: u64,
        hash: &Digest,
        state_root: &Digest,
    ) -> (finalized: bool)
        requires
            old(self).inv(),
        ensures
            final(self).inv(),
            final(self).store == old(self).store,
            ({
                let signed = old(self)@.checkpoints.pending matches Some(p) && p.height == height
                    && p.block_hash == *hash && p.state_root == *state_root;
                let (checkpoints, enough) = checkpoint_attested(
                    old(self)@.checkpoints,
                    old(self)@.validators,
                    validator_id,
                    signature@,
                );
                &&& finalized == (signed && enough)
                &&& final(self)@ == if signed {
                    State { checkpoints, ..old(self)@ }
                } else {
                    old(self)@
                }
            }),
    {
        let signed = match &self.finalized_checkpoints.pending {
            Some(p) => p.height == height && same_hash(&p.block_hash, hash) && same_hash(
                &p.state_root,
                state_root,
            ),
            None => false,
        };
        if !signed {
            return false;
        }
        self.attest_checkpoint(validator_id, signature)
    }

    /// Adds a signature under the pending checkpoint, whichever that is; true
    /// where it completes a quorum.
    pub fn attest_checkpoint(&mut self, validator_id: ValidatorId, signature: Vec<u8>) -> (finalized:
        bool)
        requires
            old(self).inv(),
        ensures
            final(self).inv(),
            final(self).store == old(self).store,
            ({
                let (checkpoints, enough) = checkpoint_attested(
                    old(self)@.checkpoints,
                    old(self)@.validators,
                    validator_id,
                    signature@,
                );
                &&& finalized == enough
                &&& final(self)@ == (State { checkpoints, ..old(self)@ })
            }),
    {
        self.finalized_checkpoints.add_attestation(validator_id, signature, &self.validator_set)
    }

    /// Records the last finalized checkpoint, in encoded form, under a key that
    /// does not count towards the state root.
    pub fn persist_finalized_checkpoint(&mut self, encoded: &Vec<u8>)
        requires
            old(self).inv(),
        ensures
            final(self).inv(),
            final(self)@ == old(self)@,
            final(self).store.root() == old(self).store.root(),
            old(self).store.usable() ==> final(self).store.usable()
                && final(self).store.contents() == old(self).store.contents().insert(
                finalized_checkpoint_key_of(),
                encoded@,
            ),
    {
        let _ = self.store.put("__finalized_checkpoint__".as_bytes(), encoded.as_slice());
    }

    pub fn store(&self) -> (store: &S)
        ensures
            *store == self.store,
    {
        &self.store
    }

    /// The height of an own proposal that was dropped; it is taken by this call.
    pub fn take_dropped_block_height(&mut self) -> (height: Option<u64>)
        requires
            old(self).inv(),
        ensures
            final(self).inv(),
            final(self).store == old(self).store,
            height == old(self)@.dropped_block_height,
            final(self)@ == (State { dropped_block_height: None, ..old(self)@ }),
    {
        let height = self.dropped_block_height;
        self.dropped_block_height = None;
        height
    }

    /// Whether too many timeouts in a row passed without a quorum.
    pub fn is_likely_partitioned(&self) -> (cut_off: bool)
        ensures
            cut_off == (self@.consecutive_force_finalizes > PARTITION_THRESHOLD),
            cut_off <==> self@.consecutive_force_finalizes >= 4,
    {
        self.consecutive_force_finalizes > PARTITION_THRESHOLD
    }

    /// Whether a node that is cut off may try to produce a block now: at most once
    /// per probe interval. A positive answer uses the try up.
    pub fn partition_probe_due(&mut self, now: Now) -> (due: bool)
        requires
            old(self).inv(),
        ensures
            final(self).inv(),
            final(self).store == old(self).store,
            due == probe_open(old(self)@.last_partition_probe_ms, now),
            final(self)@ == if due {
                State { last_partition_probe_ms: Some(now.mono_ms), ..old(self)@ }
            } else {
                old(self)@
            },
    {
        match self.last_partition_probe_ms {
            Some(t) => {
                if now.mono_ms.saturating_sub(t) < PARTITION_PROBE_INTERVAL_MS {
                    return false;
                }
            },
            None => {},
        }
        self.last_partition_probe_ms = Some(now.mono_ms);
        true
    }

    /// Forgets that the node was cut off.
    pub fn reset_partition_state(&mut self)
        requires
            old(self).inv(),
        ensures
            final(self).inv(),
            final(self).store == old(self).store,
            final(self)@ == (State {
                consecutive_force_finalizes: 0,
                last_partition_probe_ms: None,
                ..old(self)@
            }),
    {
        self.consecutive_force_finalizes = 0;
        self.last_partition_probe_ms = None;
    }

    /// Asks for a snapshot resync.
    pub fn request_resync(&mut self)
        requires
            old(self).inv(),
        ensures
            final(self).inv(),
            final(self).store == old(self).store,
            final(self)@ == (State { needs_resync: true, ..old(self)@ }),
    {
        self.needs_resync = true;
    }

    /// Asks for a resync where a finalized checkpoint at the very tip has another
    /// state root than the store. Returns whether it does.
    pub fn reconcile_tip_with_finalized_checkpoint(&mut self) -> (conflict: bool)
        requires
            old(self).inv(),
        ensures
            final(self).inv(),
            final(self).store == old(self).store,
            conflict == (tip_height(old(self)@) != 0 && (old(self)@.checkpoints.latest matches Some(c)
                && c.height == tip_height(old(self)@) && c.state_root != old(self).store.root())),
            final(self)@ == if conflict {
                State { needs_resync: true, ..old(self)@ }
            } else {
                old(self)@
            },
    {
        let tip = self.height();
        if tip == 0 {
            return false;
        }
        let expected = match &self.finalized_checkpoints.latest {
            Some(c) => if c.height == tip {
                c.state_root
            } else {
                return false;
            },
            None => {
                return false;
            },
        };
        if same_hash(&self.store.state_root(), &expected) {
            return false;
        }
        self.needs_resync = true;
        true
    }

    /// Whether a resync was asked for; the request is taken by this call.
    pub fn take_resync_request(&mut self) -> (requested: bool)
        requires
            old(self).inv(),
        ensures
            final(self).inv(),
            final(self).store == old(self).store,
            requested == old(self)@.needs_resync,
            final(self)@ == (State { needs_resync: false, ..old(self)@ }),
    {
        let requested = self.needs_resync;
        self.needs_resync = false;
        requested
    }

    /// Whether a resync was asked for.
    pub fn resync_requested(&self) -> (requested: bool)
        ensures
            requested == self@.needs_resync,
    {
        self.needs_resync
    }

    /// Whether a snapshot is being restored.
    pub fn is_resyncing(&self) -> (resyncing: bool)
        ensures
            resyncing == self@.resyncing,
    {
        self.resyncing
    }

    pub fn set_resyncing(&mut self, resyncing: bool)
        requires
            old(self).inv(),
        ensures
            final(self).inv(),
            final(self).store == old(self).store,
            final(self)@ == (State { resyncing, ..old(self)@ }),
    {
        self.resyncing = resyncing;
    }

    /// The lowest height that an in-place rollback can reach, if any.
    pub fn min_rollback_target(&self) -> (target: Option<u64>)
        ensures
            target == lowest_target(self@.journal),
    {
        self.rollback_journal.min_rollback_target()
    }

    pub fn chain(&self) -> (chain: &Vec<FinalizedBlock>)
        ensures
            views(chain@) == self@.chain,
    {
        &self.chain
    }

    pub fn validator_set(&self) -> (set: &ValidatorSet)
        ensures
            set@ == self@.validators,
    {
        &self.validator_set
    }

    /// Whether a header was signed by an active validator. Neither its place in
    /// the chain nor the proposer order is looked at.
    pub fn header_is_validator_signed(&self, header: &BlockHeader) -> (signed: bool)
        ensures
            signed == signed_by_validator(self@.validators, header@),
    {
        self.validator_set.is_active_validator(&header.proposer) && is_validly_signed(header)
    }

    /// What a validator signs to attest a block.
    pub fn attestation_signing_payload(chain_id: u64, height: u64, hash: &Digest) -> (payload: Vec<
        u8,
    >)
        ensures
            payload@ == attestation_payload(chain_id, height, *hash),
    {
        codec::attestation_signing_payload(chain_id, height, hash)
    }

    /// The height of the last finalized block, or zero.
    pub fn height(&self) -> (height: u64)
        ensures
            height == tip_height(self@),
    {
        let n = self.chain.len();
        if n == 0 {
            0
        } else {
            assert(self@.chain.last() == self.chain@[n - 1]@);
            self.chain[n - 1].header.height
        }
    }

    /// The first block of the chain at `height`.
    pub fn get_block(&self, height: u64) -> (block: Option<FinalizedBlock>)
        ensures
            match block {
                Some(b) => exists|i: int|
                    0 <= i < self@.chain.len() && b@ == #[trigger] self@.chain[i]
                        && self@.chain[i].header.height == height && forall|j: int|
                        0 <= j < i ==> (#[trigger] self@.chain[j]).header.height != height,
                None => forall|j: int|
                    0 <= j < self@.chain.len() ==> (#[trigger] self@.chain[j]).header.height
                        != height,
            },
    {
        let mut i: usize = 0;
        while i < self.chain.len()
            invariant
                i <= self.chain@.len(),
                forall|j: int| 0 <= j < i ==> (#[trigger] self@.chain[j]).header.height != height,
            decreases self.chain@.len() - i,
        {
            assert(self@.chain[i as int] == self.chain@[i as int]@);
            if self.chain[i].header.height == height {
                return Some(self.chain[i].clone());
            }
            i += 1;
        }
        None
    }

    /// The last finalized block.
    pub fn latest_block(&self) -> (block: Option<FinalizedBlock>)
        ensures
            match block {
                Some(b) => self@.chain.len() > 0 && b@ == self@.chain.last(),
                None => self@.chain.len() == 0,
            },
    {
        let n = self.chain.len();
        if n == 0 {
            None
        } else {
            assert(self@.chain.last() == self.chain@[n - 1]@);
            Some(self.chain[n - 1].clone())
        }
    }

    /// Whether fork choice by votes is in force at `height`.
    pub fn fc_v2_active(&self, height: u64) -> (active: bool)
        ensures
            active == (height >= self@.config.fork_choice_v2_height),
    {
        height >= self.config.fork_choice_v2_height
    }

    /// The votes that the node has to broadcast; they are taken by this call.
    pub fn take_v2_revotes(&mut self) -> (votes: Vec<(u64, Digest)>)
        requires
            old(self).inv(),
        ensures
            final(self).inv(),
            final(self).store == old(self).store,
            votes@ == old(self)@.v2_revotes,
            final(self)@ == (State { v2_revotes: Seq::empty(), ..old(self)@ }),
    {
        let mut votes: Vec<(u64, Digest)> = Vec::new();
        std::mem::swap(&mut votes, &mut self.v2_revotes);
        votes
    }

    /// Whether a block waits for attestations at `height`.
    pub fn has_pending_block(&self, height: u64) -> (pending: bool)
        requires
            self.inv(),
        ensures
            pending == self@.pending_blocks.contains_key(height),
    {
        self.pending_blocks.contains(height)
    }

    /// Drops everything that waits at or below `current_height`.
    pub fn clear_stale_pending(&mut self, current_height: u64)
        requires
            old(self).inv(),
        ensures
            final(self).inv(),
            final(self).store == old(self).store,
            final(self)@ == (State {
                pending_blocks: above(old(self)@.pending_blocks, current_height),
                pending_attestations: above(old(self)@.pending_attestations, current_height),
                v2_blocks: above(old(self)@.v2_blocks, current_height),
                v2_votes: above(old(self)@.v2_votes, current_height),
                v2_invalid: above(old(self)@.v2_invalid, current_height),
                ..old(self)@
            }),
    {
        self.pending_blocks.retain_above(current_height);
        self.pending_attestations.retain_above(current_height);
        self.v2_blocks.retain_above(current_height);
        self.v2_votes.retain_above(current_height);
        self.v2_invalid.retain_above(current_height);
    }

    /// How many validators are active.
    pub fn active_validator_count(&self) -> (count: usize)
        ensures
            count == count_active(self@.validators),
    {
        self.validator_set.active_count()
    }
}

} // verus!
