//! Blocks, operations and attestations, with their mathematical views.
use vstd::prelude::*;

use crate::bytes::{copy_bytes, zero_hash, zero_hash_spec, Digest, ValidatorId};

verus! {

/// The views of the elements of `s`.
pub open spec fn views<T: View>(s: Seq<T>) -> Seq<T::V> {
    Seq::new(s.len(), |i: int| s[i]@)
}

/// The view of an optional value.
pub open spec fn opt_view<T: View>(o: Option<T>) -> Option<T::V> {
    match o {
        Some(x) => Some(x@),
        None => None,
    }
}

pub broadcast proof fn views_of_push<T: View>(s: Seq<T>, x: T)
    ensures
        #[trigger] views(s.push(x)) == views(s).push(x@),
{
    assert(views(s.push(x)) =~= views(s).push(x@));
}

pub broadcast proof fn views_of_empty<T: View>()
    ensures
        #[trigger] views(Seq::<T>::empty()) == Seq::<T::V>::empty(),
{
    assert(views(Seq::<T>::empty()) =~= Seq::<T::V>::empty());
}

/// A copy of a list, element by element.
pub fn copy_list<T: View + Clone>(list: &Vec<T>) -> (out: Vec<T>)
    requires
        forall|x: T, y: T| #[trigger] cloned(x, y) ==> y@ == x@,
    ensures
        views(out@) == views(list@),
{
    let out = list.clone();
    assert(views(out@) =~= views(list@));
    out
}

/// Why the engine refuses to act.
#[derive(Debug, Clone, Copy, PartialEq, Eq, Structural)]
pub enum ConsensusError {
    AlreadyRunning,
    Stopped,
    NotProposer,
}

impl ConsensusError {
    /// What the error says to a reader.
    pub fn message(&self) -> (text: &'static str)
        ensures
            text@ == (match self {
                ConsensusError::AlreadyRunning => "engine already running"@,
                ConsensusError::Stopped => "engine stopped"@,
                ConsensusError::NotProposer => "not the proposer for this height"@,
            }),
    {
        match self {
            ConsensusError::AlreadyRunning => "engine already running",
            ConsensusError::Stopped => "engine stopped",
            ConsensusError::NotProposer => "not the proposer for this height",
        }
    }
}

/// Configuration of the consensus engine.
///
/// Each `*_height` field is an activation height: the rule that it names holds
/// at and above that height, and `u64::MAX` leaves it off.
#[derive(Clone, Copy, Debug)]
pub struct EngineConfig {
    pub block_time_ms: u64,
    pub max_ops_per_block: usize,
    pub validator_id: ValidatorId,
    pub chain_id: u64,
    /// Delete blocks that are older than the retention window.
    pub prune: bool,
    /// Attestation-aware fork choice: competing candidates are kept, votes may
    /// change, and whichever hash reaches two thirds of the stake is final.
    pub fork_choice_v2_height: u64,
    /// Supply-conserving fee settlement in the executor.
    pub fee_fix_height: u64,
    /// Refuse synced blocks that no active validator signed.
    pub authenticate_sync_blocks: bool,
    /// Deterministic contract execution in the executor.
    pub determinism_fix_height: u64,
    /// Post-quantum account authentication in the executor.
    pub pq_auth_height: u64,
    /// The proposer seed is read from the on-chain accumulator.
    pub epoch_randomness_height: u64,
}

/// The configuration that `EngineConfig::default` gives.
pub open spec fn default_config() -> EngineConfig {
    EngineConfig {
        block_time_ms: 2000,
        max_ops_per_block: 5000,
        validator_id: zero_hash_spec(),
        chain_id: 0,
        prune: false,
        fork_choice_v2_height: u64::MAX,
        fee_fix_height: u64::MAX,
        authenticate_sync_blocks: false,
        determinism_fix_height: u64::MAX,
        pq_auth_height: u64::MAX,
        epoch_randomness_height: u64::MAX,
    }
}

impl Default for EngineConfig {
    fn default() -> (config: Self)
        ensures
            config == default_config(),
    {
        EngineConfig {
            block_time_ms: 2000,
            max_ops_per_block: 5000,
            validator_id: zero_hash(),
            chain_id: 0,
            prune: false,
            fork_choice_v2_height: u64::MAX,
            fee_fix_height: u64::MAX,
            authenticate_sync_blocks: false,
            determinism_fix_height: u64::MAX,
            pq_auth_height: u64::MAX,
            epoch_randomness_height: u64::MAX,
        }
    }
}

/// A block header.
#[derive(Debug)]
pub struct BlockHeader {
    pub height: u64,
    pub epoch: u64,
    pub parent_hash: Digest,
    pub state_root: Digest,
    pub transactions_root: Digest,
    pub receipts_root: Digest,
    pub proposer: ValidatorId,
    pub timestamp_ms: u64,
    pub proposer_signature: Vec<u8>,
}

#[verifier::ext_equal]
pub struct HeaderView {
    pub height: u64,
    pub epoch: u64,
    pub parent_hash: Digest,
    pub state_root: Digest,
    pub transactions_root: Digest,
    pub receipts_root: Digest,
    pub proposer: ValidatorId,
    pub timestamp_ms: u64,
    pub proposer_signature: Seq<u8>,
}

impl View for BlockHeader {
    type V = HeaderView;

    open spec fn view(&self) -> HeaderView {
        HeaderView {
            height: self.height,
            epoch: self.epoch,
            parent_hash: self.parent_hash,
            state_root: self.state_root,
            transactions_root: self.transactions_root,
            receipts_root: self.receipts_root,
            proposer: self.proposer,
            timestamp_ms: self.timestamp_ms,
            proposer_signature: self.proposer_signature@,
        }
    }
}

impl Clone for BlockHeader {
    fn clone(&self) -> (copy: Self)
        ensures
            copy@ == self@,
    {
        BlockHeader {
            height: self.height,
            epoch: self.epoch,
            parent_hash: self.parent_hash,
            state_root: self.state_root,
            transactions_root: self.transactions_root,
            receipts_root: self.receipts_root,
            proposer: self.proposer,
            timestamp_ms: self.timestamp_ms,
            proposer_signature: copy_bytes(self.proposer_signature.as_slice()),
        }
    }
}

/// One step of an operation. Kinds of action that the engine never looks into
/// are carried in encoded form.
#[derive(Debug)]
pub enum Action {
    Transfer { to: ValidatorId, amount: u128 },
    Call { target: ValidatorId, method: String, args: Vec<u8> },
    Other { payload: Vec<u8> },
}

#[verifier::ext_equal]
pub enum ActionView {
    Transfer { to: ValidatorId, amount: u128 },
    Call { target: ValidatorId, method: Seq<char>, args: Seq<u8> },
    Other { payload: Seq<u8> },
}

impl View for Action {
    type V = ActionView;

    open spec fn view(&self) -> ActionView {
        match self {
            Action::Transfer { to, amount } => ActionView::Transfer { to: *to, amount: *amount },
            Action::Call { target, method, args } => ActionView::Call {
                target: *target,
                method: method@,
                args: args@,
            },
            Action::Other { payload } => ActionView::Other { payload: payload@ },
        }
    }
}

impl Clone for Action {
    fn clone(&self) -> (copy: Self)
        ensures
            copy@ == self@,
    {
        match self {
            Action::Transfer { to, amount } => Action::Transfer { to: *to, amount: *amount },
            Action::Call { target, method, args } => Action::Call {
                target: *target,
                method: method.clone(),
                args: copy_bytes(args.as_slice()),
            },
            Action::Other { payload } => Action::Other { payload: copy_bytes(payload.as_slice()) },
        }
    }
}

/// A signed operation of a user, or one that the system authorises itself.
#[derive(Debug)]
pub struct UserOperation {
    pub sender: ValidatorId,
    pub nonce: u64,
    pub actions: Vec<Action>,
    pub max_fee: u128,
    pub signature: Vec<u8>,
}

#[verifier::ext_equal]
pub struct OperationView {
    pub sender: ValidatorId,
    pub nonce: u64,
    pub actions: Seq<ActionView>,
    pub max_fee: u128,
    pub signature: Seq<u8>,
}

impl View for UserOperation {
    type V = OperationView;

    open spec fn view(&self) -> OperationView {
        OperationView {
            sender: self.sender,
            nonce: self.nonce,
            actions: views(self.actions@),
            max_fee: self.max_fee,
            signature: self.signature@,
        }
    }
}

impl Clone for UserOperation {
    fn clone(&self) -> (copy: Self)
        ensures
            copy@ == self@,
    {
        UserOperation {
            sender: self.sender,
            nonce: self.nonce,
            actions: copy_list(&self.actions),
            max_fee: self.max_fee,
            signature: copy_bytes(self.signature.as_slice()),
        }
    }
}

/// Something that happened while an operation ran.
#[derive(Debug)]
pub struct Event {
    pub emitter: ValidatorId,
    pub topic: Vec<u8>,
    pub data: Vec<u8>,
}

#[verifier::ext_equal]
pub struct EventView {
    pub emitter: ValidatorId,
    pub topic: Seq<u8>,
    pub data: Seq<u8>,
}

impl View for Event {
    type V = EventView;

    open spec fn view(&self) -> EventView {
        EventView { emitter: self.emitter, topic: self.topic@, data: self.data@ }
    }
}

impl Clone for Event {
    fn clone(&self) -> (copy: Self)
        ensures
            copy@ == self@,
    {
        Event {
            emitter: self.emitter,
            topic: copy_bytes(self.topic.as_slice()),
            data: copy_bytes(self.data.as_slice()),
        }
    }
}

/// What running one operation gave.
#[derive(Debug)]
pub struct ExecutionReceipt {
    pub sender: ValidatorId,
    pub nonce: u64,
    pub success: bool,
    pub gas_used: u64,
    pub error: Option<String>,
    pub events: Vec<Event>,
    pub auth_method: String,
}

#[verifier::ext_equal]
pub struct ReceiptView {
    pub sender: ValidatorId,
    pub nonce: u64,
    pub success: bool,
    pub gas_used: u64,
    pub error: Option<Seq<char>>,
    pub events: Seq<EventView>,
    pub auth_method: Seq<char>,
}

impl View for ExecutionReceipt {
    type V = ReceiptView;

    open spec fn view(&self) -> ReceiptView {
        ReceiptView {
            sender: self.sender,
            nonce: self.nonce,
            success: self.success,
            gas_used: self.gas_used,
            error: opt_view(self.error),
            events: views(self.events@),
            auth_method: self.auth_method@,
        }
    }
}

impl Clone for ExecutionReceipt {
    fn clone(&self) -> (copy: Self)
        ensures
            copy@ == self@,
    {
        let error = match &self.error {
            Some(text) => Some(text.clone()),
            None => None,
        };
        ExecutionReceipt {
            sender: self.sender,
            nonce: self.nonce,
            success: self.success,
            gas_used: self.gas_used,
            error,
            events: copy_list(&self.events),
            auth_method: self.auth_method.clone(),
        }
    }
}

/// What running a block gave.
#[derive(Debug)]
pub struct BlockResult {
    pub state_root: Digest,
    pub receipts: Vec<ExecutionReceipt>,
    pub gas_used: u64,
}

#[verifier::ext_equal]
pub struct ResultView {
    pub state_root: Digest,
    pub receipts: Seq<ReceiptView>,
    pub gas_used: u64,
}

impl View for BlockResult {
    type V = ResultView;

    open spec fn view(&self) -> ResultView {
        ResultView {
            state_root: self.state_root,
            receipts: views(self.receipts@),
            gas_used: self.gas_used,
        }
    }
}

impl Clone for BlockResult {
    fn clone(&self) -> (copy: Self)
        ensures
            copy@ == self@,
    {
        BlockResult {
            state_root: self.state_root,
            receipts: copy_list(&self.receipts),
            gas_used: self.gas_used,
        }
    }
}

/// The result of a block that ran nothing and left the state at `root`.
pub open spec fn empty_result(root: Digest) -> ResultView {
    ResultView { state_root: root, receipts: Seq::empty(), gas_used: 0 }
}

/// One undone write: the value that the key had before, or none.
#[derive(Debug)]
pub struct RevertEntry {
    pub key: Vec<u8>,
    pub value: Option<Vec<u8>>,
}

impl View for RevertEntry {
    type V = (Seq<u8>, Option<Seq<u8>>);

    open spec fn view(&self) -> (Seq<u8>, Option<Seq<u8>>) {
        (self.key@, opt_view(self.value))
    }
}

/// The reverse-delta of a block: applying it takes the store back to what it
/// held before the block ran.
#[derive(Debug)]
pub struct BlockRevert {
    pub entries: Vec<RevertEntry>,
}

/// The writes of a reverse-delta, in order.
pub type Delta = Seq<(Seq<u8>, Option<Seq<u8>>)>;

impl View for BlockRevert {
    type V = Delta;

    open spec fn view(&self) -> Delta {
        views(self.entries@)
    }
}

impl BlockRevert {
    /// A reverse-delta that undoes nothing.
    pub fn empty() -> (r: Self)
        ensures
            r@ == Seq::<(Seq<u8>, Option<Seq<u8>>)>::empty(),
    {
        let r = BlockRevert { entries: Vec::new() };
        assert(r@ =~= Seq::<(Seq<u8>, Option<Seq<u8>>)>::empty());
        r
    }
}

/// A validator's attestation of a block.
#[derive(Clone, Copy, Debug)]
pub struct Attestation {
    pub validator_id: ValidatorId,
    pub block_height: u64,
    pub block_hash: Digest,
}

/// A finalized block with header, execution result and attestations.
#[derive(Debug)]
pub struct FinalizedBlock {
    pub header: BlockHeader,
    pub result: BlockResult,
    pub attestations: Vec<Attestation>,
    /// The operations, kept for replay by syncing peers.
    pub operations: Vec<UserOperation>,
}

#[verifier::ext_equal]
pub struct BlockView {
    pub header: HeaderView,
    pub result: ResultView,
    pub attestations: Seq<Attestation>,
    pub operations: Seq<OperationView>,
}

impl View for FinalizedBlock {
    type V = BlockView;

    open spec fn view(&self) -> BlockView {
        BlockView {
            header: self.header@,
            result: self.result@,
            attestations: self.attestations@,
            operations: views(self.operations@),
        }
    }
}

impl Clone for FinalizedBlock {
    fn clone(&self) -> (copy: Self)
        ensures
            copy@ == self@,
    {
        let attestations = self.attestations.clone();
        assert(attestations@ =~= self.attestations@);
        FinalizedBlock {
            header: self.header.clone(),
            result: self.result.clone(),
            attestations,
            operations: copy_list(&self.operations),
        }
    }
}

/// A block that waits for attestations.
#[derive(Debug)]
pub struct PendingBlock {
    pub header: BlockHeader,
    pub operations: Vec<UserOperation>,
    /// When the block was proposed or received, on the monotonic clock.
    pub proposed_at_ms: u64,
    /// Whether this node produced the block and so ran it already.
    pub already_executed: bool,
    /// What running it gave, where it ran.
    pub result: Option<BlockResult>,
    /// How to undo it, where it ran.
    pub revert: Option<BlockRevert>,
    /// How many attestations named another block at this height.
    pub mismatch_count: u32,
}

#[verifier::ext_equal]
pub struct PendingView {
    pub header: HeaderView,
    pub operations: Seq<OperationView>,
    pub proposed_at_ms: u64,
    pub already_executed: bool,
    pub result: Option<ResultView>,
    pub revert: Option<Delta>,
    pub mismatch_count: u32,
}

impl View for PendingBlock {
    type V = PendingView;

    open spec fn view(&self) -> PendingView {
        PendingView {
            header: self.header@,
            operations: views(self.operations@),
            proposed_at_ms: self.proposed_at_ms,
            already_executed: self.already_executed,
            result: opt_view(self.result),
            revert: opt_view(self.revert),
            mismatch_count: self.mismatch_count,
        }
    }
}

/// A block received from a peer, not yet run.
pub open spec fn received(
    header: HeaderView,
    operations: Seq<OperationView>,
    now_ms: u64,
) -> PendingView {
    PendingView {
        header,
        operations,
        proposed_at_ms: now_ms,
        already_executed: false,
        result: None,
        revert: None,
        mismatch_count: 0,
    }
}

} // verus!
