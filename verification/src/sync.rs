//! Replaying blocks from a peer's chain, and serving blocks to peers.
use vstd::prelude::*;

use crate::codec::{block_key, block_key_of};
use crate::engine::{
    signed_by_validator, tip_height, ConsensusEngine, SealedBlock, SealedView, State, EPOCH_LENGTH,
};
use crate::finality::{counted_up, Execution, ExecutionView};
use crate::recovery::restored;
use crate::store::{lookup, Contents, StateStore};
use crate::types::{
    copy_list, opt_view, views, BlockHeader, BlockResult, BlockView, ExecutionReceipt,
    FinalizedBlock, HeaderView, OperationView, ReceiptView, ResultView, UserOperation,
};

verus! {

/// After this many synced blocks in a row that could not be applied, the node's
/// own tip must be on a fork.
pub const SYNC_REVERT_RESYNC_THRESHOLD: u32 = 5;

/// A synced block may be replayed: it follows the tip, belongs to its epoch and,
/// where that is asked for, is signed by an active validator. Its parent is not
/// compared, since a wiped node may have built on another one.
pub open spec fn replayable(s: State, header: HeaderView) -> bool {
    &&& header.height == tip_height(s) + 1
    &&& header.epoch == header.height / EPOCH_LENGTH
    &&& s.config.authenticate_sync_blocks ==> signed_by_validator(s.validators, header)
}

/// The state after a synced block could not be applied.
pub open spec fn sync_reverted(s: State) -> State {
    let count = counted_up(s.consecutive_sync_reverts);
    if count >= SYNC_REVERT_RESYNC_THRESHOLD && !s.resyncing {
        State { needs_resync: true, consecutive_sync_reverts: 0, ..s }
    } else {
        State { consecutive_sync_reverts: count, ..s }
    }
}

/// The state after `n` synced blocks in a row could not be applied.
pub open spec fn sync_reverted_times(s: State, n: nat) -> State
    decreases n,
{
    if n == 0 {
        s
    } else {
        sync_reverted(sync_reverted_times(s, (n - 1) as nat))
    }
}

/// A node that cannot apply one synced block after another asks for a resync at the
/// threshold, and not before: a single bad block from a peer does not force one.
pub proof fn stranded_node_resyncs(s: State, n: nat)
    requires
        s.consecutive_sync_reverts == 0,
        !s.resyncing,
        n <= SYNC_REVERT_RESYNC_THRESHOLD,
    ensures
        sync_reverted_times(s, n).needs_resync == (s.needs_resync || n
            == SYNC_REVERT_RESYNC_THRESHOLD),
        sync_reverted_times(s, n).chain == s.chain,
        n < SYNC_REVERT_RESYNC_THRESHOLD ==> sync_reverted_times(s, n) == (State {
            consecutive_sync_reverts: n as u32,
            ..s
        }),
    decreases n,
{
    if n > 0 {
        stranded_node_resyncs(s, (n - 1) as nat);
    }
}

/// A replayed block. The peer's receipts are kept where there are any: they tell
/// more than those of the replay.
pub open spec fn replayed_block(
    header: HeaderView,
    operations: Seq<OperationView>,
    synced_receipts: Seq<ReceiptView>,
    execution: ExecutionView,
) -> SealedView {
    SealedView {
        block: BlockView {
            header,
            result: ResultView {
                receipts: if synced_receipts.len() > 0 {
                    synced_receipts
                } else {
                    execution.result.receipts
                },
                ..execution.result
            },
            attestations: Seq::empty(),
            operations,
        },
        revert: execution.revert,
        fork_choice: false,
    }
}

/// `blocks` are the encoded blocks of consecutive heights from `from_height` on, at
/// most `max`.
pub open spec fn stored_from(
    contents: Contents,
    from_height: u64,
    max: nat,
    blocks: Seq<Seq<u8>>,
) -> bool {
    &&& blocks.len() <= max
    &&& from_height + blocks.len() <= u64::MAX + 1
    &&& forall|i: int|
        0 <= i < blocks.len() ==> lookup(contents, block_key_of((from_height + i) as u64)) == Some(
            #[trigger] blocks[i],
        )
}

/// `blocks` are the encoded blocks of consecutive heights from `from_height` on: at
/// most `max`, and up to the first that the store does not hold.
pub open spec fn stored_run(
    contents: Contents,
    from_height: u64,
    max: nat,
    blocks: Seq<Seq<u8>>,
) -> bool {
    &&& stored_from(contents, from_height, max, blocks)
    &&& blocks.len() < max && from_height + blocks.len() <= u64::MAX ==> lookup(
        contents,
        block_key_of((from_height + blocks.len()) as u64),
    ) is None
}

impl<S: StateStore> ConsensusEngine<S> {
    /// Whether a synced block may be replayed.
    fn is_replayable(&self, header: &BlockHeader) -> (ready: bool)
        ensures
            ready == replayable(self@, header@),
    {
        let tip = self.height();
        if tip == u64::MAX || header.height != tip + 1 {
            return false;
        }
        if header.epoch != header.height / EPOCH_LENGTH {
            return false;
        }
        !self.config.authenticate_sync_blocks || self.header_is_validator_signed(header)
    }

    /// Checks a synced block before it is executed. Where it may be replayed, the
    /// store is taken to the finalized tip.
    pub fn start_replay(&mut self, header: &BlockHeader) -> (ready: bool)
        requires
            old(self).inv(),
        ensures
            final(self).inv(),
            ready == replayable(old(self)@, header@),
            if ready {
                restored(old(self)@, old(self).store, final(self)@, final(self).store)
            } else {
                final(self)@ == old(self)@ && final(self).store == old(self).store
            },
    {
        if !self.is_replayable(header) {
            return false;
        }
        self.restore_store_to_finalized_tip();
        true
    }

    /// Takes the outcome of executing a synced block: nothing, where it did not
    /// give the state root of its header. Returns the block to commit. A block that
    /// may not be replayed is skipped, whatever executing it gave.
    pub fn replay_synced_block(
        &mut self,
        header: &BlockHeader,
        operations: &Vec<UserOperation>,
        synced_receipts: Vec<ExecutionReceipt>,
        outcome: Option<Execution>,
    ) -> (sealed: Option<SealedBlock>)
        requires
            old(self).inv(),
        ensures
            final(self).inv(),
            final(self).store == old(self).store,
            !replayable(old(self)@, header@) ==> final(self)@ == old(self)@ && sealed is None,
            replayable(old(self)@, header@) ==> match opt_view(outcome) {
                Some(execution) => final(self)@ == (State {
                    consecutive_sync_reverts: 0,
                    ..old(self)@
                }) && opt_view(sealed) == Some(
                    replayed_block(
                        header@,
                        views(operations@),
                        views(synced_receipts@),
                        execution,
                    ),
                ),
                None => final(self)@ == sync_reverted(old(self)@) && sealed is None,
            },
            sealed matches Some(kept) ==> {
                &&& kept@.block.header == header@
                &&& kept@.block.operations == views(operations@)
                &&& outcome matches Some(execution)
                &&& kept@.revert == execution@.revert
                &&& kept@.block.result.state_root == execution.result.state_root
                &&& kept@.block.result.gas_used == execution.result.gas_used
                &&& kept@.block.result.receipts == if synced_receipts@.len() > 0 {
                    views(synced_receipts@)
                } else {
                    views(execution.result.receipts@)
                }
            },
    {
        if !self.is_replayable(header) {
            return None;
        }
        match outcome {
            None => {
                let count = self.consecutive_sync_reverts.saturating_add(1);
                if count >= SYNC_REVERT_RESYNC_THRESHOLD && !self.resyncing {
                    self.needs_resync = true;
                    self.consecutive_sync_reverts = 0;
                } else {
                    self.consecutive_sync_reverts = count;
                }
                None
            },
            Some(execution) => {
                let ghost ran = execution@;
                let ghost told = views(synced_receipts@);
                self.consecutive_sync_reverts = 0;
                let receipts = if synced_receipts.len() > 0 {
                    synced_receipts
                } else {
                    execution.result.receipts
                };
                let sealed = SealedBlock {
                    block: FinalizedBlock {
                        header: header.clone(),
                        result: BlockResult {
                            state_root: execution.result.state_root,
                            receipts,
                            gas_used: execution.result.gas_used,
                        },
                        attestations: Vec::new(),
                        operations: copy_list(operations),
                    },
                    revert: execution.revert,
                    fork_choice: false,
                };
                assert(sealed@ =~~= replayed_block(header@, views(operations@), told, ran));
                Some(sealed)
            },
        }
    }

    /// The encoded block at `height`.
    pub fn stored_block(&self, height: u64) -> (block: Option<Vec<u8>>)
        ensures
            self.store.usable() || block is Some ==> opt_view(block) == lookup(
                self.store.contents(),
                block_key_of(height),
            ),
    {
        let key = block_key(height);
        match self.store.get(key.as_slice()) {
            Ok(block) => block,
            Err(_) => None,
        }
    }

    /// The encoded blocks from `from_height` on: at most `max_blocks`, and only up
    /// to the first that the store does not hold.
    pub fn load_persisted_blocks_range(&self, from_height: u64, max_blocks: usize) -> (blocks: Vec<
        Vec<u8>,
    >)
        ensures
            stored_from(self.store.contents(), from_height, max_blocks as nat, views(blocks@)),
            self.store.usable() ==> stored_run(
                self.store.contents(),
                from_height,
                max_blocks as nat,
                views(blocks@),
            ),
    {
        let mut blocks: Vec<Vec<u8>> = Vec::new();
        while blocks.len() < max_blocks && blocks.len() as u64 <= u64::MAX - from_height
            invariant
                blocks@.len() <= max_blocks,
                from_height + blocks@.len() <= u64::MAX + 1,
                forall|i: int|
                    0 <= i < blocks@.len() ==> lookup(
                        self.store.contents(),
                        block_key_of((from_height + i) as u64),
                    ) == Some((#[trigger] blocks@[i])@),
            decreases max_blocks - blocks@.len(),
        {
            match self.stored_block(from_height + blocks.len() as u64) {
                Some(block) => {
                    blocks.push(block);
                },
                None => {
                    return blocks;
                },
            }
        }
        blocks
    }

    /// The encoded blocks from height one to the tip, up to the first that the
    /// store does not hold.
    pub fn load_persisted_blocks(&self) -> (blocks: Vec<Vec<u8>>)
        requires
            tip_height(self@) <= usize::MAX,
        ensures
            stored_from(self.store.contents(), 1, tip_height(self@) as nat, views(blocks@)),
            self.store.usable() ==> stored_run(
                self.store.contents(),
                1,
                tip_height(self@) as nat,
                views(blocks@),
            ),
    {
        self.load_persisted_blocks_range(1, self.height() as usize)
    }

    /// The encoded blocks for a syncing peer: at most `max_blocks` from
    /// `from_height` on, and only up to the first that the store does not hold.
    pub fn get_blocks_for_sync(&self, from_height: u64, max_blocks: usize) -> (blocks: Vec<Vec<u8>>)
        ensures
            stored_from(self.store.contents(), from_height, max_blocks as nat, views(blocks@)),
            self.store.usable() ==> stored_run(
                self.store.contents(),
                from_height,
                max_blocks as nat,
                views(blocks@),
            ),
    {
        self.load_persisted_blocks_range(from_height, max_blocks)
    }
}

} // verus!
