//! Adding a block to the chain.
use vstd::prelude::*;

use crate::bytes::{same_hash, ValidatorId};
use crate::codec::{
    block_hash, block_key, block_key_of, chain_meta_key_of, eager_revert_key, eager_revert_key_of,
    hash_of, meta_record,
};
use crate::engine::{ConsensusEngine, NodeEvent, SealedBlock, SealedView, State};
use crate::finality::{attester_list, attesters};
use crate::journal::{recorded, ROLLBACK_JOURNAL_CAP};
use crate::slashing::{evidence_queued, queue_evidence, SlashingEvidence};
use crate::store::{save_chain_meta, Contents, StateStore};
use crate::table::above;
use crate::types::{opt_view, views_of_push, BlockView, FinalizedBlock, ReceiptView};
use crate::validator::{quorum, with_missed, with_missed_keeps_stake, ValidatorInfo};

verus! {

/// How many blocks a pruning node keeps.
pub const BLOCK_RETENTION: u64 = 10_000_000;

/// How many blocks are pruned at once.
pub const PRUNE_BATCH: u64 = 10;

/// The notice that a block was finalized.
pub open spec fn finalized_event(b: BlockView) -> NodeEvent {
    NodeEvent::BlockFinalized {
        height: b.header.height,
        epoch: b.header.epoch,
        block_hash: hash_of(b.header),
        state_root: b.header.state_root,
        proposer: b.header.proposer,
        timestamp_ms: b.header.timestamp_ms,
        tx_count: b.result.receipts.len() as usize,
        gas_used: b.result.gas_used,
    }
}

/// The notice that the operation at `index` of a block was included.
pub open spec fn included_event(height: u64, index: int, receipt: ReceiptView) -> NodeEvent {
    NodeEvent::TxIncluded {
        block_height: height,
        index: index as u32,
        sender: receipt.sender,
        nonce: receipt.nonce,
        success: receipt.success,
        gas_used: receipt.gas_used,
    }
}

/// The notices of a finalized block: one for the block, then one for each receipt.
pub open spec fn block_events(b: BlockView) -> Seq<NodeEvent> {
    seq![finalized_event(b)] + Seq::new(
        b.result.receipts.len(),
        |i: int| included_event(b.header.height, i, b.result.receipts[i]),
    )
}

/// The state with a block added to the chain and to the journal.
pub open spec fn appended(s: State, sealed: SealedView) -> State {
    State {
        chain: s.chain.push(sealed.block),
        journal: recorded(
            s.journal,
            ROLLBACK_JOURNAL_CAP as nat,
            sealed.block.header.height,
            sealed.revert,
        ),
        ..s
    }
}

/// The state with a block committed that this node produced alone.
pub open spec fn produced_alone(s: State, sealed: SealedView) -> State {
    State { events: s.events + block_events(sealed.block), ..appended(s, sealed) }
}

/// The validators with the record of the first of `order` cleared, where it is the
/// proposer.
pub open spec fn slot_settled(
    validators: Seq<ValidatorInfo>,
    order: Seq<ValidatorId>,
    proposer: ValidatorId,
) -> Seq<ValidatorInfo> {
    if order.len() > 0 && order[0] == proposer {
        with_missed(validators, proposer, 0)
    } else {
        validators
    }
}

/// The state without the marks of blocks that failed at or below `height`, and, where
/// fork choice chose the block there, without the candidates and votes.
pub open spec fn choices_forgotten(s: State, height: u64, fork_choice: bool) -> State {
    State {
        v2_invalid: above(s.v2_invalid, height),
        v2_blocks: if fork_choice {
            above(s.v2_blocks, height)
        } else {
            s.v2_blocks
        },
        v2_votes: if fork_choice {
            above(s.v2_votes, height)
        } else {
            s.v2_votes
        },
        ..s
    }
}

/// The state with a block committed that the validators agreed on. The designated
/// proposer is the first of `order`; producing its own slot clears its record. Only
/// a block with a quorum behind it shows that the node is not cut off.
pub open spec fn committed(s: State, sealed: SealedView, order: Seq<ValidatorId>) -> State {
    State {
        events: s.events + block_events(sealed.block),
        validators: slot_settled(s.validators, order, sealed.block.header.proposer),
        consecutive_force_finalizes: if quorum(
            s.validators,
            attesters(sealed.block.attestations),
        ) {
            0
        } else {
            s.consecutive_force_finalizes
        },
        ..choices_forgotten(appended(s, sealed), sealed.block.header.height, sealed.fork_choice)
    }
}

/// The designated proposer, where another validator's block took its slot.
pub open spec fn slot_missed(order: Seq<ValidatorId>, proposer: ValidatorId) -> Option<ValidatorId> {
    if order.len() > 0 && order[0] != proposer {
        Some(order[0])
    } else {
        None
    }
}

/// The block at `h` leaves the store when the block at `height` joins it.
pub open spec fn prunes(height: u64, h: u64) -> bool {
    &&& height > BLOCK_RETENTION
    &&& h != 0
    &&& height - BLOCK_RETENTION - PRUNE_BATCH <= h < height - BLOCK_RETENTION
}

/// The keys of the blocks that leave the store when the block at `height` joins it.
pub open spec fn pruned_keys(height: u64) -> Set<Seq<u8>> {
    Set::new(|key: Seq<u8>| exists|h: u64| prunes(height, h) && key == #[trigger] block_key_of(h))
}

/// What the store holds after a block joined the chain: its undo record is gone,
/// and its encoding and the chain's height and epoch are recorded.
pub open spec fn block_stored(
    contents: Contents,
    prefix: Seq<u8>,
    height: u64,
    epoch: u64,
    encoded: Option<Seq<u8>>,
    prune: bool,
) -> Contents {
    let cleared = contents.remove(eager_revert_key_of(prefix, height));
    let written = match encoded {
        Some(data) => cleared.insert(block_key_of(height), data).insert(
            chain_meta_key_of(),
            meta_record(height, epoch),
        ),
        None => cleared,
    };
    if prune {
        written.remove_keys(pruned_keys(height))
    } else {
        written
    }
}

/// The store after a block joined the chain.
pub open spec fn stored<S: StateStore>(
    s: State,
    store: S,
    block: BlockView,
    encoded: Option<Seq<u8>>,
    after: S,
) -> bool {
    &&& after.root() == store.root()
    &&& store.usable() ==> after.usable() && after.contents() == block_stored(
        store.contents(),
        S::eager_prefix_of(),
        block.header.height,
        block.header.epoch,
        encoded,
        s.config.prune,
    )
}

/// The state after evidence was found: the offender's record starts anew, and the
/// evidence waits for the next block. Stakes and statuses stay as they are.
pub open spec fn slashing_processed(s: State, evidence: SlashingEvidence) -> State {
    State {
        validators: with_missed(s.validators, evidence.offender, 0),
        pending_slashing: evidence_queued(s.pending_slashing, evidence),
        ..s
    }
}

/// Finding evidence changes neither who is active nor what a quorum is: every
/// node keeps the same validator set until the chain itself applies the penalty.
pub proof fn slashing_keeps_consensus_set(s: State, evidence: SlashingEvidence)
    ensures
        ({
            let after = slashing_processed(s, evidence).validators;
            &&& after.len() == s.validators.len()
            &&& forall|i: int|
                0 <= i < after.len() ==> (#[trigger] after[i]).id == s.validators[i].id
                    && after[i].stake == s.validators[i].stake && after[i].status
                    == s.validators[i].status
            &&& forall|ids: Set<ValidatorId>| #[trigger]
                quorum(after, ids) == quorum(s.validators, ids)
        }),
{
    with_missed_keeps_stake(s.validators, evidence.offender, 0);
}

/// What subscribers are told of a finalized block.
fn events_of(block: &FinalizedBlock) -> (events: Vec<NodeEvent>)
    ensures
        events@ == block_events(block@),
{
    let header = &block.header;
    let result = &block.result;
    let mut events: Vec<NodeEvent> = Vec::new();
    events.push(
        NodeEvent::BlockFinalized {
            height: header.height,
            epoch: header.epoch,
            block_hash: block_hash(header),
            state_root: header.state_root,
            proposer: header.proposer,
            timestamp_ms: header.timestamp_ms,
            tx_count: result.receipts.len(),
            gas_used: result.gas_used,
        },
    );
    let ghost b = block@;
    let mut i: usize = 0;
    assert(events@ =~= block_events(b).take(1));
    while i < result.receipts.len()
        invariant
            b == block@,
            header == block.header,
            result == block.result,
            i <= result.receipts@.len(),
            events@ == block_events(b).take(i + 1),
        decreases result.receipts@.len() - i,
    {
        let receipt = &result.receipts[i];
        let event = NodeEvent::TxIncluded {
            block_height: header.height,
            index: i as u32,
            sender: receipt.sender,
            nonce: receipt.nonce,
            success: receipt.success,
            gas_used: receipt.gas_used,
        };
        assert(b.result.receipts[i as int] == receipt@);
        assert(event == included_event(b.header.height, i as int, b.result.receipts[i as int]));
        assert(event == block_events(b)[i + 1]);
        events.push(event);
        assert(events@ =~= block_events(b).take(i + 2));
        i += 1;
    }
    assert(block_events(b).take(i + 1) =~= block_events(b));
    events
}

impl<S: StateStore> ConsensusEngine<S> {
    /// Tells subscribers of a finalized block.
    fn emit_block_events(&mut self, at: usize)
        requires
            old(self).inv(),
            at < old(self)@.chain.len(),
        ensures
            final(self).inv(),
            final(self).store == old(self).store,
            final(self)@ == (State {
                events: old(self)@.events + block_events(old(self)@.chain[at as int]),
                ..old(self)@
            }),
    {
        assert(self@.chain[at as int] == self.chain@[at as int]@);
        let mut told = events_of(&self.chain[at]);
        self.events.append(&mut told);
    }

    /// Removes blocks that a pruning node no longer keeps.
    fn prune_old_blocks(&mut self, height: u64)
        requires
            old(self).inv(),
        ensures
            final(self).inv(),
            final(self)@ == old(self)@,
            final(self).store.root() == old(self).store.root(),
            old(self).store.usable() ==> final(self).store.usable()
                && final(self).store.contents() == if old(self)@.config.prune {
                old(self).store.contents().remove_keys(pruned_keys(height))
            } else {
                old(self).store.contents()
            },
    {
        if !self.config.prune {
            return;
        }
        let ghost contents = self.store.contents();
        let ghost sound = self.store.usable();
        if height <= BLOCK_RETENTION {
            assert(contents.remove_keys(pruned_keys(height)) =~= contents);
            return;
        }
        let end = height - BLOCK_RETENTION;
        let start = end.saturating_sub(PRUNE_BATCH);
        let ghost gone = |upto: int|
            Set::new(
                |key: Seq<u8>|
                    exists|h: u64|
                        prunes(height, h) && h < upto && key == #[trigger] block_key_of(h),
            );
        let mut h: u64 = start;
        assert(contents.remove_keys(gone(start as int)) =~= contents);
        while h < end
            invariant
                start <= h <= end,
                height > BLOCK_RETENTION,
                end == height - BLOCK_RETENTION,
                start == if end >= PRUNE_BATCH {
                    end - PRUNE_BATCH
                } else {
                    0
                },
                gone == (|upto: int|
                    Set::new(
                        |key: Seq<u8>|
                            exists|h: u64|
                                prunes(height, h) && h < upto && key == #[trigger] block_key_of(h),
                    )),
                self.inv(),
                self@ == old(self)@,
                self.store.root() == old(self).store.root(),
                sound == old(self).store.usable(),
                sound ==> self.store.usable() && self.store.contents() == contents.remove_keys(
                    gone(h as int),
                ),
            decreases end - h,
        {
            let ghost before = self.store.contents();
            if h != 0 {
                let key = block_key(h);
                let _ = self.store.delete(key.as_slice());
            }
            proof {
                let now = gone(h + 1);
                let earlier = gone(h as int);
                assert forall|key: Seq<u8>| now.contains(key) <==> (earlier.contains(key) || (h != 0
                    && key == block_key_of(h))) by {
                    if now.contains(key) {
                        let g = choose|g: u64|
                            prunes(height, g) && g < h + 1 && key == #[trigger] block_key_of(g);
                        if g < h {
                            assert(prunes(height, g) && g < h && key == block_key_of(g));
                        }
                    }
                    if earlier.contains(key) {
                        let g = choose|g: u64|
                            prunes(height, g) && g < h && key == #[trigger] block_key_of(g);
                        assert(prunes(height, g) && g < h + 1 && key == block_key_of(g));
                    }
                    if h != 0 && key == block_key_of(h) {
                        assert(prunes(height, h) && h < h + 1 && key == block_key_of(h));
                    }
                }
                if sound {
                    assert(self.store.contents() =~= contents.remove_keys(now));
                }
            }
            h += 1;
        }
        proof {
            let all = pruned_keys(height);
            assert forall|key: Seq<u8>| gone(end as int).contains(key) <==> all.contains(key) by {
                if all.contains(key) {
                    let g = choose|g: u64|
                        prunes(height, g) && key == #[trigger] block_key_of(g);
                    assert(prunes(height, g) && g < end && key == block_key_of(g));
                }
                if gone(end as int).contains(key) {
                    let g = choose|g: u64|
                        prunes(height, g) && g < end && key == #[trigger] block_key_of(g);
                    assert(prunes(height, g) && key == block_key_of(g));
                }
            }
            assert(gone(end as int) =~= all);
        }
    }

    /// Records a block's encoding and the chain's height and epoch, and prunes.
    fn persist_block_and_meta(&mut self, height: u64, epoch: u64, encoded: &Option<Vec<u8>>)
        requires
            old(self).inv(),
        ensures
            final(self).inv(),
            final(self)@ == old(self)@,
            final(self).store.root() == old(self).store.root(),
            old(self).store.usable() ==> final(self).store.usable() && ({
                let written = match opt_view(*encoded) {
                    Some(data) => old(self).store.contents().insert(
                        block_key_of(height),
                        data,
                    ).insert(chain_meta_key_of(), meta_record(height, epoch)),
                    None => old(self).store.contents(),
                };
                final(self).store.contents() == if old(self)@.config.prune {
                    written.remove_keys(pruned_keys(height))
                } else {
                    written
                }
            }),
    {
        match encoded {
            Some(data) => {
                let key = block_key(height);
                match self.store.put(key.as_slice(), data.as_slice()) {
                    Ok(_) => {},
                    Err(_) => {
                        return;
                    },
                }
                save_chain_meta(&mut self.store, height, epoch);
            },
            None => {},
        }
        self.prune_old_blocks(height);
    }

    /// Adds a block to the chain, the journal and the store.
    fn append_block(&mut self, sealed: SealedBlock, encoded: &Option<Vec<u8>>)
        requires
            old(self).inv(),
        ensures
            final(self).inv(),
            final(self)@ == appended(old(self)@, sealed@),
            final(self)@.chain == old(self)@.chain.push(sealed@.block),
            stored(
                old(self)@,
                old(self).store,
                sealed@.block,
                opt_view(*encoded),
                final(self).store,
            ),
    {
        broadcast use views_of_push;

        let ghost before = self@;
        let ghost shown = sealed@;
        let height = sealed.block.header.height;
        let epoch = sealed.block.header.epoch;
        self.chain.push(sealed.block);
        self.rollback_journal.record(height, sealed.revert);
        assert(self@ =~= appended(before, shown));
        let prefix = S::eager_revert_prefix();
        let key = eager_revert_key(prefix.as_slice(), height);
        let _ = self.store.delete(key.as_slice());
        self.persist_block_and_meta(height, epoch, encoded);
    }

    /// Commits a block that this node produced as the only active validator.
    pub fn commit_produced(&mut self, sealed: SealedBlock, encoded: &Option<Vec<u8>>)
        requires
            old(self).inv(),
        ensures
            final(self).inv(),
            final(self)@ == produced_alone(old(self)@, sealed@),
            final(self)@.chain == old(self)@.chain.push(sealed@.block),
            stored(
                old(self)@,
                old(self).store,
                sealed@.block,
                opt_view(*encoded),
                final(self).store,
            ),
    {
        let at = self.chain.len();
        self.append_block(sealed, encoded);
        self.emit_block_events(at);
    }

    /// Commits a block that was replayed from a peer's chain.
    pub fn commit_synced(&mut self, sealed: SealedBlock, encoded: &Option<Vec<u8>>)
        requires
            old(self).inv(),
        ensures
            final(self).inv(),
            final(self)@ == appended(old(self)@, sealed@),
            final(self)@.chain == old(self)@.chain.push(sealed@.block),
            stored(
                old(self)@,
                old(self).store,
                sealed@.block,
                opt_view(*encoded),
                final(self).store,
            ),
    {
        self.append_block(sealed, encoded);
    }

    /// Clears the record of the designated proposer where it produced its own slot.
    /// Returns it where it missed the slot.
    fn settle_slot(&mut self, order: &Vec<ValidatorId>, proposer: &ValidatorId) -> (missed: Option<
        ValidatorId,
    >)
        requires
            old(self).inv(),
        ensures
            final(self).inv(),
            final(self).store == old(self).store,
            missed == slot_missed(order@, *proposer),
            final(self)@ == (State {
                validators: slot_settled(old(self)@.validators, order@, *proposer),
                ..old(self)@
            }),
    {
        if order.len() == 0 {
            return None;
        }
        if same_hash(&order[0], proposer) {
            self.validator_set.set_missed(proposer, 0);
            None
        } else {
            Some(order[0])
        }
    }

    /// Forgets what fork choice held at or below the height of a finalized block.
    fn forget_choices(&mut self, height: u64, fork_choice: bool)
        requires
            old(self).inv(),
        ensures
            final(self).inv(),
            final(self).store == old(self).store,
            final(self)@ == choices_forgotten(old(self)@, height, fork_choice),
    {
        let ghost before = self@;
        self.v2_invalid.retain_above(height);
        if fork_choice {
            self.v2_blocks.retain_above(height);
            self.v2_votes.retain_above(height);
        }
        assert(self@ =~= choices_forgotten(before, height, fork_choice));
    }

    /// Commits a block that the validators agreed on. `order` is the proposer order
    /// of its height. Returns the designated proposer where it missed its slot.
    pub fn commit_block(
        &mut self,
        sealed: SealedBlock,
        encoded: &Option<Vec<u8>>,
        order: &Vec<ValidatorId>,
    ) -> (missed: Option<ValidatorId>)
        requires
            old(self).inv(),
        ensures
            final(self).inv(),
            missed == slot_missed(order@, sealed@.block.header.proposer),
            final(self)@ == committed(old(self)@, sealed@, order@),
            final(self)@.chain == old(self)@.chain.push(sealed@.block),
            stored(
                old(self)@,
                old(self).store,
                sealed@.block,
                opt_view(*encoded),
                final(self).store,
            ),
    {
        let ghost before = self@;
        let ghost shown = sealed@;
        let height = sealed.block.header.height;
        let proposer = sealed.block.header.proposer;
        let backed = self.validator_set.has_quorum(&attester_list(&sealed.block.attestations));
        let fork_choice = sealed.fork_choice;
        let at = self.chain.len();
        self.append_block(sealed, encoded);
        self.emit_block_events(at);
        self.forget_choices(height, fork_choice);
        let missed = self.settle_slot(order, &proposer);
        if backed {
            self.consecutive_force_finalizes = 0;
        }
        assert(self@ =~= committed(before, shown, order@));
        missed
    }

    /// Files evidence against a validator, to be put into the next block.
    pub fn process_slashing(&mut self, evidence: &SlashingEvidence)
        requires
            old(self).inv(),
        ensures
            final(self).inv(),
            final(self).store == old(self).store,
            final(self)@ == slashing_processed(old(self)@, *evidence),
    {
        self.validator_set.set_missed(&evidence.offender, 0);
        queue_evidence(&mut self.pending_slashing, *evidence);
    }

    /// Records that a validator missed its slot. The node's slashing policy says
    /// how many it has missed by now, and whether that is evidence against it.
    pub fn record_missed_slot(
        &mut self,
        id: &ValidatorId,
        missed_blocks: u64,
        evidence: &Option<SlashingEvidence>,
    )
        requires
            old(self).inv(),
        ensures
            final(self).inv(),
            final(self).store == old(self).store,
            ({
                let counted = State {
                    validators: with_missed(old(self)@.validators, *id, missed_blocks),
                    ..old(self)@
                };
                final(self)@ == match *evidence {
                    Some(e) => slashing_processed(counted, e),
                    None => counted,
                }
            }),
    {
        self.validator_set.set_missed(id, missed_blocks);
        match evidence {
            Some(e) => {
                self.process_slashing(e);
            },
            None => {},
        }
    }
}

} // verus!
