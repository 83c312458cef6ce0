//! Finalizing blocks: on a quorum of attestations, or when waiting ran out.
use vstd::prelude::*;

use crate::bytes::{same_hash, Digest, ValidatorId};
use crate::codec::{block_hash, hash_of};
use crate::engine::{
    attested_once, attests_only, tip_height, ConsensusEngine, ExecutionJob, JobView, Now,
    SealedBlock, SealedView, State, Step, StepView,
};
use crate::lists::{filter_of_all, filter_without};
use crate::recovery::restored;
use crate::store::StateStore;
use crate::table::{above, Slot};
use crate::types::{
    empty_result, opt_view, Attestation, BlockResult, BlockRevert, BlockView, Delta,
    FinalizedBlock, PendingBlock, PendingView, ResultView,
};
use crate::validator::{active_stake, count_active, quorum, stake_in};

verus! {

/// Up to this height blocks are finalized without a quorum, while peers connect.
pub const BOOTSTRAP_HEIGHT: u64 = 3;

/// After this many timeouts without a quorum in a row a waiting block is dropped.
pub const MAX_QUORUM_WAITS: u32 = 2;

/// How many blocks in a row may be finalized by timeout.
pub const MAX_CONSECUTIVE_FORCE_FINALIZES: u32 = 3;

/// What executing a block gave.
#[derive(Debug)]
pub struct Execution {
    pub result: BlockResult,
    pub revert: BlockRevert,
}

#[verifier::ext_equal]
pub struct ExecutionView {
    pub result: ResultView,
    pub revert: Delta,
}

impl View for Execution {
    type V = ExecutionView;

    open spec fn view(&self) -> ExecutionView {
        ExecutionView { result: self.result@, revert: self.revert@ }
    }
}

/// A block that joins the chain with what executing it gave.
pub open spec fn sealed_block(job: JobView, execution: ExecutionView) -> SealedView {
    SealedView {
        block: BlockView {
            header: job.pending.header,
            result: execution.result,
            attestations: job.attestations,
            operations: job.pending.operations,
        },
        revert: execution.revert,
        fork_choice: job.fork_choice,
    }
}

/// The first step of finalizing a block: one that this node ran already can join
/// the chain with what that gave; any other has to be executed.
pub open spec fn first_step(job: JobView) -> StepView {
    if job.pending.already_executed {
        StepView::Commit(
            sealed_block(
                job,
                ExecutionView {
                    result: match job.pending.result {
                        Some(r) => r,
                        None => empty_result(job.pending.header.state_root),
                    },
                    revert: match job.pending.revert {
                        Some(r) => r,
                        None => Seq::empty(),
                    },
                },
            ),
        )
    } else {
        StepView::Execute(job)
    }
}

/// What starting to finalize a block does: before a block is executed the store is
/// taken to the finalized tip.
pub open spec fn finalization_started<S: StateStore>(
    s: State,
    store: S,
    job: JobView,
    after: State,
    new_store: S,
    step: StepView,
) -> bool {
    &&& step == first_step(job)
    &&& if job.pending.already_executed {
        after == s && new_store == store
    } else {
        restored(s, store, after, new_store)
    }
}

/// The attestations of the pending block at `height`.
pub open spec fn attestations_at(s: State, height: u64) -> Seq<Attestation> {
    if s.pending_attestations.contains_key(height) {
        s.pending_attestations[height]
    } else {
        Seq::empty()
    }
}

/// The validators that attested.
pub open spec fn attesters(attestations: Seq<Attestation>) -> Set<ValidatorId> {
    Set::new(
        |id: ValidatorId|
            exists|i: int|
                0 <= i < attestations.len() && (#[trigger] attestations[i]).validator_id == id,
    )
}

/// The attestations with those at `height` cut down to the ones of the block with
/// the hash `hash`, for that block to become pending there.
pub open spec fn retained(s: State, height: u64, hash: Digest) -> Map<u64, Seq<Attestation>> {
    let own = attestations_at(s, height).filter(|a: Attestation| a.block_hash == hash);
    if own.len() == 0 {
        s.pending_attestations.remove(height)
    } else {
        s.pending_attestations.insert(height, own)
    }
}

/// The state without the pending block at `height` and its attestations.
pub open spec fn without_pending(s: State, height: u64) -> State {
    State {
        pending_blocks: s.pending_blocks.remove(height),
        pending_attestations: s.pending_attestations.remove(height),
        ..s
    }
}

/// What finalizing the pending block at `height` starts with.
pub open spec fn pending_finalized<S: StateStore>(
    s: State,
    store: S,
    height: u64,
    after: State,
    new_store: S,
    step: StepView,
) -> bool {
    if s.pending_blocks.contains_key(height) {
        finalization_started(
            without_pending(s, height),
            store,
            JobView {
                pending: s.pending_blocks[height],
                attestations: attestations_at(s, height),
                fork_choice: false,
            },
            after,
            new_store,
            step,
        )
    } else {
        after == without_pending(s, height) && new_store == store && step == StepView::Idle
    }
}

/// The pending block at `height` may be finalized without waiting any longer.
pub open spec fn may_finalize(s: State, height: u64) -> bool {
    ||| count_active(s.validators) <= 1
    ||| height <= BOOTSTRAP_HEIGHT
    ||| quorum(s.validators, attesters(attestations_at(s, height)))
}

/// The state after executing a block did not give its header's state root. Where
/// fork choice is in force the block is marked invalid, this node's vote for it is
/// withdrawn, and another candidate or a backup proposer's block can take its place:
/// every other candidate and every other vote stays. Otherwise the node cannot tell
/// which side diverged, and asks for a resync.
pub open spec fn rejected(s: State, job: JobView) -> State {
    let height = job.pending.header.height;
    let bad = hash_of(job.pending.header);
    let us = Slot { height, id: s.config.validator_id };
    if height >= s.config.fork_choice_v2_height {
        State {
            v2_blocks: s.v2_blocks.remove(Slot { height, id: bad }),
            v2_invalid: s.v2_invalid.insert(Slot { height, id: bad }, ()),
            v2_votes: if s.v2_votes.contains_key(us) && s.v2_votes[us] == bad {
                s.v2_votes.remove(us)
            } else {
                s.v2_votes
            },
            ..s
        }
    } else {
        State { needs_resync: true, ..s }
    }
}

/// One more, up to the largest number.
pub open spec fn counted_up(n: u32) -> u32 {
    if n == u32::MAX {
        n
    } else {
        (n + 1) as u32
    }
}

/// The block has waited longer than `timeout_ms`.
pub open spec fn timed_out(pending: PendingView, timeout_ms: u64, now: Now) -> bool {
    now.mono_ms - pending.proposed_at_ms > timeout_ms
}

/// What happens to a block that waited too long.
#[derive(Debug)]
pub enum TimeoutAction {
    /// It is not the next block of the chain.
    Skipped,
    /// It is this node's own block and others attested another one.
    Dropped,
    /// It waits on for a quorum.
    Waiting,
    /// Too many blocks in a row had no quorum.
    Abandoned,
    /// It is finalized.
    Finalized(Step),
}

/// The timed-out block at `height` is this node's own and others attested another.
pub open spec fn outvoted(s: State, height: u64) -> bool {
    s.pending_blocks.contains_key(height) && s.pending_blocks[height].header.proposer
        == s.config.validator_id && s.pending_blocks[height].mismatch_count > 0
}

/// What a timeout at `height` does. A block that is dropped leaves its attestations
/// behind: proposed again, it has the same hash, and they count on.
pub open spec fn timed_out_at<S: StateStore>(
    s: State,
    store: S,
    height: u64,
    action: TimeoutAction,
    after: State,
    new_store: S,
) -> bool {
    let count = counted_up(s.consecutive_force_finalizes);
    let counted = State { consecutive_force_finalizes: count, ..s };
    let dropped = State { pending_blocks: s.pending_blocks.remove(height), ..counted };
    if height != tip_height(s) + 1 {
        action is Skipped && after == s && new_store == store
    } else if outvoted(s, height) {
        action is Dropped && new_store == store && after == (State {
            pending_blocks: s.pending_blocks.remove(height),
            dropped_block_height: Some(height),
            ..s
        })
    } else if !may_finalize(s, height) {
        &&& new_store == store
        &&& if count > MAX_QUORUM_WAITS {
            action is Abandoned && after == dropped
        } else {
            action is Waiting && after == counted
        }
    } else if count > MAX_CONSECUTIVE_FORCE_FINALIZES {
        action is Abandoned && after == dropped && new_store == store
    } else {
        action matches TimeoutAction::Finalized(step) && pending_finalized(
            counted,
            store,
            height,
            after,
            new_store,
            step@,
        )
    }
}

/// How many of the timeouts ended in a block being finalized.
pub open spec fn finalized_count(actions: Seq<TimeoutAction>) -> nat
    decreases actions.len(),
{
    if actions.len() == 0 {
        0
    } else {
        let rest = finalized_count(actions.drop_last());
        if actions.last() is Finalized {
            rest + 1
        } else {
            rest
        }
    }
}

/// One pass over the blocks that waited too long.
pub struct TimeoutRun {
    /// The heights of those blocks.
    pub heights: Vec<u64>,
    /// How many of them were dealt with.
    pub done: usize,
    /// How many of them were sent on to be finalized.
    pub finalized: usize,
    /// What was decided at each height so far.
    pub actions: Ghost<Seq<TimeoutAction>>,
}

impl TimeoutRun {
    pub open spec fn wf(&self) -> bool {
        &&& self.done <= self.heights@.len()
        &&& self.actions@.len() == self.done
        &&& self.finalized == finalized_count(self.actions@)
        &&& self.finalized <= self.done
    }
}

/// The state without the attestations at or below the tip.
pub open spec fn swept(s: State) -> State {
    State { pending_attestations: above(s.pending_attestations, tip_height(s)), ..s }
}

/// The validators that attested, as a list.
pub fn attester_list(attestations: &Vec<Attestation>) -> (ids: Vec<ValidatorId>)
    ensures
        ids@.to_set() == attesters(attestations@),
        ids@.len() == attestations@.len(),
        forall|i: int| 0 <= i < ids@.len() ==> ids@[i] == (#[trigger] attestations@[i]).validator_id,
{
    let mut ids: Vec<ValidatorId> = Vec::new();
    let mut i: usize = 0;
    while i < attestations.len()
        invariant
            i <= attestations@.len(),
            ids@.len() == i,
            forall|j: int| 0 <= j < i ==> ids@[j] == (#[trigger] attestations@[j]).validator_id,
        decreases attestations@.len() - i,
    {
        ids.push(attestations[i].validator_id);
        i += 1;
    }
    proof {
        let list = attestations@;
        assert forall|id: ValidatorId| ids@.to_set().contains(id) <==> attesters(list).contains(
            id,
        ) by {
            if ids@.contains(id) {
                let j = choose|j: int| 0 <= j < ids@.len() && ids@[j] == id;
                assert(list[j].validator_id == id);
            }
            if attesters(list).contains(id) {
                let j = choose|j: int| 0 <= j < list.len() && (#[trigger] list[j]).validator_id == id;
                assert(ids@[j] == id);
            }
        }
        assert(ids@.to_set() =~= attesters(list));
    }
    ids
}

impl<S: StateStore> ConsensusEngine<S> {
    /// Starts to finalize a block.
    pub fn start_finalization(&mut self, job: ExecutionJob) -> (step: Step)
        requires
            old(self).inv(),
        ensures
            final(self).inv(),
            finalization_started(
                old(self)@,
                old(self).store,
                job@,
                final(self)@,
                final(self).store,
                step@,
            ),
    {
        if job.pending.already_executed {
            let ghost shown = job@;
            let PendingBlock { header, operations, result, revert, .. } = job.pending;
            let result = match result {
                Some(r) => r,
                None => {
                    let r = BlockResult {
                        state_root: header.state_root,
                        receipts: Vec::new(),
                        gas_used: 0,
                    };
                    assert(r@ =~~= empty_result(header.state_root));
                    r
                },
            };
            let revert = match revert {
                Some(r) => r,
                None => BlockRevert::empty(),
            };
            let sealed = SealedBlock {
                block: FinalizedBlock {
                    header,
                    result,
                    attestations: job.attestations,
                    operations,
                },
                revert,
                fork_choice: job.fork_choice,
            };
            let step = Step::Commit(sealed);
            assert(step@ == first_step(shown));
            step
        } else {
            self.restore_store_to_finalized_tip();
            Step::Execute(job)
        }
    }

    /// Starts to finalize the pending block at `height`.
    pub fn finalize_pending_block(&mut self, height: u64) -> (step: Step)
        requires
            old(self).inv(),
        ensures
            final(self).inv(),
            pending_finalized(
                old(self)@,
                old(self).store,
                height,
                final(self)@,
                final(self).store,
                step@,
            ),
    {
        let ghost before = self@;
        let pending = self.pending_blocks.remove(height);
        let attestations = match self.pending_attestations.remove(height) {
            Some(list) => list,
            None => Vec::new(),
        };
        assert(attestations@ =~= attestations_at(before, height));
        assert(self@ =~= without_pending(before, height));
        match pending {
            Some(pending) => self.start_finalization(
                ExecutionJob { pending, attestations, fork_choice: false },
            ),
            None => Step::Idle,
        }
    }

    /// Takes the outcome of executing a block: nothing, where it did not give the
    /// state root of its header. Returns the block to commit.
    pub fn complete_execution(&mut self, job: ExecutionJob, outcome: Option<Execution>) -> (sealed:
        Option<SealedBlock>)
        requires
            old(self).inv(),
        ensures
            final(self).inv(),
            final(self).store == old(self).store,
            match opt_view(outcome) {
                Some(execution) => final(self)@ == old(self)@ && opt_view(sealed) == Some(
                    sealed_block(job@, execution),
                ),
                None => final(self)@ == rejected(old(self)@, job@) && sealed is None,
            },
            sealed matches Some(kept) ==> {
                &&& kept@.block.header == job@.pending.header
                &&& kept@.block.operations == job@.pending.operations
                &&& kept@.block.attestations == job@.attestations
                &&& outcome matches Some(execution)
                &&& kept@.block.result == execution@.result
                &&& kept@.revert == execution@.revert
            },
    {
        let ghost before = self@;
        let ghost shown = job@;
        match outcome {
            Some(execution) => {
                let PendingBlock { header, operations, .. } = job.pending;
                Some(
                    SealedBlock {
                        block: FinalizedBlock {
                            header,
                            result: execution.result,
                            attestations: job.attestations,
                            operations,
                        },
                        revert: execution.revert,
                        fork_choice: job.fork_choice,
                    },
                )
            },
            None => {
                let height = job.pending.header.height;
                let bad = block_hash(&job.pending.header);
                if self.fc_v2_active(height) {
                    let slot = Slot { height, id: bad };
                    let _ = self.v2_blocks.remove(slot);
                    self.v2_invalid.insert(slot, crate::engine::Mark {  });
                    let us = Slot { height, id: self.config.validator_id };
                    let ours = match self.v2_votes.get(us) {
                        Some(vote) => same_hash(&vote.hash, &bad),
                        None => false,
                    };
                    if ours {
                        let _ = self.v2_votes.remove(us);
                    }
                } else {
                    self.needs_resync = true;
                }
                assert(self@ =~= rejected(before, shown));
                None
            },
        }
    }

    /// Finalizes the pending block at `height` without waiting for attestations,
    /// for a block that the network has already agreed on.
    pub fn force_finalize_block(&mut self, height: u64) -> (step: Step)
        requires
            old(self).inv(),
        ensures
            final(self).inv(),
            pending_finalized(
                old(self)@,
                old(self).store,
                height,
                final(self)@,
                final(self).store,
                step@,
            ),
    {
        self.finalize_pending_block(height)
    }

    /// Makes room for a pending block at `height` with the hash `hash`: the one that
    /// was pending leaves, and so do the attestations of any other block.
    pub(crate) fn make_room(&mut self, height: u64, hash: &Digest)
        requires
            old(self).inv(),
        ensures
            final(self).inv(),
            final(self).store == old(self).store,
            final(self)@ == (State {
                pending_blocks: old(self)@.pending_blocks.remove(height),
                pending_attestations: retained(old(self)@, height, *hash),
                ..old(self)@
            }),
            final(self)@.pending_attestations.contains_key(height) ==> attests_only(
                final(self)@.pending_attestations[height],
                *hash,
            ),
    {
        let ghost before = self@;
        let ghost own = |a: Attestation| a.block_hash == *hash;
        let _ = self.pending_blocks.remove(height);
        let mut list = match self.pending_attestations.remove(height) {
            Some(list) => list,
            None => Vec::new(),
        };
        let ghost full = attestations_at(before, height);
        assert(list@ =~= full);
        let mut k: usize = 0;
        while k < list.len()
            invariant
                k <= list@.len(),
                own == (|a: Attestation| a.block_hash == *hash),
                attested_once(list@, height),
                list@.filter(own) == full.filter(own),
                forall|j: int| 0 <= j < k ==> own(#[trigger] list@[j]),
            decreases list@.len() - k,
        {
            if same_hash(&list[k].block_hash, hash) {
                k += 1;
            } else {
                let ghost longer = list@;
                proof {
                    filter_without(longer, k as int, own);
                }
                let _ = list.remove(k);
                assert forall|i: int, j: int| 0 <= i < j < list@.len() implies (
                #[trigger] list@[i]).validator_id != (#[trigger] list@[j]).validator_id by {
                    let i0 = if i < k {
                        i
                    } else {
                        i + 1
                    };
                    let j0 = if j < k {
                        j
                    } else {
                        j + 1
                    };
                    assert(longer[i0].validator_id != longer[j0].validator_id);
                }
                assert forall|i: int| 0 <= i < list@.len() implies (
                #[trigger] list@[i]).block_height == height by {
                    let i0 = if i < k {
                        i
                    } else {
                        i + 1
                    };
                    assert(longer[i0].block_height == height);
                }
            }
        }
        proof {
            filter_of_all(list@, own);
            assert forall|i: int| 0 <= i < list@.len() implies (#[trigger] list@[i]).block_hash
                == *hash by {
                assert(own(list@[i]));
            }
        }
        if list.len() > 0 {
            self.pending_attestations.insert(height, list);
        }
        assert(self@ =~= (State {
            pending_blocks: before.pending_blocks.remove(height),
            pending_attestations: retained(before, height, *hash),
            ..before
        }));
    }

    /// Whether the pending block at `height` may be finalized now.
    fn ready_to_finalize(&self, height: u64) -> (ready: bool)
        requires
            self.inv(),
        ensures
            ready == may_finalize(self@, height),
    {
        if self.validator_set.active_count() <= 1 || height <= BOOTSTRAP_HEIGHT {
            return true;
        }
        let ids = match self.pending_attestations.get(height) {
            Some(list) => attester_list(list),
            None => {
                let none: Vec<ValidatorId> = Vec::new();
                assert(none@.to_set() =~= attesters(attestations_at(self@, height)));
                none
            },
        };
        self.validator_set.has_quorum(&ids)
    }

    /// Finalizes the pending block at `height` only with a quorum behind it, or
    /// where none is needed yet. Returns nothing where none is pending or it has to
    /// wait.
    pub fn force_finalize_block_if_quorum(&mut self, height: u64) -> (step: Option<Step>)
        requires
            old(self).inv(),
        ensures
            final(self).inv(),
            match step {
                Some(step) => old(self)@.pending_blocks.contains_key(height) && may_finalize(
                    old(self)@,
                    height,
                ) && step@ !is Idle && pending_finalized(
                    old(self)@,
                    old(self).store,
                    height,
                    final(self)@,
                    final(self).store,
                    step@,
                ),
                None => !(old(self)@.pending_blocks.contains_key(height) && may_finalize(
                    old(self)@,
                    height,
                )) && final(self)@ == old(self)@ && final(self).store == old(self).store,
            },
            step is Some ==> height <= 3 || count_active(
                old(self)@.validators,
            ) <= 1 || 3 * stake_in(
                old(self)@.validators,
                attesters(attestations_at(old(self)@, height)),
            ) > 2 * active_stake(old(self)@.validators),
    {
        if self.pending_blocks.contains(height) && self.ready_to_finalize(height) {
            Some(self.finalize_pending_block(height))
        } else {
            None
        }
    }

    /// Discards the pending blocks at or below the tip, and lists the heights of
    /// those that waited longer than `timeout_ms`.
    pub fn timed_out_heights(&mut self, timeout_ms: u64, now: Now) -> (heights: Vec<u64>)
        requires
            old(self).inv(),
        ensures
            final(self).inv(),
            final(self).store == old(self).store,
            final(self)@ == (State {
                pending_blocks: above(old(self)@.pending_blocks, tip_height(old(self)@)),
                ..old(self)@
            }),
            heights@.no_duplicates(),
            forall|h: u64| #[trigger]
                heights@.contains(h) <==> final(self)@.pending_blocks.contains_key(h) && timed_out(
                    final(self)@.pending_blocks[h],
                    timeout_ms,
                    now,
                ),
    {
        let ghost before = self@;
        let tip = self.height();
        self.pending_blocks.retain_above(tip);
        let mut heights: Vec<u64> = Vec::new();
        let mut i: usize = 0;
        while i < self.pending_blocks.entries.len()
            invariant
                i <= self.pending_blocks.entries@.len(),
                self.pending_blocks.wf(),
                forall|h: u64| #[trigger]
                    heights@.contains(h) <==> exists|j: int|
                        0 <= j < i && (#[trigger] self.pending_blocks.entries@[j]).0 == h
                            && timed_out(self.pending_blocks.entries@[j].1@, timeout_ms, now),
                heights@.no_duplicates(),
            decreases self.pending_blocks.entries@.len() - i,
        {
            let ghost known = heights@;
            let height = self.pending_blocks.key_at(i);
            let waited = now.mono_ms.saturating_sub(self.pending_blocks.value_at(i).proposed_at_ms);
            if waited > timeout_ms {
                heights.push(height);
                proof {
                    if known.contains(height) {
                        let j = choose|j: int|
                            0 <= j < i && (#[trigger] self.pending_blocks.entries@[j]).0 == height
                                && timed_out(
                                self.pending_blocks.entries@[j].1@,
                                timeout_ms,
                                now,
                            );
                        assert(self.pending_blocks.entries@[j].0
                            != self.pending_blocks.entries@[i as int].0);
                    }
                    assert forall|h: u64| #[trigger] heights@.contains(h) <==> exists|j: int|
                        0 <= j < i + 1 && (#[trigger] self.pending_blocks.entries@[j]).0 == h
                            && timed_out(
                            self.pending_blocks.entries@[j].1@,
                            timeout_ms,
                            now,
                        ) by {
                        if heights@.contains(h) {
                            let q = choose|q: int| 0 <= q < heights@.len() && heights@[q] == h;
                            if q < known.len() {
                                assert(known.contains(h)) by {
                                    assert(known[q] == h);
                                }
                            } else {
                                assert(self.pending_blocks.entries@[i as int].0 == h);
                            }
                        }
                        if known.contains(h) {
                            let q = choose|q: int| 0 <= q < known.len() && known[q] == h;
                            assert(heights@[q] == h);
                        }
                        assert(heights@[known.len() as int] == height);
                    }
                }
            }
            i += 1;
        }
        proof {
            assert forall|h: u64| #[trigger] heights@.contains(h)
                <==> self.pending_blocks@.contains_key(h) && timed_out(
                self.pending_blocks@[h],
                timeout_ms,
                now,
            ) by {
                if heights@.contains(h) {
                    let j = choose|j: int|
                        0 <= j < i && (#[trigger] self.pending_blocks.entries@[j]).0 == h
                            && timed_out(self.pending_blocks.entries@[j].1@, timeout_ms, now);
                    self.pending_blocks.held(j);
                }
                if self.pending_blocks@.contains_key(h) {
                    let _ = self.pending_blocks.entry_of(h);
                }
            }
        }
        heights
    }

    /// Drops the pending block at `height`.
    fn drop_pending(&mut self, height: u64)
        requires
            old(self).inv(),
        ensures
            final(self).inv(),
            final(self).store == old(self).store,
            final(self)@ == (State {
                pending_blocks: old(self)@.pending_blocks.remove(height),
                ..old(self)@
            }),
    {
        let _ = self.pending_blocks.remove(height);
    }

    /// Decides about a pending block that waited too long. Only the next block of
    /// the chain is finalized, only with a quorum behind it (or where none is
    /// needed yet), and only so many in a row.
    pub fn finalize_timed_out_block(&mut self, height: u64) -> (action: TimeoutAction)
        requires
            old(self).inv(),
        ensures
            final(self).inv(),
            timed_out_at(
                old(self)@,
                old(self).store,
                height,
                action,
                final(self)@,
                final(self).store,
            ),
            action is Finalized ==> height <= 3 || count_active(
                old(self)@.validators,
            ) <= 1 || 3 * stake_in(
                old(self)@.validators,
                attesters(attestations_at(old(self)@, height)),
            ) > 2 * active_stake(old(self)@.validators),
    {
        let ghost before = self@;
        let tip = self.height();
        if tip == u64::MAX || height != tip + 1 {
            return TimeoutAction::Skipped;
        }
        let outvoted = match self.pending_blocks.get(height) {
            Some(pending) => same_hash(&pending.header.proposer, &self.config.validator_id)
                && pending.mismatch_count > 0,
            None => false,
        };
        if outvoted {
            self.drop_pending(height);
            self.dropped_block_height = Some(height);
            return TimeoutAction::Dropped;
        }
        let ready = self.ready_to_finalize(height);
        let count = self.consecutive_force_finalizes.saturating_add(1);
        self.consecutive_force_finalizes = count;
        if !ready {
            if count > MAX_QUORUM_WAITS {
                self.drop_pending(height);
                return TimeoutAction::Abandoned;
            }
            return TimeoutAction::Waiting;
        }
        if count > MAX_CONSECUTIVE_FORCE_FINALIZES {
            self.drop_pending(height);
            return TimeoutAction::Abandoned;
        }
        TimeoutAction::Finalized(self.finalize_pending_block(height))
    }

    /// Drops the attestations at or below the tip.
    pub fn sweep_attestations(&mut self)
        requires
            old(self).inv(),
        ensures
            final(self).inv(),
            final(self).store == old(self).store,
            final(self)@ == swept(old(self)@),
    {
        let tip = self.height();
        self.pending_attestations.retain_above(tip);
    }

    /// Begins a pass over the pending blocks that waited longer than `timeout_ms`.
    /// Those at or below the tip are discarded.
    pub fn begin_timeouts(&mut self, timeout_ms: u64, now: Now) -> (run: TimeoutRun)
        requires
            old(self).inv(),
        ensures
            final(self).inv(),
            final(self).store == old(self).store,
            final(self)@ == (State {
                pending_blocks: above(old(self)@.pending_blocks, tip_height(old(self)@)),
                ..old(self)@
            }),
            run.wf(),
            run.done == 0,
            run.heights@.no_duplicates(),
            forall|h: u64| #[trigger]
                run.heights@.contains(h) <==> final(self)@.pending_blocks.contains_key(h)
                    && timed_out(final(self)@.pending_blocks[h], timeout_ms, now),
    {
        let heights = self.timed_out_heights(timeout_ms, now);
        TimeoutRun { heights, done: 0, finalized: 0, actions: Ghost(Seq::empty()) }
    }

    /// Decides about the next block of a pass. The node does what the decision asks for
    /// before it goes on. Returns nothing at the end of the pass, where the
    /// attestations at or below the tip are dropped.
    pub fn next_timeout(&mut self, run: &mut TimeoutRun) -> (action: Option<TimeoutAction>)
        requires
            old(self).inv(),
            old(run).wf(),
        ensures
            final(self).inv(),
            final(run).wf(),
            final(run).heights == old(run).heights,
            match action {
                Some(action) => {
                    &&& old(run).done < old(run).heights@.len()
                    &&& final(run).done == old(run).done + 1
                    &&& final(run).actions@ == old(run).actions@.push(action)
                    &&& timed_out_at(
                        old(self)@,
                        old(self).store,
                        old(run).heights@[old(run).done as int],
                        action,
                        final(self)@,
                        final(self).store,
                    )
                },
                None => {
                    &&& old(run).done == old(run).heights@.len()
                    &&& *final(run) == *old(run)
                    &&& final(self)@ == swept(old(self)@)
                    &&& final(self).store == old(self).store
                },
            },
    {
        if run.done == run.heights.len() {
            self.sweep_attestations();
            return None;
        }
        let height = run.heights[run.done];
        let action = self.finalize_timed_out_block(height);
        if matches!(action, TimeoutAction::Finalized(_)) {
            run.finalized += 1;
        }
        run.done += 1;
        proof {
            let longer = run.actions@.push(action);
            assert(longer.drop_last() =~= run.actions@);
            run.actions@ = longer;
        }
        Some(action)
    }
}

} // verus!
