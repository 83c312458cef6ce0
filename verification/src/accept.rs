//! Blocks and attestations from peers.
use vstd::prelude::*;

use crate::bytes::{same_hash, Digest, ValidatorId};
use crate::checkpoint::{checkpoint_conflict, violates_trusted};
use crate::codec::{attestation_payload, block_hash, hash_of};
use crate::crypto::{ed25519_accepts, ed25519_verify};
use crate::engine::{
    is_validly_signed, signed_by_validator, tip_hash, tip_height, validly_signed, ConsensusEngine,
    EarlyAttestation, Now, State, Step, StepView, EPOCH_LENGTH,
};
use crate::finality::{
    attester_list, attesters, attestations_at, counted_up, pending_finalized, retained,
};
use crate::fork_choice::{rank, rank_of, reevaluated, with_candidate, with_vote};
use crate::lists::{filter_of_all, filter_one_more, filter_within, filter_without};
use crate::store::StateStore;
use crate::table::Slot;
use crate::types::{
    copy_list, opt_view, received, views, Attestation, BlockHeader, BlockView, HeaderView,
    OperationView, PendingBlock, PendingView, UserOperation,
};
use crate::validator::{contains_id, is_active_in, quorum};

verus! {

/// How far ahead of the local clock a block's timestamp may be.
pub const MAX_TIMESTAMP_DRIFT_MS: u64 = 30_000;

/// How far beyond the tip a vote may be.
pub const MAX_VOTE_LOOKAHEAD: u64 = 64;

/// How many attestations of unknown blocks are kept.
pub const MAX_EARLY_ATTESTATIONS: usize = 200;

/// How long attestations of unknown blocks are kept.
pub const EARLY_ATTESTATION_TTL_MS: u64 = 10_000;

/// The block is one that the chain may continue with: it follows the tip, agrees
/// with every checkpoint, has a sound timestamp and epoch, is signed by its
/// proposer, and its proposer is an active validator in the proposer order.
pub open spec fn admissible(
    s: State,
    header: HeaderView,
    order: Seq<ValidatorId>,
    now: Now,
) -> bool {
    &&& !s.resyncing
    &&& header.height == tip_height(s) + 1
    &&& s.chain.len() > 0 ==> header.parent_hash == tip_hash(s)
    &&& !s.v2_invalid.contains_key(Slot { height: header.height, id: hash_of(header) })
    &&& !violates_trusted(s.trusted_checkpoints, header.height, hash_of(header))
    &&& checkpoint_conflict(s.checkpoints, header.height, hash_of(header)) is None
    &&& s.chain.len() > 0 ==> header.timestamp_ms > s.chain.last().header.timestamp_ms
    &&& header.timestamp_ms <= now.wall_ms + MAX_TIMESTAMP_DRIFT_MS
    &&& header.epoch == header.height / EPOCH_LENGTH
    &&& order.contains(header.proposer)
    &&& signed_by_validator(s.validators, header)
}

/// A block at `height` is final.
pub open spec fn finalized_height(chain: Seq<BlockView>, height: u64) -> bool {
    exists|i: int| 0 <= i < chain.len() && (#[trigger] chain[i]).header.height == height
}

/// The block at `i` of the chain has the height and the proposer of `header`, and is
/// another block.
pub open spec fn conflicts_at(chain: Seq<BlockView>, header: HeaderView, i: int) -> bool {
    &&& 0 <= i < chain.len()
    &&& chain[i].header.height == header.height
    &&& chain[i].header.proposer == header.proposer
    &&& hash_of(chain[i].header) != hash_of(header)
}

/// The block at `i` is the first of the chain that conflicts with `header`.
pub open spec fn first_conflict(chain: Seq<BlockView>, header: HeaderView, i: int) -> bool {
    conflicts_at(chain, header, i) && forall|j: int|
        0 <= j < i ==> !#[trigger] conflicts_at(chain, header, j)
}

/// The header of the finalized block that the proposer of `header` signed beside it.
pub open spec fn equivocation(chain: Seq<BlockView>, header: HeaderView) -> Option<HeaderView> {
    if validly_signed(header) && exists|i: int| first_conflict(chain, header, i) {
        Some(chain[choose|i: int| first_conflict(chain, header, i)].header)
    } else {
        None
    }
}

/// What became of a block from a peer.
#[derive(Debug)]
pub enum AcceptOutcome {
    /// It is not taken.
    Rejected,
    /// It is not taken, and its proposer signed `first` at the same height too.
    DoubleSign { first: BlockHeader },
    /// It is a candidate of fork choice.
    Candidate(Step),
    /// It is pending; the attestations of it that came early are to be counted.
    Pending(Vec<EarlyAttestation>),
}

/// `e` attests the given block.
pub open spec fn early_match(e: EarlyAttestation, height: u64, hash: Digest) -> bool {
    e.block_height == height && e.block_hash == hash
}

/// The state with a block from a peer pending, in place of any other. Attestations of
/// another block do not stay.
pub open spec fn made_pending(
    s: State,
    header: HeaderView,
    operations: Seq<OperationView>,
    now: Now,
) -> State {
    State {
        pending_attestations: retained(s, header.height, hash_of(header)),
        pending_blocks: s.pending_blocks.insert(
            header.height,
            received(header, operations, now.mono_ms),
        ),
        early_attestations: s.early_attestations.filter(
            |e: EarlyAttestation| e.block_height != header.height,
        ),
        ..s
    }
}

/// A block may take the place of a pending one: its proposer ranks higher, and
/// the pending one did not run yet.
pub open spec fn supersedes(
    header: HeaderView,
    existing: PendingView,
    order: Seq<ValidatorId>,
) -> bool {
    rank(order, header.proposer) < rank(order, existing.header.proposer)
        && !existing.already_executed
}

/// What taking an admissible block without fork choice does.
pub open spec fn offered(
    s: State,
    header: HeaderView,
    operations: Seq<OperationView>,
    order: Seq<ValidatorId>,
    now: Now,
    outcome: AcceptOutcome,
    after: State,
) -> bool {
    let pending = s.pending_blocks;
    let height = header.height;
    if pending.contains_key(height) && hash_of(pending[height].header) == hash_of(header) {
        outcome is Rejected && after == s
    } else if pending.contains_key(height) && pending[height].header.proposer == header.proposer {
        outcome matches AcceptOutcome::DoubleSign { first } && first@ == pending[height].header
            && after == s
    } else if pending.contains_key(height) && !supersedes(header, pending[height], order) {
        outcome is Rejected && after == s
    } else {
        &&& after == made_pending(s, header, operations, now)
        &&& outcome matches AcceptOutcome::Pending(early)
        &&& early@ == s.early_attestations.filter(
            |e: EarlyAttestation| early_match(e, height, hash_of(header)),
        )
    }
}

/// What offering a block to the engine does. A proposer that signs another block at
/// a height that is final is found out whichever height the chain is at by then.
pub open spec fn accepted<S: StateStore>(
    s: State,
    store: S,
    header: HeaderView,
    operations: Seq<OperationView>,
    order: Seq<ValidatorId>,
    now: Now,
    outcome: AcceptOutcome,
    after: State,
    new_store: S,
) -> bool {
    if s.resyncing {
        outcome is Rejected && after == s && new_store == store
    } else {
        match equivocation(s.chain, header) {
            Some(first_header) => outcome matches AcceptOutcome::DoubleSign { first } && first@
                == first_header && after == s && new_store == store,
            None => if !admissible(s, header, order, now) || finalized_height(
                s.chain,
                header.height,
            ) {
                outcome is Rejected && after == s && new_store == store
            } else if header.height >= s.config.fork_choice_v2_height {
                outcome matches AcceptOutcome::Candidate(step) && reevaluated(
                    with_candidate(s, header, operations, now),
                    store,
                    order,
                    header.height,
                    after,
                    new_store,
                    step@,
                )
            } else {
                offered(s, header, operations, order, now, outcome, after) && new_store == store
            },
        }
    }
}

/// What became of an attestation.
#[derive(Debug)]
pub enum AttestOutcome {
    /// It does not count, at least not yet.
    Ignored,
    /// It counts.
    Recorded,
    /// It counts, and a block is being finalized.
    Finalizing(Step),
}

/// The step that an attestation leads to.
pub open spec fn attest_step(outcome: AttestOutcome) -> StepView {
    match outcome {
        AttestOutcome::Finalizing(step) => step@,
        _ => StepView::Idle,
    }
}

/// An early attestation is still worth keeping.
pub open spec fn still_fresh(e: EarlyAttestation, now: Now) -> bool {
    now.mono_ms - e.received_ms < EARLY_ATTESTATION_TTL_MS
}

/// `buffer` holds an attestation of `id` at `height`.
pub open spec fn buffers(buffer: Seq<EarlyAttestation>, id: ValidatorId, height: u64) -> bool {
    exists|i: int|
        0 <= i < buffer.len() && (#[trigger] buffer[i]).validator_id == id && buffer[i].block_height
            == height
}

/// The buffer of early attestations with one more, where there is room and the
/// validator has none at that height yet. Old ones are dropped first.
pub open spec fn buffered(
    buffer: Seq<EarlyAttestation>,
    id: ValidatorId,
    height: u64,
    hash: Digest,
    now: Now,
) -> Seq<EarlyAttestation> {
    let fresh = buffer.filter(|e: EarlyAttestation| still_fresh(e, now));
    if fresh.len() < MAX_EARLY_ATTESTATIONS && !buffers(fresh, id, height) {
        fresh.push(
            EarlyAttestation {
                validator_id: id,
                block_height: height,
                block_hash: hash,
                received_ms: now.mono_ms,
            },
        )
    } else {
        fresh
    }
}

/// The state with one more attestation of the pending block.
pub open spec fn with_attestation(s: State, id: ValidatorId, height: u64, hash: Digest) -> State {
    State {
        pending_attestations: s.pending_attestations.insert(
            height,
            attestations_at(s, height).push(
                Attestation { validator_id: id, block_height: height, block_hash: hash },
            ),
        ),
        ..s
    }
}

/// The pending block at `height` with one more attestation of another block.
pub open spec fn mismatch_counted(s: State, height: u64) -> State {
    let pending = s.pending_blocks[height];
    State {
        pending_blocks: s.pending_blocks.insert(
            height,
            PendingView { mismatch_count: counted_up(pending.mismatch_count), ..pending },
        ),
        ..s
    }
}

/// What an attestation does where fork choice is not in force.
pub open spec fn attested_pending<S: StateStore>(
    s: State,
    store: S,
    id: ValidatorId,
    height: u64,
    hash: Digest,
    now: Now,
    outcome: AttestOutcome,
    after: State,
    new_store: S,
) -> bool {
    if !s.pending_blocks.contains_key(height) {
        outcome is Ignored && new_store == store && after == (State {
            early_attestations: buffered(s.early_attestations, id, height, hash, now),
            ..s
        })
    } else if hash_of(s.pending_blocks[height].header) != hash {
        outcome is Ignored && new_store == store && after == mismatch_counted(s, height)
    } else if attesters(attestations_at(s, height)).contains(id) {
        outcome is Ignored && new_store == store && after == s
    } else {
        let counted = with_attestation(s, id, height, hash);
        if quorum(s.validators, attesters(attestations_at(counted, height))) {
            outcome is Finalizing && pending_finalized(
                counted,
                store,
                height,
                after,
                new_store,
                attest_step(outcome),
            )
        } else {
            outcome is Recorded && after == counted && new_store == store
        }
    }
}

/// A vote at `height` is neither for a finalized height nor too far ahead.
pub open spec fn in_window(s: State, height: u64) -> bool {
    tip_height(s) < height <= tip_height(s) + MAX_VOTE_LOOKAHEAD
}

/// What an attestation does.
pub open spec fn attested<S: StateStore>(
    s: State,
    store: S,
    id: ValidatorId,
    height: u64,
    hash: Digest,
    order: Seq<ValidatorId>,
    now: Now,
    outcome: AttestOutcome,
    after: State,
    new_store: S,
) -> bool {
    if !is_active_in(s.validators, id) {
        outcome is Ignored && after == s && new_store == store
    } else if height >= s.config.fork_choice_v2_height {
        if in_window(s, height) {
            &&& outcome !is Ignored
            &&& outcome is Finalizing <==> attest_step(outcome) !is Idle
            &&& reevaluated(
                with_vote(s, id, height, hash),
                store,
                order,
                height,
                after,
                new_store,
                attest_step(outcome),
            )
        } else {
            outcome is Ignored && after == s && new_store == store
        }
    } else {
        attested_pending(s, store, id, height, hash, now, outcome, after, new_store)
    }
}

/// No validator has two attestations at one height in `buffer`.
pub open spec fn buffered_once(buffer: Seq<EarlyAttestation>) -> bool {
    forall|i: int, j: int|
        0 <= i < j < buffer.len() ==> !((#[trigger] buffer[i]).validator_id == (
        #[trigger] buffer[j]).validator_id && buffer[i].block_height == buffer[j].block_height)
}

proof fn filter_buffers_once(buffer: Seq<EarlyAttestation>, p: spec_fn(EarlyAttestation) -> bool)
    requires
        buffered_once(buffer),
    ensures
        buffered_once(buffer.filter(p)),
    decreases buffer.len(),
{
    reveal(Seq::filter);
    if buffer.len() > 0 {
        let shorter = buffer.drop_last();
        let last = buffer.last();
        assert(buffered_once(shorter)) by {
            assert forall|i: int, j: int| 0 <= i < j < shorter.len() implies !((
            #[trigger] shorter[i]).validator_id == (#[trigger] shorter[j]).validator_id
                && shorter[i].block_height == shorter[j].block_height) by {
                assert(buffer[i] == shorter[i] && buffer[j] == shorter[j]);
            }
        }
        filter_buffers_once(shorter, p);
        filter_within(shorter, p);
        let part = shorter.filter(p);
        let whole = buffer.filter(p);
        assert forall|i: int, j: int| 0 <= i < j < whole.len() implies !((
        #[trigger] whole[i]).validator_id == (#[trigger] whole[j]).validator_id
            && whole[i].block_height == whole[j].block_height) by {
            assert(whole[i] == part[i]);
            if j < part.len() {
                assert(whole[j] == part[j]);
            } else {
                assert(shorter.contains(part[i]));
                let k = choose|k: int| 0 <= k < shorter.len() && shorter[k] == part[i];
                assert(buffer[k] == part[i] && buffer[buffer.len() - 1] == last);
            }
        }
    }
}

/// The buffer of early attestations stays bounded, whatever arrives, and no
/// validator takes two places at one height.
pub proof fn early_buffer_bounded(
    buffer: Seq<EarlyAttestation>,
    id: ValidatorId,
    height: u64,
    hash: Digest,
    now: Now,
)
    requires
        buffer.len() <= MAX_EARLY_ATTESTATIONS,
        buffered_once(buffer),
    ensures
        buffered(buffer, id, height, hash, now).len() <= MAX_EARLY_ATTESTATIONS,
        buffered_once(buffered(buffer, id, height, hash, now)),
{
    let p = |e: EarlyAttestation| still_fresh(e, now);
    let fresh = buffer.filter(p);
    filter_within(buffer, p);
    filter_buffers_once(buffer, p);
    let after = buffered(buffer, id, height, hash, now);
    assert forall|i: int, j: int| 0 <= i < j < after.len() implies !((#[trigger] after[i]).validator_id
        == (#[trigger] after[j]).validator_id && after[i].block_height == after[j].block_height) by {
        assert(after[i] == fresh[i]);
        if j < fresh.len() {
            assert(after[j] == fresh[j]);
        }
    }
}

/// Takes the attestations of a block out of the buffer, and drops the others at
/// its height.
fn take_early(buffer: &mut Vec<EarlyAttestation>, height: u64, hash: &Digest) -> (early: Vec<
    EarlyAttestation,
>)
    ensures
        early@ == old(buffer)@.filter(|e: EarlyAttestation| early_match(e, height, *hash)),
        final(buffer)@ == old(buffer)@.filter(|e: EarlyAttestation| e.block_height != height),
{
    let ghost full = buffer@;
    let ghost wanted = |e: EarlyAttestation| early_match(e, height, *hash);
    let ghost other = |e: EarlyAttestation| e.block_height != height;
    let mut early: Vec<EarlyAttestation> = Vec::new();
    let mut i: usize = 0;
    assert(full.take(0).filter(wanted) =~= Seq::<EarlyAttestation>::empty()) by {
        reveal(Seq::filter);
    }
    while i < buffer.len()
        invariant
            i <= buffer@.len(),
            buffer@ == full,
            wanted == (|e: EarlyAttestation| early_match(e, height, *hash)),
            early@ == full.take(i as int).filter(wanted),
        decreases buffer@.len() - i,
    {
        proof {
            filter_one_more(full, i as int, wanted);
        }
        if buffer[i].block_height == height && same_hash(&buffer[i].block_hash, hash) {
            early.push(buffer[i]);
        }
        i += 1;
    }
    assert(full.take(i as int) =~= full);
    let mut k: usize = 0;
    while k < buffer.len()
        invariant
            k <= buffer@.len(),
            other == (|e: EarlyAttestation| e.block_height != height),
            buffer@.filter(other) == full.filter(other),
            forall|j: int| 0 <= j < k ==> other(#[trigger] buffer@[j]),
        decreases buffer@.len() - k,
    {
        if buffer[k].block_height != height {
            k += 1;
        } else {
            proof {
                filter_without(buffer@, k as int, other);
            }
            let _ = buffer.remove(k);
        }
    }
    proof {
        filter_of_all(buffer@, other);
    }
    early
}

/// Keeps an attestation of an unknown block, where there is room for it.
fn buffer_early(
    buffer: &mut Vec<EarlyAttestation>,
    id: &ValidatorId,
    height: u64,
    hash: &Digest,
    now: Now,
)
    ensures
        final(buffer)@ == buffered(old(buffer)@, *id, height, *hash, now),
{
    let ghost full = buffer@;
    let ghost fresh = |e: EarlyAttestation| still_fresh(e, now);
    let mut k: usize = 0;
    while k < buffer.len()
        invariant
            k <= buffer@.len(),
            fresh == (|e: EarlyAttestation| still_fresh(e, now)),
            buffer@.filter(fresh) == full.filter(fresh),
            forall|j: int| 0 <= j < k ==> fresh(#[trigger] buffer@[j]),
        decreases buffer@.len() - k,
    {
        if now.mono_ms.saturating_sub(buffer[k].received_ms) < EARLY_ATTESTATION_TTL_MS {
            k += 1;
        } else {
            proof {
                filter_without(buffer@, k as int, fresh);
            }
            let _ = buffer.remove(k);
        }
    }
    proof {
        filter_of_all(buffer@, fresh);
    }
    if buffer.len() >= MAX_EARLY_ATTESTATIONS {
        return;
    }
    let mut i: usize = 0;
    while i < buffer.len()
        invariant
            i <= buffer@.len(),
            buffer@ == full.filter(fresh),
            fresh == (|e: EarlyAttestation| still_fresh(e, now)),
            full == old(buffer)@,
            forall|j: int|
                0 <= j < i ==> !((#[trigger] buffer@[j]).validator_id == *id
                    && buffer@[j].block_height == height),
        decreases buffer@.len() - i,
    {
        if same_hash(&buffer[i].validator_id, id) && buffer[i].block_height == height {
            assert(buffers(buffer@, *id, height));
            return;
        }
        i += 1;
    }
    buffer.push(
        EarlyAttestation {
            validator_id: *id,
            block_height: height,
            block_hash: *hash,
            received_ms: now.mono_ms,
        },
    );
}

impl<S: StateStore> ConsensusEngine<S> {
    /// Whether the chain may continue with a block.
    fn is_admissible(&self, header: &BlockHeader, order: &Vec<ValidatorId>, now: Now) -> (sound: bool)
        requires
            self.inv(),
        ensures
            sound == admissible(self@, header@, order@, now),
    {
        if self.resyncing {
            return false;
        }
        let tip = self.height();
        if tip == u64::MAX || header.height != tip + 1 {
            return false;
        }
        let hash = block_hash(header);
        let n = self.chain.len();
        if n > 0 {
            assert(self@.chain.last() == self.chain@[n - 1]@);
            let last = &self.chain[n - 1].header;
            if !same_hash(&header.parent_hash, &block_hash(last)) {
                return false;
            }
            if header.timestamp_ms <= last.timestamp_ms {
                return false;
            }
        }
        if self.v2_invalid.contains(Slot { height: header.height, id: hash }) {
            return false;
        }
        if self.trusted_checkpoints.validate(header.height, &hash).is_some() {
            return false;
        }
        if self.finalized_checkpoints.validate_block(header.height, &hash).is_some() {
            return false;
        }
        if header.timestamp_ms > now.wall_ms.saturating_add(MAX_TIMESTAMP_DRIFT_MS) {
            return false;
        }
        if header.epoch != header.height / EPOCH_LENGTH {
            return false;
        }
        contains_id(order, &header.proposer) && self.header_is_validator_signed(header)
    }

    /// Whether a block at `height` is final.
    fn is_finalized_height(&self, height: u64) -> (finalized: bool)
        ensures
            finalized == finalized_height(self@.chain, height),
    {
        let mut i: usize = 0;
        while i < self.chain.len()
            invariant
                i <= self.chain@.len(),
                forall|j: int| 0 <= j < i ==> (#[trigger] self@.chain[j]).header.height != height,
            decreases self.chain@.len() - i,
        {
            assert(self@.chain[i as int] == self.chain@[i as int]@);
            if self.chain[i].header.height == height {
                return true;
            }
            i += 1;
        }
        false
    }

    /// The header of the finalized block that the proposer of `header` signed beside
    /// it.
    fn find_equivocation(&self, header: &BlockHeader) -> (first: Option<BlockHeader>)
        ensures
            opt_view(first) == equivocation(self@.chain, header@),
    {
        let hash = block_hash(header);
        let mut i: usize = 0;
        while i < self.chain.len()
            invariant
                i <= self.chain@.len(),
                hash == hash_of(header@),
                forall|j: int| 0 <= j < i ==> !#[trigger] conflicts_at(self@.chain, header@, j),
            decreases self.chain@.len() - i,
        {
            assert(self@.chain[i as int] == self.chain@[i as int]@);
            let held = &self.chain[i].header;
            if held.height == header.height && same_hash(&held.proposer, &header.proposer)
                && !same_hash(&block_hash(held), &hash) {
                proof {
                    assert(first_conflict(self@.chain, header@, i as int));
                    let k = choose|k: int| first_conflict(self@.chain, header@, k);
                    if k < i {
                        assert(!conflicts_at(self@.chain, header@, k));
                    } else if i < k {
                        assert(!conflicts_at(self@.chain, header@, i as int));
                    }
                }
                return if is_validly_signed(header) {
                    Some(held.clone())
                } else {
                    None
                };
            }
            i += 1;
        }
        assert forall|k: int| !first_conflict(self@.chain, header@, k) by {
            if 0 <= k < self@.chain.len() {
                assert(!conflicts_at(self@.chain, header@, k));
            }
        }
        None
    }

    /// Takes an admissible block where fork choice is not in force.
    fn offer_block(
        &mut self,
        header: &BlockHeader,
        operations: &Vec<UserOperation>,
        order: &Vec<ValidatorId>,
        now: Now,
    ) -> (outcome: AcceptOutcome)
        requires
            old(self).inv(),
        ensures
            final(self).inv(),
            final(self).store == old(self).store,
            offered(
                old(self)@,
                header@,
                views(operations@),
                order@,
                now,
                outcome,
                final(self)@,
            ),
    {
        let ghost before = self@;
        let height = header.height;
        let hash = block_hash(header);
        if let Some(existing) = self.pending_blocks.get(height) {
            if same_hash(&block_hash(&existing.header), &hash) {
                return AcceptOutcome::Rejected;
            }
            if same_hash(&existing.header.proposer, &header.proposer) {
                return AcceptOutcome::DoubleSign { first: existing.header.clone() };
            }
            let existing_rank = rank_of(order, &existing.header.proposer);
            let new_rank = rank_of(order, &header.proposer);
            if new_rank >= existing_rank || existing.already_executed {
                return AcceptOutcome::Rejected;
            }
        }
        self.make_room(height, &hash);
        let pending = PendingBlock {
            header: header.clone(),
            operations: copy_list(operations),
            proposed_at_ms: now.mono_ms,
            already_executed: false,
            result: None,
            revert: None,
            mismatch_count: 0,
        };
        assert(pending@ == received(header@, views(operations@), now.mono_ms));
        self.pending_blocks.insert(height, pending);
        let early = take_early(&mut self.early_attestations, height, &hash);
        assert(self@ =~= made_pending(before, header@, views(operations@), now));
        AcceptOutcome::Pending(early)
    }

    /// Takes a block that another validator proposed. It is not executed here;
    /// that happens when it is finalized. `order` is the proposer order of its
    /// height.
    pub fn accept_block(
        &mut self,
        header: &BlockHeader,
        operations: &Vec<UserOperation>,
        order: &Vec<ValidatorId>,
        now: Now,
    ) -> (outcome: AcceptOutcome)
        requires
            old(self).inv(),
        ensures
            final(self).inv(),
            accepted(
                old(self)@,
                old(self).store,
                header@,
                views(operations@),
                order@,
                now,
                outcome,
                final(self)@,
                final(self).store,
            ),
    {
        if self.resyncing {
            return AcceptOutcome::Rejected;
        }
        if let Some(first) = self.find_equivocation(header) {
            return AcceptOutcome::DoubleSign { first };
        }
        if !self.is_admissible(header, order, now) || self.is_finalized_height(header.height) {
            return AcceptOutcome::Rejected;
        }
        if self.fc_v2_active(header.height) {
            return AcceptOutcome::Candidate(self.v2_record_block(header, operations, order, now));
        }
        self.offer_block(header, operations, order, now)
    }

    /// Counts an attestation after verifying its signature.
    pub fn accept_verified_attestation(
        &mut self,
        validator_id: &ValidatorId,
        height: u64,
        hash: &Digest,
        signature: &[u8; 64],
        order: &Vec<ValidatorId>,
        now: Now,
    ) -> (outcome: AttestOutcome)
        requires
            old(self).inv(),
        ensures
            final(self).inv(),
            if ed25519_accepts(
                validator_id@,
                attestation_payload(old(self)@.config.chain_id, height, *hash),
                signature@,
            ) {
                attested(
                    old(self)@,
                    old(self).store,
                    *validator_id,
                    height,
                    *hash,
                    order@,
                    now,
                    outcome,
                    final(self)@,
                    final(self).store,
                )
            } else {
                outcome is Ignored && final(self)@ == old(self)@ && final(self).store == old(
                    self,
                ).store
            },
    {
        let payload = Self::attestation_signing_payload(self.config.chain_id, height, hash);
        if !ed25519_verify(validator_id, payload.as_slice(), signature) {
            return AttestOutcome::Ignored;
        }
        self.accept_attestation(validator_id, height, hash, order, now)
    }

    /// Counts an attestation whose signature the caller has verified. `order` is
    /// the proposer order of its height.
    pub fn accept_attestation(
        &mut self,
        validator_id: &ValidatorId,
        height: u64,
        hash: &Digest,
        order: &Vec<ValidatorId>,
        now: Now,
    ) -> (outcome: AttestOutcome)
        requires
            old(self).inv(),
        ensures
            final(self).inv(),
            attested(
                old(self)@,
                old(self).store,
                *validator_id,
                height,
                *hash,
                order@,
                now,
                outcome,
                final(self)@,
                final(self).store,
            ),
    {
        if !self.validator_set.is_active_validator(validator_id) {
            return AttestOutcome::Ignored;
        }
        if self.fc_v2_active(height) {
            let tip = self.height();
            if height <= tip || height - tip > MAX_VOTE_LOOKAHEAD {
                return AttestOutcome::Ignored;
            }
            return match self.v2_record_vote(validator_id, height, hash, order) {
                Step::Idle => AttestOutcome::Recorded,
                step => AttestOutcome::Finalizing(step),
            };
        }
        self.attest_pending(validator_id, height, hash, now)
    }

    /// Counts an attestation where fork choice is not in force.
    fn attest_pending(
        &mut self,
        validator_id: &ValidatorId,
        height: u64,
        hash: &Digest,
        now: Now,
    ) -> (outcome: AttestOutcome)
        requires
            old(self).inv(),
        ensures
            final(self).inv(),
            attested_pending(
                old(self)@,
                old(self).store,
                *validator_id,
                height,
                *hash,
                now,
                outcome,
                final(self)@,
                final(self).store,
            ),
    {
        let ghost before = self@;
        let matches = match self.pending_blocks.get(height) {
            Some(pending) => same_hash(&block_hash(&pending.header), hash),
            None => {
                buffer_early(&mut self.early_attestations, validator_id, height, hash, now);
                assert(self@ =~= (State {
                    early_attestations: self@.early_attestations,
                    ..before
                }));
                return AttestOutcome::Ignored;
            },
        };
        if !matches {
            self.count_mismatch(height);
            return AttestOutcome::Ignored;
        }
        match self.add_attestation(validator_id, height, hash) {
            None => AttestOutcome::Ignored,
            Some(ids) => if self.validator_set.has_quorum(&ids) {
                AttestOutcome::Finalizing(self.finalize_pending_block(height))
            } else {
                AttestOutcome::Recorded
            },
        }
    }

    /// Notes that another block than the pending one at `height` was attested.
    fn count_mismatch(&mut self, height: u64)
        requires
            old(self).inv(),
            old(self)@.pending_blocks.contains_key(height),
        ensures
            final(self).inv(),
            final(self).store == old(self).store,
            final(self)@ == mismatch_counted(old(self)@, height),
    {
        let ghost before = self@;
        if let Some(pending) = self.pending_blocks.remove(height) {
            let mut pending = pending;
            pending.mismatch_count = pending.mismatch_count.saturating_add(1);
            self.pending_blocks.insert(height, pending);
        }
        assert(self@ =~= mismatch_counted(before, height));
    }

    /// Adds a validator's attestation of the pending block at `height`. Returns all who
    /// attested it, or nothing where the validator is among them already.
    fn add_attestation(&mut self, validator_id: &ValidatorId, height: u64, hash: &Digest) -> (ids:
        Option<Vec<ValidatorId>>)
        requires
            old(self).inv(),
            old(self)@.pending_blocks.contains_key(height),
            hash_of(old(self)@.pending_blocks[height].header) == *hash,
        ensures
            final(self).inv(),
            final(self).store == old(self).store,
            match ids {
                None => attesters(attestations_at(old(self)@, height)).contains(*validator_id)
                    && final(self)@ == old(self)@,
                Some(ids) => {
                    &&& !attesters(attestations_at(old(self)@, height)).contains(*validator_id)
                    &&& final(self)@ == with_attestation(old(self)@, *validator_id, height, *hash)
                    &&& ids@.to_set() == attesters(attestations_at(final(self)@, height))
                },
            },
    {
        let ghost before = self@;
        let mut list = match self.pending_attestations.remove(height) {
            Some(list) => list,
            None => Vec::new(),
        };
        assert(list@ =~= attestations_at(before, height));
        let known = attester_list(&list);
        if contains_id(&known, validator_id) {
            assert(list@.len() > 0);
            self.pending_attestations.insert(height, list);
            assert(self@ =~= before);
            return None;
        }
        list.push(
            Attestation { validator_id: *validator_id, block_height: height, block_hash: *hash },
        );
        let ids = attester_list(&list);
        self.pending_attestations.insert(height, list);
        assert(self@ =~= with_attestation(before, *validator_id, height, *hash));
        Some(ids)
    }
}

} // verus!
