//! Producing blocks.
use vstd::prelude::*;

use crate::accept::{attest_step, attested, AttestOutcome};
use crate::bytes::{copy_bytes, zero_hash, zero_hash_spec, Digest, ValidatorId};
use crate::codec::{
    account_key, account_key_of, attestation_record, block_hash, compute_receipts_root,
    compute_tx_root, hash_of, last_attestation_key_of, list_root,
};
use crate::crypto::{blake3_digest, ed25519_public_key, ed25519_signature};
use crate::engine::{
    signed_by_validator, tip_hash, tip_height, ConsensusEngine, Now, SealedBlock, SealedView,
    State, Step, Vote, EPOCH_LENGTH,
};
use crate::finality::{retained, Execution, ExecutionView};
use crate::fork_choice::reevaluated;
use crate::intents::{encodable, fulfill_call, fulfill_operation, Intent, Solution};
use crate::recovery::restored;
use crate::slashing::{slash_call, slash_operation, SlashingEvidence};
use crate::store::{lookup, StateStore};
use crate::table::Slot;
use crate::types::{
    copy_list, opt_view, views, views_of_empty, views_of_push, Attestation, BlockHeader, BlockView,
    FinalizedBlock, HeaderView, OperationView, PendingBlock, PendingView, ResultView, UserOperation,
};
use crate::validator::{count_active, is_active_in};

verus! {

/// The system contracts' addresses.
#[derive(Clone, Copy, Debug)]
pub struct SystemAddresses {
    pub staking: ValidatorId,
    pub intents: ValidatorId,
}

/// An intent with the solution to put into the block, if there is one.
#[derive(Debug)]
pub struct SolvedIntent {
    pub intent: Intent,
    pub solution: Option<Solution>,
}

/// The operation was not overtaken: its sender's account has not used its nonce.
pub open spec fn nonce_open(op: OperationView, account_nonce: Option<u64>) -> bool {
    account_nonce matches Some(n) ==> op.nonce >= n
}

/// The operations that were not overtaken, in order.
pub open spec fn open_operations(ops: Seq<OperationView>, nonces: Seq<Option<u64>>) -> Seq<
    OperationView,
>
    decreases ops.len(),
{
    if ops.len() == 0 {
        Seq::empty()
    } else {
        let rest = open_operations(ops.drop_last(), nonces);
        if nonce_open(ops.last(), nonces[ops.len() - 1]) {
            rest.push(ops.last())
        } else {
            rest
        }
    }
}

/// `nonce` is what `nonce_of` reads out of the account of `sender` in the store. A
/// sender without an account has none. A store that refuses to read counts as one
/// without the account.
pub open spec fn nonce_read<S: StateStore, F: Fn(&Vec<u8>) -> Option<u64>>(
    store: S,
    nonce_of: F,
    sender: ValidatorId,
    nonce: Option<u64>,
) -> bool {
    match lookup(store.contents(), account_key_of(sender)) {
        Some(data) => {
            ||| exists|account: Vec<u8>|
                account@ == data && #[trigger] nonce_of.ensures((&account,), nonce)
            ||| !store.usable() && nonce is None
        },
        None => nonce is None,
    }
}

/// `nonces` holds the nonce of the sender of each operation.
pub open spec fn nonces_read<S: StateStore, F: Fn(&Vec<u8>) -> Option<u64>>(
    store: S,
    nonce_of: F,
    ops: Seq<OperationView>,
    nonces: Seq<Option<u64>>,
) -> bool {
    &&& nonces.len() == ops.len()
    &&& forall|i: int|
        0 <= i < ops.len() ==> nonce_read(store, nonce_of, ops[i].sender, #[trigger] nonces[i])
}

/// The operations that fulfil the solved ones of `intents`, in order.
pub open spec fn intent_calls(address: ValidatorId, intents: Seq<SolvedIntent>) -> Seq<
    OperationView,
>
    decreases intents.len(),
{
    if intents.len() == 0 {
        Seq::empty()
    } else {
        let rest = intent_calls(address, intents.drop_last());
        match intents.last().solution {
            Some(solution) => rest.push(fulfill_call(address, intents.last().intent, solution)),
            None => rest,
        }
    }
}

/// The operations of the next block: the users' that were not overtaken, then the
/// penalties that wait, then the solved intents.
pub open spec fn block_operations(
    s: State,
    drained: Seq<OperationView>,
    nonces: Seq<Option<u64>>,
    intents: Seq<SolvedIntent>,
    addresses: SystemAddresses,
) -> Seq<OperationView> {
    open_operations(drained, nonces) + Seq::new(
        s.pending_slashing.len(),
        |i: int| slash_call(s.config.validator_id, addresses.staking, s.pending_slashing[i]),
    ) + intent_calls(addresses.intents, intents)
}

/// The timestamp of the next block: one block time after the tip's.
pub open spec fn next_timestamp(s: State) -> u64 {
    let parent = if s.chain.len() == 0 {
        0u64
    } else {
        s.chain.last().header.timestamp_ms
    };
    if parent + s.config.block_time_ms > u64::MAX {
        u64::MAX
    } else {
        (parent + s.config.block_time_ms) as u64
    }
}

/// The header of the next block, unsigned. It depends on the tip, the operations
/// and what executing them gave, and on no clock.
pub open spec fn next_header(
    s: State,
    operations: Seq<OperationView>,
    result: ResultView,
    operations_json: Option<Seq<u8>>,
    receipts_json: Option<Seq<u8>>,
) -> HeaderView {
    let height = (tip_height(s) + 1) as u64;
    HeaderView {
        height,
        epoch: height / EPOCH_LENGTH,
        parent_hash: tip_hash(s),
        state_root: result.state_root,
        transactions_root: list_root(operations.len() as u64, operations_json),
        receipts_root: list_root(result.receipts.len() as u64, receipts_json),
        proposer: s.config.validator_id,
        timestamp_ms: next_timestamp(s),
        proposer_signature: Seq::empty(),
    }
}

/// The header with this node's signature, if it has a key.
pub open spec fn signed_header(s: State, header: HeaderView) -> HeaderView {
    match s.signing_keypair {
        Some(key) => HeaderView {
            proposer_signature: ed25519_signature(key.seed@, hash_of(header)@)@,
            ..header
        },
        None => header,
    }
}

/// Producing a height again gives the same block hash, whatever the time: nodes
/// that agree on the tip, on who proposes and on what goes into the block build
/// the same block.
pub proof fn production_idempotent(
    s: State,
    t: State,
    operations: Seq<OperationView>,
    result: ResultView,
    operations_json: Option<Seq<u8>>,
    receipts_json: Option<Seq<u8>>,
)
    requires
        s.chain == t.chain,
        s.config.validator_id == t.config.validator_id,
        s.config.block_time_ms == t.config.block_time_ms,
    ensures
        hash_of(
            signed_header(
                s,
                next_header(s, operations, result, operations_json, receipts_json),
            ),
        ) == hash_of(
            signed_header(
                t,
                next_header(t, operations, result, operations_json, receipts_json),
            ),
        ),
{
    let header = next_header(s, operations, result, operations_json, receipts_json);
    assert(header == next_header(t, operations, result, operations_json, receipts_json));
    crate::codec::hash_ignores_signature(header, signed_header(s, header).proposer_signature);
    crate::codec::hash_ignores_signature(header, signed_header(t, header).proposer_signature);
}

/// Producing a block leaves the chain and the settings as they are: the block joins
/// the chain only where it is committed.
pub proof fn producing_keeps_chain<S: StateStore>(
    s: State,
    store: S,
    header: HeaderView,
    operations: Seq<OperationView>,
    execution: ExecutionView,
    order: Seq<ValidatorId>,
    now: Now,
    step: ProduceStep,
    after: State,
    new_store: S,
)
    requires
        published(s, store, header, operations, execution, order, now, step, after, new_store),
    ensures
        after.chain == s.chain,
        after.config == s.config,
{
}

/// Proposing a height again gives the same block: where a node produced a block,
/// nothing was finalized since, and it produces once more from the same operations
/// with the same outcome, the second block has the hash of the first, whatever came
/// in between and whatever the clocks say.
pub proof fn reproposal_keeps_hash<S: StateStore>(
    s: State,
    store: S,
    operations: Seq<OperationView>,
    execution: ExecutionView,
    operations_json: Option<Seq<u8>>,
    receipts_json: Option<Seq<u8>>,
    order: Seq<ValidatorId>,
    now: Now,
    first: HeaderView,
    step: ProduceStep,
    after: State,
    new_store: S,
    t: State,
    second: HeaderView,
)
    requires
        published(s, store, first, operations, execution, order, now, step, after, new_store),
        first == signed_header(
            s,
            next_header(s, operations, execution.result, operations_json, receipts_json),
        ),
        t.chain == after.chain,
        t.config == after.config,
        second == signed_header(
            t,
            next_header(t, operations, execution.result, operations_json, receipts_json),
        ),
    ensures
        second.height == first.height,
        hash_of(second) == hash_of(first),
{
    producing_keeps_chain(
        s,
        store,
        first,
        operations,
        execution,
        order,
        now,
        step,
        after,
        new_store,
    );
    production_idempotent(s, t, operations, execution.result, operations_json, receipts_json);
}

/// The timestamp of a produced block is later than its parent's.
pub proof fn produced_timestamp_increases(s: State)
    requires
        s.chain.len() > 0,
        s.config.block_time_ms > 0,
        s.chain.last().header.timestamp_ms < u64::MAX,
    ensures
        next_timestamp(s) > s.chain.last().header.timestamp_ms,
{
}

/// A block that this node produced and ran.
pub open spec fn own_pending(
    header: HeaderView,
    operations: Seq<OperationView>,
    execution: ExecutionView,
    now: Now,
) -> PendingView {
    PendingView {
        header,
        operations,
        proposed_at_ms: now.mono_ms,
        already_executed: true,
        result: Some(execution.result),
        revert: Some(execution.revert),
        mismatch_count: 0,
    }
}

/// This node's attestation of its own block.
pub open spec fn own_attestation(s: State, header: HeaderView) -> Attestation {
    Attestation {
        validator_id: s.config.validator_id,
        block_height: header.height,
        block_hash: hash_of(header),
    }
}

/// The store with the last attested block recorded.
pub open spec fn attestation_persisted<S: StateStore>(store: S, header: HeaderView, after: S) -> bool {
    &&& after.root() == store.root()
    &&& store.usable() ==> after.usable() && after.contents() == store.contents().insert(
        last_attestation_key_of(),
        attestation_record(header.height, hash_of(header)),
    )
}

/// The state with this node's block among the candidates, and its vote for it.
pub open spec fn candidate_proposed(s: State, pending: PendingView) -> State {
    let hash = hash_of(pending.header);
    let height = pending.header.height;
    State {
        v2_blocks: s.v2_blocks.insert(Slot { height, id: hash }, pending),
        v2_votes: s.v2_votes.insert(Slot { height, id: s.config.validator_id }, hash),
        v2_revotes: s.v2_revotes.push((height, hash)),
        ..s
    }
}

/// The state with this node's block pending. Attestations of another block do not
/// stay; those of this very block, proposed before, do.
pub open spec fn pending_proposed(s: State, pending: PendingView) -> State {
    let height = pending.header.height;
    State {
        pending_blocks: s.pending_blocks.insert(height, pending),
        pending_attestations: retained(s, height, hash_of(pending.header)),
        ..s
    }
}

/// What comes of producing a block.
#[derive(Debug)]
pub enum ProduceStep {
    /// This node is the only active validator: the block is final.
    Alone(SealedBlock),
    /// The block is proposed to the other validators.
    Proposed(Step),
}

/// What producing a block with the header `header` does.
pub open spec fn published<S: StateStore>(
    s: State,
    store: S,
    header: HeaderView,
    operations: Seq<OperationView>,
    execution: ExecutionView,
    order: Seq<ValidatorId>,
    now: Now,
    step: ProduceStep,
    after: State,
    new_store: S,
) -> bool {
    if count_active(s.validators) <= 1 {
        &&& after == s
        &&& new_store == store
        &&& step matches ProduceStep::Alone(sealed)
        &&& sealed@ == (SealedView {
            block: BlockView {
                header,
                result: execution.result,
                attestations: seq![own_attestation(s, header)],
                operations,
            },
            revert: execution.revert,
            fork_choice: false,
        })
    } else {
        &&& step matches ProduceStep::Proposed(next)
        &&& exists|mid: S| #[trigger]
            attestation_persisted(store, header, mid) && if header.height
                >= s.config.fork_choice_v2_height {
                reevaluated(
                    candidate_proposed(s, own_pending(header, operations, execution, now)),
                    mid,
                    order,
                    header.height,
                    after,
                    new_store,
                    next@,
                )
            } else {
                exists|outcome: AttestOutcome| #[trigger]
                    attested(
                        pending_proposed(s, own_pending(header, operations, execution, now)),
                        mid,
                        s.config.validator_id,
                        header.height,
                        hash_of(header),
                        order,
                        now,
                        outcome,
                        after,
                        new_store,
                    ) && next@ == attest_step(outcome)
            }
    }
}

/// A produced block.
#[derive(Debug)]
pub struct ProducedBlock {
    /// The block, where it is final at once.
    pub finalized: Option<FinalizedBlock>,
    pub header: BlockHeader,
    /// The operations, to be sent to the other validators.
    pub operations: Vec<UserOperation>,
}

/// A produced block and what the node has to do next.
#[derive(Debug)]
pub struct Production {
    pub produced: ProducedBlock,
    pub step: ProduceStep,
}

impl<S: StateStore> ConsensusEngine<S> {
    /// The encoded account of `id`, for the node to read its nonce.
    pub fn stored_account(&self, id: &ValidatorId) -> (account: Option<Vec<u8>>)
        ensures
            self.store.usable() || account is Some ==> opt_view(account) == lookup(
                self.store.contents(),
                account_key_of(*id),
            ),
    {
        let key = account_key(id);
        match self.store.get(key.as_slice()) {
            Ok(account) => account,
            Err(_) => None,
        }
    }

    /// Assembles the operations of the next block. `drained` came from the
    /// mempool, and `nonces` holds the nonce of each one's sender where its
    /// account could be read.
    pub fn assemble_operations(
        &mut self,
        drained: Vec<UserOperation>,
        nonces: &Vec<Option<u64>>,
        intents: &Vec<SolvedIntent>,
        addresses: &SystemAddresses,
    ) -> (operations: Vec<UserOperation>)
        requires
            old(self).inv(),
            nonces@.len() == drained@.len(),
            forall|i: int|
                0 <= i < intents@.len() ==> ((#[trigger] intents@[i]).solution matches Some(solution)
                    ==> encodable(intents@[i].intent, solution)),
        ensures
            final(self).inv(),
            final(self).store == old(self).store,
            final(self)@ == (State { pending_slashing: Seq::empty(), ..old(self)@ }),
            views(operations@) == block_operations(
                old(self)@,
                views(drained@),
                nonces@,
                intents@,
                *addresses,
            ),
    {
        broadcast use {views_of_push, views_of_empty};

        let ghost before = self@;
        let ghost given = views(drained@);
        let mut operations: Vec<UserOperation> = Vec::new();
        let mut i: usize = 0;
        assert(given.take(0).len() == 0);
        while i < drained.len()
            invariant
                i <= drained@.len(),
                nonces@.len() == drained@.len(),
                given == views(drained@),
                views(operations@) == open_operations(given.take(i as int), nonces@),
            decreases drained@.len() - i,
        {
            proof {
                let next = given.take(i + 1);
                assert(next.drop_last() =~= given.take(i as int));
                assert(next.last() == drained@[i as int]@);
            }
            let open = match nonces[i] {
                Some(nonce) => drained[i].nonce >= nonce,
                None => true,
            };
            if open {
                operations.push(drained[i].clone());
            }
            i += 1;
        }
        assert(given.take(i as int) =~= given);
        let ghost first = views(operations@);
        let ghost penalties = Seq::new(
            before.pending_slashing.len(),
            |k: int|
                slash_call(before.config.validator_id, addresses.staking, before.pending_slashing[k]),
        );
        let mut j: usize = 0;
        assert(first + penalties.take(0) =~= first);
        while j < self.pending_slashing.len()
            invariant
                j <= self.pending_slashing@.len(),
                self.inv(),
                self@ == before,
                self.store == old(self).store,
                penalties == Seq::new(
                    before.pending_slashing.len(),
                    |k: int|
                        slash_call(
                            before.config.validator_id,
                            addresses.staking,
                            before.pending_slashing[k],
                        ),
                ),
                views(operations@) == first + penalties.take(j as int),
            decreases self.pending_slashing@.len() - j,
        {
            let op = slash_operation(
                self.config.validator_id,
                addresses.staking,
                &self.pending_slashing[j],
            );
            operations.push(op);
            j += 1;
            assert(first + penalties.take(j as int) =~= (first + penalties.take(j - 1)).push(
                penalties[j - 1],
            ));
        }
        assert(penalties.take(j as int) =~= penalties);
        self.pending_slashing.clear();
        let ghost second = views(operations@);
        let mut k: usize = 0;
        assert(intents@.take(0).len() == 0);
        assert(second + intent_calls(addresses.intents, intents@.take(0)) =~= second);
        while k < intents.len()
            invariant
                k <= intents@.len(),
                forall|i: int|
                    0 <= i < intents@.len() ==> ((#[trigger] intents@[i]).solution matches Some(
                        solution,
                    ) ==> encodable(intents@[i].intent, solution)),
                views(operations@) == second + intent_calls(
                    addresses.intents,
                    intents@.take(k as int),
                ),
            decreases intents@.len() - k,
        {
            let ghost calls = intent_calls(addresses.intents, intents@.take(k as int));
            proof {
                let next = intents@.take(k + 1);
                assert(next.drop_last() =~= intents@.take(k as int));
                assert(next.last() == intents@[k as int]);
            }
            match &intents[k].solution {
                Some(solution) => {
                    let op = fulfill_operation(addresses.intents, &intents[k].intent, solution);
                    proof {
                        assert((second + calls).push(op@) =~= second + calls.push(op@));
                    }
                    operations.push(op);
                },
                None => {},
            }
            k += 1;
        }
        assert(intents@.take(k as int) =~= intents@);
        assert(self@ =~= (State { pending_slashing: Seq::empty(), ..before }));
        operations
    }

    /// Gets everything ready for the next block: takes the store back to the finalized
    /// tip, so that what a superseded block did to it goes, and assembles the
    /// operations to execute on it. `nonce_of` reads the nonce out of an encoded
    /// account.
    pub fn prepare_block<F: Fn(&Vec<u8>) -> Option<u64>>(
        &mut self,
        drained: Vec<UserOperation>,
        nonce_of: F,
        intents: &Vec<SolvedIntent>,
        addresses: &SystemAddresses,
    ) -> (operations: Vec<UserOperation>)
        requires
            old(self).inv(),
            forall|account: Vec<u8>| #[trigger] nonce_of.requires((&account,)),
            forall|i: int|
                0 <= i < intents@.len() ==> ((#[trigger] intents@[i]).solution matches Some(solution)
                    ==> encodable(intents@[i].intent, solution)),
        ensures
            final(self).inv(),
            final(self)@.pending_slashing == Seq::<SlashingEvidence>::empty(),
            restored(
                old(self)@,
                old(self).store,
                State { pending_slashing: old(self)@.pending_slashing, ..final(self)@ },
                final(self).store,
            ),
            exists|nonces: Seq<Option<u64>>|
                #![trigger nonces_read(final(self).store, nonce_of, views(drained@), nonces)]
                nonces_read(final(self).store, nonce_of, views(drained@), nonces) && views(
                    operations@,
                ) == block_operations(old(self)@, views(drained@), nonces, intents@, *addresses),
    {
        let ghost before = self@;
        self.restore_store_to_finalized_tip();
        let ghost clean = self@;
        let ghost given = views(drained@);
        let mut nonces: Vec<Option<u64>> = Vec::new();
        let mut i: usize = 0;
        while i < drained.len()
            invariant
                i <= drained@.len(),
                given == views(drained@),
                nonces@.len() == i,
                self.inv(),
                self@ == clean,
                forall|account: Vec<u8>| #[trigger] nonce_of.requires((&account,)),
                forall|k: int|
                    0 <= k < i ==> nonce_read(
                        self.store,
                        nonce_of,
                        given[k].sender,
                        #[trigger] nonces@[k],
                    ),
            decreases drained@.len() - i,
        {
            assert(given[i as int] == drained@[i as int]@);
            let nonce = match self.stored_account(&drained[i].sender) {
                Some(account) => nonce_of(&account),
                None => None,
            };
            nonces.push(nonce);
            i += 1;
        }
        let operations = self.assemble_operations(drained, &nonces, intents, addresses);
        assert(nonces_read(self.store, nonce_of, given, nonces@));
        assert(clean =~= (State { pending_slashing: before.pending_slashing, ..self@ }));
        operations
    }

    /// Builds and signs the header of the next block.
    fn build_header(
        &self,
        operations: &Vec<UserOperation>,
        execution: &Execution,
        operations_json: &Option<Vec<u8>>,
        receipts_json: &Option<Vec<u8>>,
    ) -> (header: BlockHeader)
        requires
            tip_height(self@) < u64::MAX,
        ensures
            header@ == signed_header(
                self@,
                next_header(
                    self@,
                    views(operations@),
                    execution@.result,
                    opt_view(*operations_json),
                    opt_view(*receipts_json),
                ),
            ),
            operations@.len() > 0 ==> (*operations_json matches Some(data)
                ==> header.transactions_root == blake3_digest(data@)),
            operations@.len() == 0 ==> header.transactions_root
                == zero_hash_spec(),
            execution.result.receipts@.len() > 0 ==> (*receipts_json matches Some(data)
                ==> header.receipts_root == blake3_digest(data@)),
            execution.result.receipts@.len() == 0 ==> header.receipts_root
                == zero_hash_spec(),
            header.state_root == execution.result.state_root,
            header.proposer == self@.config.validator_id,
            header.height == if self@.chain.len() == 0 {
                1
            } else {
                self@.chain.last().header.height + 1
            },
            header.parent_hash == if self@.chain.len() == 0 {
                zero_hash_spec()
            } else {
                hash_of(self@.chain.last().header)
            },
            self@.signing_keypair matches Some(key) && ed25519_public_key(key.seed@)
                == self@.config.validator_id && is_active_in(
                self@.validators,
                self@.config.validator_id,
            ) ==> signed_by_validator(self@.validators, header@),
    {
        let n = self.chain.len();
        let (parent_hash, parent_ms) = if n == 0 {
            (zero_hash(), 0)
        } else {
            assert(self@.chain.last() == self.chain@[n - 1]@);
            let last = &self.chain[n - 1].header;
            (block_hash(last), last.timestamp_ms)
        };
        let height = self.height() + 1;
        let mut header = BlockHeader {
            height,
            epoch: height / EPOCH_LENGTH,
            parent_hash,
            state_root: execution.result.state_root,
            transactions_root: compute_tx_root(operations.len(), operations_json),
            receipts_root: compute_receipts_root(execution.result.receipts.len(), receipts_json),
            proposer: self.config.validator_id,
            timestamp_ms: parent_ms.saturating_add(self.config.block_time_ms),
            proposer_signature: Vec::new(),
        };
        let ghost bare = header@;
        assert(bare =~= next_header(
            self@,
            views(operations@),
            execution@.result,
            opt_view(*operations_json),
            opt_view(*receipts_json),
        ));
        match &self.signing_keypair {
            Some(key) => {
                let hash = block_hash(&header);
                let signature = key.sign(&hash);
                header.proposer_signature = copy_bytes(&signature);
                proof {
                    crate::codec::hash_ignores_signature(bare, header@.proposer_signature);
                    assert(header@ =~= signed_header(self@, bare));
                }
            },
            None => {},
        }
        header
    }

    /// Produces the next block, after the node has executed `operations` on the
    /// restored store. `operations_json` and `receipts_json` are the encodings
    /// whose hashes go into the header, and `order` is the proposer order of the
    /// block's height.
    pub fn produce_block(
        &mut self,
        operations: Vec<UserOperation>,
        execution: Execution,
        operations_json: &Option<Vec<u8>>,
        receipts_json: &Option<Vec<u8>>,
        order: &Vec<ValidatorId>,
        now: Now,
    ) -> (production: Production)
        requires
            old(self).inv(),
            tip_height(old(self)@) < u64::MAX,
        ensures
            final(self).inv(),
            views(production.produced.operations@) == views(operations@),
            production.produced.header@ == signed_header(
                old(self)@,
                next_header(
                    old(self)@,
                    views(operations@),
                    execution@.result,
                    opt_view(*operations_json),
                    opt_view(*receipts_json),
                ),
            ),
            operations@.len() > 0 ==> (*operations_json matches Some(data)
                ==> production.produced.header.transactions_root == blake3_digest(data@)),
            operations@.len() == 0 ==> production.produced.header.transactions_root
                == zero_hash_spec(),
            execution.result.receipts@.len() > 0 ==> (*receipts_json matches Some(data)
                ==> production.produced.header.receipts_root == blake3_digest(data@)),
            execution.result.receipts@.len() == 0 ==> production.produced.header.receipts_root
                == zero_hash_spec(),
            production.produced.header.state_root == execution.result.state_root,
            production.produced.header.proposer == old(self)@.config.validator_id,
            production.produced.header.height == if old(self)@.chain.len() == 0 {
                1
            } else {
                old(self)@.chain.last().header.height + 1
            },
            production.produced.header.parent_hash == if old(self)@.chain.len() == 0 {
                zero_hash_spec()
            } else {
                hash_of(old(self)@.chain.last().header)
            },
            opt_view(production.produced.finalized) == (match production.step {
                ProduceStep::Alone(sealed) => Some(sealed@.block),
                ProduceStep::Proposed(_) => None,
            }),
            old(self)@.signing_keypair matches Some(key) && ed25519_public_key(key.seed@) == old(
                self,
            )@.config.validator_id && is_active_in(
                old(self)@.validators,
                old(self)@.config.validator_id,
            ) ==> signed_by_validator(old(self)@.validators, production.produced.header@),
            published(
                old(self)@,
                old(self).store,
                production.produced.header@,
                views(operations@),
                execution@,
                order@,
                now,
                production.step,
                final(self)@,
                final(self).store,
            ),
    {
        broadcast use {views_of_push, views_of_empty};

        let ghost before = self@;
        let ghost ran = execution@;
        let header = self.build_header(&operations, &execution, operations_json, receipts_json);
        let hash = block_hash(&header);
        let height = header.height;
        if self.validator_set.active_count() <= 1 {
            let mut attestations: Vec<Attestation> = Vec::new();
            attestations.push(
                Attestation {
                    validator_id: self.config.validator_id,
                    block_height: height,
                    block_hash: hash,
                },
            );
            assert(attestations@ =~= seq![own_attestation(before, header@)]);
            let block = FinalizedBlock {
                header: header.clone(),
                result: execution.result,
                attestations,
                operations: copy_list(&operations),
            };
            let produced = ProducedBlock { finalized: Some(block.clone()), header, operations };
            let sealed = SealedBlock { block, revert: execution.revert, fork_choice: false };
            return Production { produced, step: ProduceStep::Alone(sealed) };
        }
        let pending = PendingBlock {
            header: header.clone(),
            operations: copy_list(&operations),
            proposed_at_ms: now.mono_ms,
            already_executed: true,
            result: Some(execution.result),
            revert: Some(execution.revert),
            mismatch_count: 0,
        };
        assert(pending@ == own_pending(header@, views(operations@), ran, now));
        let step = if self.fc_v2_active(height) {
            self.propose_candidate(pending, &hash, order)
        } else {
            self.propose_pending(pending, &hash, order, now)
        };
        let produced = ProducedBlock { finalized: None, header, operations };
        Production { produced, step: ProduceStep::Proposed(step) }
    }

    /// Puts this node's block among the candidates, votes for it and lets fork choice
    /// go on.
    fn propose_candidate(
        &mut self,
        pending: PendingBlock,
        hash: &Digest,
        order: &Vec<ValidatorId>,
    ) -> (step: Step)
        requires
            old(self).inv(),
            hash_of(pending@.header) == *hash,
        ensures
            final(self).inv(),
            exists|mid: S| #[trigger]
                attestation_persisted(old(self).store, pending@.header, mid) && reevaluated(
                    candidate_proposed(old(self)@, pending@),
                    mid,
                    order@,
                    pending@.header.height,
                    final(self)@,
                    final(self).store,
                    step@,
                ),
    {
        let ghost before = self@;
        let ghost store0 = self.store;
        let ghost shown = pending@;
        let own = self.config.validator_id;
        let height = pending.header.height;
        self.v2_blocks.insert(Slot { height, id: *hash }, pending);
        self.persist_last_attestation(height, hash);
        self.v2_votes.insert(Slot { height, id: own }, Vote { hash: *hash });
        self.v2_revotes.push((height, *hash));
        let ghost mid = self.store;
        assert(attestation_persisted(store0, shown.header, mid));
        assert(self@ =~= candidate_proposed(before, shown));
        self.v2_reevaluate(height, order)
    }

    /// Makes this node's block the pending one and attests it.
    fn propose_pending(
        &mut self,
        pending: PendingBlock,
        hash: &Digest,
        order: &Vec<ValidatorId>,
        now: Now,
    ) -> (step: Step)
        requires
            old(self).inv(),
            hash_of(pending@.header) == *hash,
        ensures
            final(self).inv(),
            exists|mid: S| #[trigger]
                attestation_persisted(old(self).store, pending@.header, mid) && exists|
                    outcome: AttestOutcome,
                | #[trigger]
                    attested(
                        pending_proposed(old(self)@, pending@),
                        mid,
                        old(self)@.config.validator_id,
                        pending@.header.height,
                        *hash,
                        order@,
                        now,
                        outcome,
                        final(self)@,
                        final(self).store,
                    ) && step@ == attest_step(outcome),
    {
        let ghost before = self@;
        let ghost store0 = self.store;
        let ghost shown = pending@;
        let own = self.config.validator_id;
        let height = pending.header.height;
        self.make_room(height, hash);
        self.pending_blocks.insert(height, pending);
        self.persist_last_attestation(height, hash);
        let ghost mid = self.store;
        assert(attestation_persisted(store0, shown.header, mid));
        assert(self@ =~= pending_proposed(before, shown));
        let outcome = self.accept_attestation(&own, height, hash, order, now);
        let ghost told = outcome;
        let step = match outcome {
            AttestOutcome::Finalizing(step) => step,
            _ => Step::Idle,
        };
        assert(step@ == attest_step(told));
        step
    }
}

} // verus!
