//! Checkpoints: blocks that the chain may no longer disagree with.
use vstd::prelude::*;

use crate::bytes::{same_hash, Digest, ValidatorId};
use crate::types::{opt_view, views};
use crate::validator::{is_active_in, quorum, ValidatorInfo, ValidatorSet};

verus! {

/// The networks that have trusted checkpoints of their own.
#[derive(Clone, Copy, Debug, PartialEq, Eq, Structural)]
pub enum Network {
    Mainnet,
    Testnet,
    Devnet,
}

/// The network that a chain belongs to: one number is the main network's, two are
/// the test network's, and every other is a development network's.
pub open spec fn chain_network(chain_id: u64) -> Network {
    if chain_id == 1 {
        Network::Mainnet
    } else if chain_id == 9000 || chain_id == 9001 {
        Network::Testnet
    } else {
        Network::Devnet
    }
}

/// The network whose trusted checkpoints a chain goes by.
pub fn network_of(chain_id: u64) -> (network: Network)
    ensures
        network == chain_network(chain_id),
{
    match chain_id {
        1 => Network::Mainnet,
        9000 | 9001 => Network::Testnet,
        _ => Network::Devnet,
    }
}

/// A block that the node trusts by configuration.
#[derive(Clone, Copy, Debug)]
pub struct TrustedCheckpoint {
    pub height: u64,
    pub block_hash: Digest,
}

/// A block at `height` with the hash `hash` disagrees with a trusted one.
pub open spec fn violates_trusted(
    trusted: Seq<TrustedCheckpoint>,
    height: u64,
    hash: Digest,
) -> bool {
    exists|i: int|
        0 <= i < trusted.len() && (#[trigger] trusted[i]).height == height && trusted[i].block_hash
            != hash
}

/// The blocks that the node trusts by configuration.
#[derive(Debug)]
pub struct TrustedCheckpoints {
    pub list: Vec<TrustedCheckpoint>,
}

impl TrustedCheckpoints {
    /// The hash that is trusted at `height`, where a block with the hash `hash`
    /// disagrees with it.
    pub fn validate(&self, height: u64, hash: &Digest) -> (expected: Option<Digest>)
        ensures
            expected is Some <==> violates_trusted(self.list@, height, *hash),
            expected matches Some(e) ==> e != *hash && exists|i: int|
                0 <= i < self.list@.len() && (#[trigger] self.list@[i]).height == height
                    && self.list@[i].block_hash == e,
    {
        let mut i: usize = 0;
        while i < self.list.len()
            invariant
                i <= self.list@.len(),
                forall|j: int|
                    0 <= j < i ==> !((#[trigger] self.list@[j]).height == height
                        && self.list@[j].block_hash != *hash),
            decreases self.list@.len() - i,
        {
            if self.list[i].height == height && !same_hash(&self.list[i].block_hash, hash) {
                return Some(self.list[i].block_hash);
            }
            i += 1;
        }
        None
    }
}

/// A validator's signature under a checkpoint.
#[derive(Debug)]
pub struct CheckpointAttestation {
    pub validator_id: ValidatorId,
    pub signature: Vec<u8>,
}

impl View for CheckpointAttestation {
    type V = (ValidatorId, Seq<u8>);

    open spec fn view(&self) -> (ValidatorId, Seq<u8>) {
        (self.validator_id, self.signature@)
    }
}

/// A block at an epoch boundary, with the validators that signed it.
#[derive(Debug)]
pub struct FinalizedCheckpoint {
    pub height: u64,
    pub epoch: u64,
    pub block_hash: Digest,
    pub state_root: Digest,
    pub attestations: Vec<CheckpointAttestation>,
}

#[verifier::ext_equal]
pub struct CheckpointView {
    pub height: u64,
    pub epoch: u64,
    pub block_hash: Digest,
    pub state_root: Digest,
    pub attestations: Seq<(ValidatorId, Seq<u8>)>,
}

impl View for FinalizedCheckpoint {
    type V = CheckpointView;

    open spec fn view(&self) -> CheckpointView {
        CheckpointView {
            height: self.height,
            epoch: self.epoch,
            block_hash: self.block_hash,
            state_root: self.state_root,
            attestations: views(self.attestations@),
        }
    }
}

/// The checkpoint that gathers signatures, and the last one that had enough.
#[derive(Debug)]
pub struct FinalizedCheckpointStore {
    pub pending: Option<FinalizedCheckpoint>,
    pub latest: Option<FinalizedCheckpoint>,
}

#[verifier::ext_equal]
pub struct CheckpointsView {
    pub pending: Option<CheckpointView>,
    pub latest: Option<CheckpointView>,
}

impl View for FinalizedCheckpointStore {
    type V = CheckpointsView;

    open spec fn view(&self) -> CheckpointsView {
        CheckpointsView { pending: opt_view(self.pending), latest: opt_view(self.latest) }
    }
}

/// No checkpoint is known.
pub open spec fn no_checkpoints() -> CheckpointsView {
    CheckpointsView { pending: None, latest: None }
}

/// A checkpoint that nobody signed yet.
pub open spec fn proposed_checkpoint(
    height: u64,
    epoch: u64,
    block_hash: Digest,
    state_root: Digest,
) -> CheckpointView {
    CheckpointView { height, epoch, block_hash, state_root, attestations: Seq::empty() }
}

/// The validators that signed a checkpoint.
pub open spec fn signers(attestations: Seq<(ValidatorId, Seq<u8>)>) -> Set<ValidatorId> {
    Set::new(
        |id: ValidatorId|
            exists|i: int| 0 <= i < attestations.len() && (#[trigger] attestations[i]).0 == id,
    )
}

/// What a signature of `id` makes of the checkpoints, and whether it completes a
/// quorum. Signatures count only from active validators, once each, and only
/// while a checkpoint is pending.
pub open spec fn checkpoint_attested(
    checkpoints: CheckpointsView,
    validators: Seq<ValidatorInfo>,
    id: ValidatorId,
    signature: Seq<u8>,
) -> (CheckpointsView, bool) {
    match checkpoints.pending {
        None => (checkpoints, false),
        Some(p) => if !is_active_in(validators, id) || signers(p.attestations).contains(id) {
            (checkpoints, false)
        } else {
            let signed = CheckpointView {
                attestations: p.attestations.push((id, signature)),
                ..p
            };
            if quorum(validators, signers(signed.attestations)) {
                (CheckpointsView { pending: None, latest: Some(signed) }, true)
            } else {
                (CheckpointsView { pending: Some(signed), ..checkpoints }, false)
            }
        },
    }
}

/// The block of the latest checkpoint, where a block at `height` with the hash
/// `hash` disagrees with it.
pub open spec fn checkpoint_conflict(
    checkpoints: CheckpointsView,
    height: u64,
    hash: Digest,
) -> Option<Digest> {
    match checkpoints.latest {
        Some(c) => if c.height == height && c.block_hash != hash {
            Some(c.block_hash)
        } else {
            None
        },
        None => None,
    }
}

/// A checkpoint is finalized only when validators with more than two thirds of the
/// active stake signed it, and it keeps the block that was proposed.
pub proof fn finalized_checkpoint_has_quorum(
    checkpoints: CheckpointsView,
    validators: Seq<ValidatorInfo>,
    id: ValidatorId,
    signature: Seq<u8>,
)
    ensures
        ({
            let (after, finalized) = checkpoint_attested(checkpoints, validators, id, signature);
            finalized ==> {
                &&& checkpoints.pending matches Some(p)
                &&& after.latest matches Some(c)
                &&& quorum(validators, signers(c.attestations))
                &&& c.height == p.height
                &&& c.block_hash == p.block_hash
                &&& c.state_root == p.state_root
            }
        }),
        ({
            let (after, finalized) = checkpoint_attested(checkpoints, validators, id, signature);
            !finalized ==> after.latest == checkpoints.latest
        }),
{
}

impl FinalizedCheckpointStore {
    /// A store without checkpoints.
    pub fn new() -> (store: Self)
        ensures
            store@ == no_checkpoints(),
    {
        FinalizedCheckpointStore { pending: None, latest: None }
    }

    /// Makes a block the checkpoint that gathers signatures.
    pub fn propose_checkpoint(
        &mut self,
        height: u64,
        epoch: u64,
        block_hash: Digest,
        state_root: Digest,
    )
        ensures
            final(self)@ == (CheckpointsView {
                pending: Some(proposed_checkpoint(height, epoch, block_hash, state_root)),
                ..old(self)@
            }),
    {
        let proposed = FinalizedCheckpoint {
            height,
            epoch,
            block_hash,
            state_root,
            attestations: Vec::new(),
        };
        assert(proposed@ =~= proposed_checkpoint(height, epoch, block_hash, state_root));
        self.pending = Some(proposed);
    }

    /// Adds a validator's signature; true where it completes a quorum.
    pub fn add_attestation(
        &mut self,
        validator_id: ValidatorId,
        signature: Vec<u8>,
        validators: &ValidatorSet,
    ) -> (finalized: bool)
        requires
            validators.wf(),
        ensures
            (final(self)@, finalized) == checkpoint_attested(
                old(self)@,
                validators@,
                validator_id,
                signature@,
            ),
    {
        let ghost before = self@;
        let mut pending = match self.pending.take() {
            Some(p) => p,
            None => {
                return false;
            },
        };
        let ghost asked = pending@;
        let mut ids: Vec<ValidatorId> = Vec::new();
        let mut i: usize = 0;
        let mut known = false;
        while i < pending.attestations.len()
            invariant
                i <= pending.attestations@.len(),
                asked == pending@,
                ids@.len() == i,
                forall|j: int| 0 <= j < i ==> ids@[j] == (#[trigger] asked.attestations[j]).0,
                known == exists|j: int|
                    0 <= j < i && (#[trigger] asked.attestations[j]).0 == validator_id,
            decreases pending.attestations@.len() - i,
        {
            let id = pending.attestations[i].validator_id;
            assert(asked.attestations[i as int].0 == id);
            if same_hash(&id, &validator_id) {
                known = true;
            }
            ids.push(id);
            i += 1;
        }
        assert(known == signers(asked.attestations).contains(validator_id));
        if known || !validators.is_active_validator(&validator_id) {
            self.pending = Some(pending);
            assert(self@ =~= before);
            return false;
        }
        ids.push(validator_id);
        pending.attestations.push(CheckpointAttestation { validator_id, signature });
        let ghost signed = pending@;
        proof {
            let list = signed.attestations;
            assert(list =~= asked.attestations.push((validator_id, signature@)));
            assert forall|id: ValidatorId| ids@.to_set().contains(id) <==> signers(list).contains(
                id,
            ) by {
                if ids@.contains(id) {
                    let j = choose|j: int| 0 <= j < ids@.len() && ids@[j] == id;
                    assert(list[j].0 == id);
                }
                if signers(list).contains(id) {
                    let j = choose|j: int| 0 <= j < list.len() && (#[trigger] list[j]).0 == id;
                    assert(ids@[j] == id);
                }
            }
            assert(ids@.to_set() =~= signers(list));
        }
        if validators.has_quorum(&ids) {
            self.latest = Some(pending);
            true
        } else {
            self.pending = Some(pending);
            false
        }
    }

    /// The block of the latest checkpoint, where a block at `height` with the hash
    /// `hash` disagrees with it.
    pub fn validate_block(&self, height: u64, hash: &Digest) -> (expected: Option<Digest>)
        ensures
            expected == checkpoint_conflict(self@, height, *hash),
    {
        match &self.latest {
            Some(c) => if c.height == height && !same_hash(&c.block_hash, hash) {
                Some(c.block_hash)
            } else {
                None
            },
            None => None,
        }
    }
}

} // verus!
