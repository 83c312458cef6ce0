//! Slashing evidence and the system operations that carry it on chain.
use vstd::bytes::*;
use vstd::prelude::*;

use crate::bytes::{append_bytes, copy_bytes, same_hash, ValidatorId};
use crate::types::{views, Action, ActionView, OperationView, UserOperation};

verus! {

/// What a validator is punished for.
#[derive(Clone, Copy, Debug)]
pub enum SlashingReason {
    /// Two different blocks signed at one height.
    DoubleSign { height: u64 },
    /// Too many of its own slots missed.
    Downtime { missed_blocks: u64 },
}

/// Why a validator is to be punished, and by how much of its stake.
#[derive(Clone, Copy, Debug)]
pub struct SlashingEvidence {
    pub offender: ValidatorId,
    pub reason: SlashingReason,
    /// The penalty, in hundredths of a percent of the stake.
    pub penalty_bps: u64,
}

/// `queue` holds evidence against `offender`.
pub open spec fn accused(queue: Seq<SlashingEvidence>, offender: ValidatorId) -> bool {
    exists|i: int| 0 <= i < queue.len() && (#[trigger] queue[i]).offender == offender
}

/// `queue` with `evidence` added, unless its offender is accused already.
pub open spec fn evidence_queued(
    queue: Seq<SlashingEvidence>,
    evidence: SlashingEvidence,
) -> Seq<SlashingEvidence> {
    if accused(queue, evidence.offender) {
        queue
    } else {
        queue.push(evidence)
    }
}

/// Nobody is accused twice in `queue`.
pub open spec fn distinct_offenders(queue: Seq<SlashingEvidence>) -> bool {
    forall|i: int, j: int|
        0 <= i < j < queue.len() ==> (#[trigger] queue[i]).offender != (#[trigger] queue[j]).offender
}

/// Queueing evidence never accuses anybody twice.
pub proof fn queue_accuses_once(queue: Seq<SlashingEvidence>, evidence: SlashingEvidence)
    requires
        distinct_offenders(queue),
    ensures
        distinct_offenders(evidence_queued(queue, evidence)),
        accused(evidence_queued(queue, evidence), evidence.offender),
{
    if !accused(queue, evidence.offender) {
        let longer = queue.push(evidence);
        assert(longer[queue.len() as int] == evidence);
        assert forall|i: int, j: int| 0 <= i < j < longer.len() implies (#[trigger] longer[i]).offender
            != (#[trigger] longer[j]).offender by {
            if j == queue.len() {
                assert(queue[i].offender != evidence.offender);
            } else {
                assert(queue[i].offender != queue[j].offender);
            }
        }
    }
}

/// Adds evidence to the queue, unless its offender is accused already.
pub fn queue_evidence(queue: &mut Vec<SlashingEvidence>, evidence: SlashingEvidence)
    ensures
        final(queue)@ == evidence_queued(old(queue)@, evidence),
{
    let mut i: usize = 0;
    while i < queue.len()
        invariant
            i <= queue@.len(),
            queue@ == old(queue)@,
            forall|j: int| 0 <= j < i ==> (#[trigger] queue@[j]).offender != evidence.offender,
        decreases queue@.len() - i,
    {
        if same_hash(&queue[i].offender, &evidence.offender) {
            return;
        }
        i += 1;
    }
    queue.push(evidence);
}

/// An operation that the system authorises itself: one call, marked by its
/// signature, that counts against no nonce.
pub open spec fn system_call(
    sender: ValidatorId,
    target: ValidatorId,
    method: Seq<char>,
    args: Seq<u8>,
    max_fee: u128,
) -> OperationView {
    OperationView {
        sender,
        nonce: 0,
        actions: seq![ActionView::Call { target, method, args }],
        max_fee,
        signature: seq![255u8],
    }
}

/// Builds an operation that the system authorises itself.
pub fn system_operation(
    sender: ValidatorId,
    target: ValidatorId,
    method: String,
    args: Vec<u8>,
    max_fee: u128,
) -> (op: UserOperation)
    ensures
        op@ == system_call(sender, target, method@, args@, max_fee),
{
    let action = Action::Call { target, method, args };
    let mut actions: Vec<Action> = Vec::new();
    let ghost shown = action@;
    actions.push(action);
    let mut signature: Vec<u8> = Vec::new();
    signature.push(255);
    let op = UserOperation { sender, nonce: 0, actions, max_fee, signature };
    assert(views(op.actions@) =~= seq![shown]);
    assert(op.signature@ =~= seq![255u8]);
    op
}

/// The arguments of a slashing call: the offender, then the penalty.
pub open spec fn slash_args(evidence: SlashingEvidence) -> Seq<u8> {
    evidence.offender@ + spec_u64_to_le_bytes(evidence.penalty_bps)
}

/// The operation that punishes an offender on chain.
pub open spec fn slash_call(
    sender: ValidatorId,
    staking: ValidatorId,
    evidence: SlashingEvidence,
) -> OperationView {
    system_call(sender, staking, "slash"@, slash_args(evidence), 0)
}

/// Builds the operation that punishes an offender on chain.
pub fn slash_operation(
    sender: ValidatorId,
    staking: ValidatorId,
    evidence: &SlashingEvidence,
) -> (op: UserOperation)
    ensures
        op@ == slash_call(sender, staking, *evidence),
{
    let mut args = copy_bytes(&evidence.offender);
    append_bytes(&mut args, u64_to_le_bytes(evidence.penalty_bps).as_slice());
    system_operation(sender, staking, "slash".to_string(), args, 0)
}

} // verus!
