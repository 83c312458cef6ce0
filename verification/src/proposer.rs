//! Who produces the next block, and who steps in.
use vstd::arithmetic::div_mod::*;
use vstd::prelude::*;

use crate::bytes::{same_hash, ValidatorId};
use crate::engine::{tip_height, ConsensusEngine, Now, State, PARTITION_PROBE_INTERVAL_MS};
use crate::store::StateStore;

verus! {

/// The shortest round of backup proposers.
pub const MIN_BACKUP_ROUND_MS: u64 = 4000;

/// How many seconds a round of backup proposers lasts: two block times, and four
/// seconds at least.
pub open spec fn backup_round_secs(block_time_ms: u64) -> int {
    (if block_time_ms * 2 >= MIN_BACKUP_ROUND_MS {
        block_time_ms * 2
    } else {
        MIN_BACKUP_ROUND_MS as int
    }) / 1000
}

/// The backup proposer at a given second: all nodes with synchronised clocks and
/// the same proposer order agree on it.
pub open spec fn backup_proposer(order: Seq<ValidatorId>, block_time_ms: u64, secs: u64) -> ValidatorId {
    order[(secs as int / backup_round_secs(block_time_ms) + 1) % (order.len() as int)]
}

/// Another validator's block is pending at the next height.
pub open spec fn rival_pending(s: State) -> bool {
    let next = tip_height(s) + 1;
    &&& next <= u64::MAX
    &&& s.pending_blocks.contains_key(next as u64)
    &&& s.pending_blocks[next as u64].header.proposer != s.config.validator_id
}

/// The validator that may try to end a partition at a given second.
pub open spec fn probe_proposer(order: Seq<ValidatorId>, secs: u64) -> Option<ValidatorId> {
    if order.len() == 0 {
        None
    } else {
        Some(order[(secs as int / 30) % (order.len() as int)])
    }
}

/// In every round there is exactly one backup proposer: two nodes with the same
/// proposer order that step in within one round are the same validator, and one of
/// the order.
pub proof fn one_backup_per_round(
    order: Seq<ValidatorId>,
    block_time_ms: u64,
    secs_a: u64,
    secs_b: u64,
    a: ValidatorId,
    b: ValidatorId,
)
    requires
        order.len() > 1,
        secs_a as int / backup_round_secs(block_time_ms) == secs_b as int / backup_round_secs(
            block_time_ms,
        ),
        backup_proposer(order, block_time_ms, secs_a) == a,
        backup_proposer(order, block_time_ms, secs_b) == b,
    ensures
        a == b,
        order.contains(a),
{
    let n = order.len() as int;
    let at = (secs_a as int / backup_round_secs(block_time_ms) + 1) % n;
    assert(0 <= at < n) by {
        lemma_mod_bound(secs_a as int / backup_round_secs(block_time_ms) + 1, n);
    }
    assert(order[at] == a);
}

/// Counting on from `start`, every remainder comes up within `n` steps.
proof fn rotation_reaches(n: int, start: int, i: int) -> (ahead: int)
    requires
        0 <= i < n,
        0 <= start,
    ensures
        0 <= ahead < n,
        (start + ahead) % n == i,
{
    let at = start % n;
    lemma_mod_bound(start, n);
    let ahead = if i >= at {
        i - at
    } else {
        i - at + n
    };
    lemma_fundamental_div_mod(start, n);
    let q = start / n;
    if i >= at {
        assert(n * q == q * n) by (nonlinear_arith);
        assert(start + ahead == q * n + i);
        lemma_fundamental_div_mod_converse(start + ahead, n, q, i);
    } else {
        assert(n * q + n == (q + 1) * n) by (nonlinear_arith);
        assert(start + ahead == (q + 1) * n + i);
        lemma_fundamental_div_mod_converse(start + ahead, n, q + 1, i);
    }
    ahead
}

/// Every validator of the order is the backup proposer of one of as many rounds as
/// the order is long, so that offline ones are passed over.
pub proof fn every_validator_backs_up(
    order: Seq<ValidatorId>,
    block_time_ms: u64,
    round: u64,
    id: ValidatorId,
)
    requires
        order.contains(id),
        (round + order.len()) * backup_round_secs(block_time_ms) <= u64::MAX,
    ensures
        exists|later: u64|
            round <= later < round + order.len() && backup_proposer(
                order,
                block_time_ms,
                #[trigger] ((later * backup_round_secs(block_time_ms)) as u64),
            ) == id,
{
    let n = order.len() as int;
    let length = backup_round_secs(block_time_ms);
    let i = choose|i: int| 0 <= i < n && order[i] == id;
    let ahead = rotation_reaches(n, round + 1, i);
    let at = round + ahead;
    assert(at <= u64::MAX && 0 <= at * length <= u64::MAX) by (nonlinear_arith)
        requires
            0 <= at <= round + n,
            length >= 1,
            (round + n) * length <= u64::MAX,
    ;
    let later = at as u64;
    assert(((later * length) as u64) as int / length == later) by {
        lemma_div_by_multiple(at, length);
        assert(at * length == length * at) by (nonlinear_arith);
    }
    assert(backup_proposer(order, block_time_ms, (later * length) as u64) == id);
}

/// Every validator of the order gets to probe within as many windows as the order
/// is long, so that offline ones are passed over.
pub proof fn every_validator_probes(order: Seq<ValidatorId>, window: u64, id: ValidatorId)
    requires
        order.contains(id),
        (window + order.len()) * 30 <= u64::MAX,
    ensures
        exists|later: u64|
            window <= later < window + order.len() && probe_proposer(
                order,
                #[trigger] ((later * 30) as u64),
            ) == Some(id),
{
    let n = order.len() as int;
    let i = choose|i: int| 0 <= i < n && order[i] == id;
    let ahead = rotation_reaches(n, window as int, i);
    let later = (window + ahead) as u64;
    assert(((later * 30) as u64) as int / 30 == later);
    assert(probe_proposer(order, (later * 30) as u64) == Some(id));
}

impl<S: StateStore> ConsensusEngine<S> {
    /// Whether this node is the designated proposer of the next block. `order` is
    /// the proposer order of the next height.
    pub fn is_next_proposer(&self, order: &Vec<ValidatorId>) -> (ours: bool)
        ensures
            ours == (order@.len() > 0 && order@[0] == self@.config.validator_id),
    {
        order.len() > 0 && same_hash(&order[0], &self.config.validator_id)
    }

    /// Whether this node is the backup proposer now, `stalled_ms` after the chain
    /// stopped. The local stall only says when a backup steps in; which one it is
    /// depends on the shared clock and the shared proposer order alone. While a block
    /// of another validator is pending no backup steps in: that block reaches a quorum
    /// or times out first.
    pub fn is_backup_proposer(&self, stalled_ms: u64, order: &Vec<ValidatorId>, now: Now) -> (ours:
        bool)
        requires
            self.inv(),
            self@.config.block_time_ms * 3 <= u64::MAX,
        ensures
            ours == (stalled_ms >= self@.config.block_time_ms * 3 && order@.len() > 1
                && !rival_pending(self@)
                && backup_proposer(order@, self@.config.block_time_ms, now.wall_ms / 1000)
                == self@.config.validator_id),
    {
        let block_time = self.config.block_time_ms;
        if stalled_ms < block_time * 3 {
            return false;
        }
        if order.len() <= 1 {
            return false;
        }
        let tip = self.height();
        if tip < u64::MAX {
            if let Some(pending) = self.pending_blocks.get(tip + 1) {
                if !same_hash(&pending.header.proposer, &self.config.validator_id) {
                    return false;
                }
            }
        }
        let twice = block_time * 2;
        let round_secs = (if twice >= MIN_BACKUP_ROUND_MS {
            twice
        } else {
            MIN_BACKUP_ROUND_MS
        }) / 1000;
        let secs = now.wall_ms / 1000;
        assert(round_secs == backup_round_secs(block_time));
        assert(secs / round_secs <= secs) by (nonlinear_arith)
            requires
                round_secs >= 1,
        ;
        let round = secs / round_secs;
        let at = (round + 1) % (order.len() as u64);
        same_hash(&order[at as usize], &self.config.validator_id)
    }

    /// The validator that may try to end a partition now. `order` is the proposer
    /// order of the next height.
    pub fn partition_probe_proposer(&self, order: &Vec<ValidatorId>, now: Now) -> (prober: Option<
        ValidatorId,
    >)
        ensures
            prober == probe_proposer(order@, now.wall_ms / 1000),
    {
        if order.len() == 0 {
            return None;
        }
        let window = now.wall_ms / 1000 / (PARTITION_PROBE_INTERVAL_MS / 1000);
        let at = window % (order.len() as u64);
        Some(order[at as usize])
    }

    /// Whether this node may try to end a partition now.
    pub fn is_partition_probe_proposer(&self, order: &Vec<ValidatorId>, now: Now) -> (ours: bool)
        ensures
            ours == (probe_proposer(order@, now.wall_ms / 1000) == Some(
                self@.config.validator_id,
            )),
    {
        match self.partition_probe_proposer(order, now) {
            Some(id) => same_hash(&id, &self.config.validator_id),
            None => false,
        }
    }
}

} // verus!
