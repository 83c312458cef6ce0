//! Turns, signatures, and what is written into messages and into the store.
use vstd::arithmetic::div_mod::*;
use vstd::bytes::*;
use vstd::prelude::*;
use vstd::string::*;

use crate::bytes::{Digest, ValidatorId};
use crate::checkpoint::{chain_network, checkpoint_attested, checkpoint_conflict, CheckpointsView};
use crate::codec::{account_key_of, attestation_payload, block_key_of};
use crate::engine::State;
use crate::intents::{
    all_transfers, builtin_allowed, fulfill_args, transfer_bytes, transfers_of, ConstraintView,
};
use crate::produce::nonce_read;
use crate::proposer::{backup_proposer, backup_round_secs, probe_proposer, rival_pending};
use crate::store::{apply_delta, lookup, undo_all, Contents, Plan, StateStore};
use crate::sync::stored_run;
use crate::types::{ActionView, Delta, OperationView};
use crate::validator::{active_stake, stake_in, ValidatorInfo};

verus! {

/// The remainder of the next number is the next remainder, or zero again.
proof fn next_remainder(x: int, n: int)
    requires
        0 <= x,
        0 < n,
    ensures
        0 <= x % n < n,
        (x + 1) % n == if x % n + 1 == n {
            0
        } else {
            x % n + 1
        },
{
    lemma_mod_bound(x, n);
    lemma_fundamental_div_mod(x, n);
    let q = x / n;
    let i = x % n;
    assert(n * q == q * n) by (nonlinear_arith);
    if i + 1 == n {
        assert((q + 1) * n == q * n + n) by (nonlinear_arith);
        lemma_fundamental_div_mod_converse(x + 1, n, q + 1, 0);
    } else {
        lemma_fundamental_div_mod_converse(x + 1, n, q, i + 1);
    }
}

/// A backup round lasts two block times in whole seconds, but four seconds at least.
/// The first round is the second validator's of the order, and every further round is
/// the next one's, the first following the last.
pub proof fn backups_take_turns(order: Seq<ValidatorId>, block_time_ms: u64, secs: u64)
    requires
        order.len() > 0,
    ensures
        ({
            let length = backup_round_secs(block_time_ms);
            let n = order.len() as int;
            &&& block_time_ms < 2000 ==> length == 4
            &&& block_time_ms >= 2000 ==> 1000 * length <= 2 * block_time_ms < 1000 * length + 1000
            &&& secs < length ==> backup_proposer(order, block_time_ms, secs) == if n == 1 {
                order[0]
            } else {
                order[1]
            }
            &&& secs + length <= u64::MAX ==> exists|i: int|
                0 <= i < n && backup_proposer(order, block_time_ms, secs) == #[trigger] order[i]
                    && backup_proposer(order, block_time_ms, (secs + length) as u64) == order[if i
                    + 1 == n {
                    0
                } else {
                    i + 1
                }]
        }),
{
    let length = backup_round_secs(block_time_ms);
    let n = order.len() as int;
    let round = secs as int / length;
    lemma_div_is_ordered(0, secs as int, length);
    lemma_basic_div(0, length);
    next_remainder(round + 1, n);
    lemma_div_plus_one(secs as int, length);
    if secs < length {
        lemma_basic_div(secs as int, length);
        next_remainder(0, n);
        lemma_small_mod(0, n as nat);
    }
    if secs + length <= u64::MAX {
        let i = (round + 1) % n;
        assert(backup_proposer(order, block_time_ms, secs) == order[i]);
        assert(backup_proposer(order, block_time_ms, (secs + length) as u64) == order[(round + 1
            + 1) % n]);
    }
}

/// A rival's block is in the way exactly when a block waits at the height after the last
/// one, or at the first where there is none, and another validator proposed it.
pub proof fn rival_waits_at_the_next_height(s: State)
    ensures
        rival_pending(s) <==> exists|height: u64| #[trigger]
            s.pending_blocks.contains_key(height) && height == (if s.chain.len() == 0 {
                1
            } else {
                s.chain[s.chain.len() - 1].header.height + 1
            }) && s.pending_blocks[height].header.proposer != s.config.validator_id,
{
    if rival_pending(s) {
        let next = (crate::engine::tip_height(s) + 1) as u64;
        assert(s.pending_blocks.contains_key(next));
    }
}

/// Half a minute is one validator's to probe, the next half minute the next one's of the
/// order, the first following the last.
pub proof fn probers_take_turns(order: Seq<ValidatorId>, secs: u64)
    ensures
        order.len() == 0 ==> probe_proposer(order, secs) is None,
        order.len() > 0 ==> {
            let n = order.len() as int;
            &&& secs < 30 ==> probe_proposer(order, secs) == Some(order[0])
            &&& secs % 30 != 0 ==> probe_proposer(order, secs) == probe_proposer(
                order,
                (secs - 1) as u64,
            )
            &&& secs + 30 <= u64::MAX ==> exists|i: int|
                0 <= i < n && probe_proposer(order, secs) == Some(#[trigger] order[i])
                    && probe_proposer(order, (secs + 30) as u64) == Some(
                    order[if i + 1 == n {
                        0
                    } else {
                        i + 1
                    }],
                )
        },
{
    if order.len() > 0 {
        let n = order.len() as int;
        next_remainder(secs as int / 30, n);
        lemma_small_mod(0, n as nat);
        let i = (secs as int / 30) % n;
        assert(probe_proposer(order, secs) == Some(order[i]));
        if secs + 30 <= u64::MAX {
            assert(((secs + 30) as u64) as int / 30 == secs as int / 30 + 1);
        }
    }
}

/// A signature counts for the pending checkpoint when it is the first of an active
/// validator. It is kept with its signer after those that came before, and it finalizes
/// the checkpoint exactly when its signers then hold more than two thirds of the active
/// stake. Any other signature changes nothing.
pub proof fn checkpoint_needs_stake(
    checkpoints: CheckpointsView,
    validators: Seq<ValidatorInfo>,
    id: ValidatorId,
    signature: Seq<u8>,
)
    ensures
        ({
            let (after, finalized) = checkpoint_attested(checkpoints, validators, id, signature);
            let active = exists|i: int|
                0 <= i < validators.len() && (#[trigger] validators[i]).id == id
                    && validators[i].active();
            match checkpoints.pending {
                None => after == checkpoints && !finalized,
                Some(p) => {
                    let signed = exists|i: int|
                        0 <= i < p.attestations.len() && (#[trigger] p.attestations[i]).0 == id;
                    let all = Set::new(
                        |x: ValidatorId|
                            x == id || exists|i: int|
                                0 <= i < p.attestations.len() && (#[trigger] p.attestations[i]).0
                                    == x,
                    );
                    let list = p.attestations.push((id, signature));
                    if !active || signed {
                        after == checkpoints && !finalized
                    } else if 3 * stake_in(validators, all) > 2 * active_stake(validators) {
                        &&& finalized
                        &&& after.pending is None
                        &&& after.latest matches Some(c)
                        &&& c.attestations == list
                        &&& c.height == p.height
                        &&& c.epoch == p.epoch
                        &&& c.block_hash == p.block_hash
                        &&& c.state_root == p.state_root
                    } else {
                        &&& !finalized
                        &&& after.latest == checkpoints.latest
                        &&& after.pending matches Some(c)
                        &&& c.attestations == list
                        &&& c.height == p.height
                        &&& c.epoch == p.epoch
                        &&& c.block_hash == p.block_hash
                        &&& c.state_root == p.state_root
                    }
                },
            }
        }),
{
    if let Some(p) = checkpoints.pending {
        let list = p.attestations.push((id, signature));
        let all = Set::new(
            |x: ValidatorId|
                x == id || exists|i: int|
                    0 <= i < p.attestations.len() && (#[trigger] p.attestations[i]).0 == x,
        );
        assert forall|x: ValidatorId| crate::checkpoint::signers(list).contains(
            x,
        ) <==> all.contains(x) by {
            if all.contains(x) {
                if x == id {
                    assert(list[p.attestations.len() as int].0 == x);
                } else {
                    let i = choose|i: int|
                        0 <= i < p.attestations.len() && (#[trigger] p.attestations[i]).0 == x;
                    assert(list[i].0 == x);
                }
            }
            if crate::checkpoint::signers(list).contains(x) {
                let i = choose|i: int| 0 <= i < list.len() && (#[trigger] list[i]).0 == x;
                if i < p.attestations.len() {
                    assert(p.attestations[i].0 == x);
                }
            }
        }
        assert(crate::checkpoint::signers(list) =~= all);
    }
}

/// A block conflicts with the latest checkpoint exactly when it is another block at the
/// checkpoint's height, and the checkpoint's block is named.
pub proof fn conflict_names_the_checkpoint(
    checkpoints: CheckpointsView,
    height: u64,
    hash: Digest,
)
    ensures
        match checkpoint_conflict(checkpoints, height, hash) {
            Some(named) => checkpoints.latest matches Some(c) && c.height == height && c.block_hash
                == named && named != hash,
            None => checkpoints.latest matches Some(c) ==> c.height != height || c.block_hash
                == hash,
        },
{
}

/// The built-in solver waits until an intent has been open for two blocks; an intent
/// opens five hundred blocks before it expires, or at the start of the chain.
pub proof fn builtin_solver_waits(current_height: u64, expiry_height: u64)
    ensures
        expiry_height >= 500 ==> (builtin_allowed(current_height, expiry_height) <==> current_height
            + 498 >= expiry_height),
        expiry_height < 500 ==> (builtin_allowed(current_height, expiry_height) <==> current_height
            >= 2),
{
}

/// The call that fulfils an intent names the intent, the solver and its tip, then counts
/// the transfers and lists each with its recipient and amount, then counts the
/// constraints.
pub proof fn fulfilment_names_its_parts(
    id: u64,
    constraints: Seq<ConstraintView>,
    solver: ValidatorId,
    claimed_tip: u128,
    operations: Seq<OperationView>,
)
    requires
        all_transfers(operations).len() <= u32::MAX,
        constraints.len() <= u32::MAX,
    ensures
        ({
            let args = fulfill_args(id, constraints, solver, claimed_tip, operations);
            let transfers = all_transfers(operations);
            let n = transfers.len() as int;
            &&& args.len() >= 64 + 48 * n
            &&& args.subrange(0, 8) == spec_u64_to_le_bytes(id)
            &&& args.subrange(8, 40) == solver@
            &&& args.subrange(40, 56) == spec_u128_to_le_bytes(claimed_tip)
            &&& args.subrange(56, 60) == spec_u32_to_le_bytes(n as u32)
            &&& forall|k: int|
                0 <= k < n ==> args.subrange(60 + 48 * k, 92 + 48 * k)
                    == (#[trigger] transfers[k]).0@ && args.subrange(92 + 48 * k, 108 + 48 * k)
                    == spec_u128_to_le_bytes(transfers[k].1)
            &&& args.subrange(60 + 48 * n, 64 + 48 * n) == spec_u32_to_le_bytes(
                constraints.len() as u32,
            )
        }),
{
    lemma_auto_spec_u64_to_from_le_bytes();
    lemma_auto_spec_u32_to_from_le_bytes();
    lemma_auto_spec_u128_to_from_le_bytes();
    let args = fulfill_args(id, constraints, solver, claimed_tip, operations);
    let transfers = all_transfers(operations);
    let n = transfers.len() as int;
    transfers_laid_out(transfers);
    let body = transfer_bytes(transfers);
    assert(args.subrange(0, 8) =~= spec_u64_to_le_bytes(id));
    assert(args.subrange(8, 40) =~= solver@);
    assert(args.subrange(40, 56) =~= spec_u128_to_le_bytes(claimed_tip));
    assert(args.subrange(56, 60) =~= spec_u32_to_le_bytes(n as u32));
    assert(args.subrange(60 + 48 * n, 64 + 48 * n) =~= spec_u32_to_le_bytes(
        constraints.len() as u32,
    ));
    assert forall|k: int| 0 <= k < n implies args.subrange(60 + 48 * k, 92 + 48 * k)
        == (#[trigger] transfers[k]).0@ && args.subrange(92 + 48 * k, 108 + 48 * k)
        == spec_u128_to_le_bytes(transfers[k].1) by {
        assert(args.subrange(60 + 48 * k, 92 + 48 * k) =~= body.subrange(48 * k, 48 * k + 32));
        assert(args.subrange(92 + 48 * k, 108 + 48 * k) =~= body.subrange(
            48 * k + 32,
            48 * k + 48,
        ));
    }
}

proof fn transfers_laid_out(transfers: Seq<(ValidatorId, u128)>)
    ensures
        transfer_bytes(transfers).len() == 48 * transfers.len(),
        forall|k: int|
            0 <= k < transfers.len() ==> transfer_bytes(transfers).subrange(48 * k, 48 * k + 32)
                == (#[trigger] transfers[k]).0@ && transfer_bytes(transfers).subrange(
                48 * k + 32,
                48 * k + 48,
            ) == spec_u128_to_le_bytes(transfers[k].1),
    decreases transfers.len(),
{
    lemma_auto_spec_u128_to_from_le_bytes();
    if transfers.len() > 0 {
        let rest = transfers.drop_last();
        transfers_laid_out(rest);
        let all = transfer_bytes(transfers);
        let most = transfer_bytes(rest);
        let n = rest.len() as int;
        assert forall|k: int| 0 <= k < transfers.len() implies all.subrange(48 * k, 48 * k + 32)
            == (#[trigger] transfers[k]).0@ && all.subrange(48 * k + 32, 48 * k + 48)
            == spec_u128_to_le_bytes(transfers[k].1) by {
            if k < n {
                assert(rest[k] == transfers[k]);
                assert(all.subrange(48 * k, 48 * k + 32) =~= most.subrange(48 * k, 48 * k + 32));
                assert(all.subrange(48 * k + 32, 48 * k + 48) =~= most.subrange(
                    48 * k + 32,
                    48 * k + 48,
                ));
            } else {
                assert(all.subrange(48 * k, 48 * k + 32) =~= transfers[k].0@);
                assert(all.subrange(48 * k + 32, 48 * k + 48) =~= spec_u128_to_le_bytes(
                    transfers[k].1,
                ));
            }
        }
    }
}

/// The transfers of a solution are those among its actions, in order: operations add
/// theirs one after the other, an action that is a transfer adds itself, and any other
/// adds nothing.
pub proof fn transfers_come_in_order(
    first: Seq<OperationView>,
    op: OperationView,
    action: ActionView,
    rest: Seq<ActionView>,
)
    ensures
        all_transfers(Seq::empty()).len() == 0,
        transfers_of(Seq::empty()).len() == 0,
        all_transfers(first.push(op)) == all_transfers(first) + transfers_of(op.actions),
        transfers_of(rest.push(action)) == match action {
            ActionView::Transfer { to, amount } => transfers_of(rest).push((to, amount)),
            _ => transfers_of(rest),
        },
{
    assert(first.push(op).drop_last() =~= first);
    assert(rest.push(action).drop_last() =~= rest);
}

/// Of the writes to one key the last counts, and a key without a write keeps its value.
pub proof fn last_write_counts(contents: Contents, delta: Delta, key: Seq<u8>, at: int)
    requires
        -1 <= at < delta.len(),
        at >= 0 ==> delta[at].0 == key,
        forall|i: int| at < i < delta.len() ==> (#[trigger] delta[i]).0 != key,
    ensures
        lookup(apply_delta(contents, delta), key) == if at >= 0 {
            delta[at].1
        } else {
            lookup(contents, key)
        },
    decreases delta.len(),
{
    if delta.len() > 0 && at < delta.len() - 1 {
        let rest = delta.drop_last();
        assert forall|i: int| at < i < rest.len() implies (#[trigger] rest[i]).0 != key by {
            assert(delta[i].0 != key);
        }
        assert(delta[delta.len() - 1].0 != key);
        last_write_counts(contents, rest, key, at);
    }
}

/// Blocks are undone one after the other, each by its own reverse-delta.
pub proof fn blocks_are_undone_in_turn(contents: Contents, first: Plan, rest: Plan)
    ensures
        undo_all(contents, Seq::empty()) == contents,
        undo_all(contents, first + rest) == undo_all(undo_all(contents, first), rest),
        rest.len() == 1 ==> undo_all(contents, rest) == apply_delta(contents, rest[0].1),
    decreases rest.len(),
{
    if rest.len() == 0 {
        assert(first + rest =~= first);
    } else {
        blocks_are_undone_in_turn(contents, first, rest.drop_last());
        assert((first + rest).drop_last() =~= first + rest.drop_last());
        if rest.len() == 1 {
            assert(undo_all(contents, rest.drop_last()) == contents);
        }
    }
}

/// A validator's attestation is of one block on one chain: after the name of what is
/// signed come the chain, the height and the hash.
pub proof fn attestation_is_laid_out(chain_id: u64, height: u64, hash: Digest)
    ensures
        ({
            let payload = attestation_payload(chain_id, height, hash);
            let name = "SOLEN_ATT".spec_bytes();
            let n = name.len() as int;
            &&& payload.len() == n + 48
            &&& payload.subrange(0, n) == name
            &&& payload.subrange(n, n + 8) == spec_u64_to_le_bytes(chain_id)
            &&& payload.subrange(n + 8, n + 16) == spec_u64_to_le_bytes(height)
            &&& payload.subrange(n + 16, n + 48) == hash@
        }),
{
    lemma_auto_spec_u64_to_from_le_bytes();
    let payload = attestation_payload(chain_id, height, hash);
    let n = "SOLEN_ATT".spec_bytes().len() as int;
    assert(payload.subrange(0, n) =~= "SOLEN_ATT".spec_bytes());
    assert(payload.subrange(n, n + 8) =~= spec_u64_to_le_bytes(chain_id));
    assert(payload.subrange(n + 8, n + 16) =~= spec_u64_to_le_bytes(height));
    assert(payload.subrange(n + 16, n + 48) =~= hash@);
}

/// A sender's nonce is read out of its account: nobody without one has a nonce, and where
/// the store can be read it is what the account's bytes give.
pub proof fn nonce_is_the_accounts<S: StateStore, F: Fn(&Vec<u8>) -> Option<u64>>(
    store: S,
    nonce_of: F,
    sender: ValidatorId,
    nonce: Option<u64>,
)
    requires
        nonce_read(store, nonce_of, sender, nonce),
        store.usable(),
    ensures
        match lookup(store.contents(), account_key_of(sender)) {
            Some(data) => exists|account: Vec<u8>|
                account@ == data && #[trigger] nonce_of.ensures((&account,), nonce),
            None => nonce is None,
        },
{
}

/// Blocks are served from the asked height on without a gap: as many as were asked for,
/// unless the next one is not in the store. So where the first is there it is served,
/// and asking for none, or for one that is not there, gives none.
pub proof fn blocks_are_served_without_a_gap(
    contents: Contents,
    from_height: u64,
    max: nat,
    blocks: Seq<Seq<u8>>,
)
    requires
        stored_run(contents, from_height, max, blocks),
    ensures
        blocks.len() <= max,
        forall|k: int|
            0 <= k < blocks.len() ==> from_height + k <= u64::MAX && lookup(
                contents,
                block_key_of((from_height + k) as u64),
            ) == Some(#[trigger] blocks[k]),
        max > 0 && lookup(contents, block_key_of(from_height)) is Some ==> blocks.len() > 0,
        lookup(contents, block_key_of(from_height)) is None ==> blocks.len() == 0,
        forall|next: u64|
            next == from_height + blocks.len() && blocks.len() < max ==> lookup(
                contents,
                #[trigger] block_key_of(next),
            ) is None,
{
    if blocks.len() > 0 {
        assert(lookup(contents, block_key_of((from_height + 0) as u64)) == Some(blocks[0]));
    }
}

/// The main network is chain one, the test network chains nine thousand and nine
/// thousand and one, and any other chain is a development network's.
pub proof fn chains_belong_to_networks(chain_id: u64)
    ensures
        chain_network(chain_id) is Mainnet <==> chain_id == 1,
        chain_network(chain_id) is Testnet <==> chain_id == 9000 || chain_id == 9001,
{
}

} // verus!
