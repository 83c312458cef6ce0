//! Taking the store back: undoing blocks that ran eagerly, rolling back a fork,
//! starting over from a snapshot.
use vstd::prelude::*;

use crate::bytes::{same_hash, Digest};
use crate::codec::{chain_meta_key_of, meta_record, recorded_meta};
use crate::engine::{marker, marker_block, tip_height, ConsensusEngine, State, EPOCH_LENGTH};
use crate::epoch::{restaked, sync_stakes, StakingValidator};
use crate::journal::{above_target, kept, lowest_target};
use crate::lists::{filter_of_all, filter_without};
use crate::store::{
    apply_durable_reverts_above, durable_plan, load_chain_meta, lookup, newest_first,
    save_chain_meta, schedule, undo_all, undo_plan, Contents, Plan, StateStore, Undo,
};
use crate::table::{Slot, Table, TableKey};
use crate::types::{
    views, views_of_empty, BlockView, Delta, FinalizedBlock, PendingBlock,
    PendingView,
};
use crate::validator::countable;

verus! {

/// A block of this node that ran before it was finalized, and how to undo it.
pub open spec fn ran_eagerly(pending: PendingView) -> bool {
    pending.already_executed && pending.revert is Some
}

/// The blocks of `m` that did not run eagerly.
pub open spec fn without_eager<K>(m: Map<K, PendingView>) -> Map<K, PendingView> {
    Map::new(|k: K| m.contains_key(k) && !ran_eagerly(m[k]), |k: K| m[k])
}

/// Where a block that ran eagerly is kept.
pub enum Source {
    Candidate(Slot),
    Pending(u64),
}

/// The height and the reverse-delta of the block at `source`, if it ran eagerly.
pub open spec fn eager_at(s: State, source: Source) -> Option<(u64, Delta)> {
    match source {
        Source::Candidate(k) => if s.v2_blocks.contains_key(k) && ran_eagerly(s.v2_blocks[k]) {
            Some((k.height, s.v2_blocks[k].revert->0))
        } else {
            None
        },
        Source::Pending(h) => if s.pending_blocks.contains_key(h) && ran_eagerly(
            s.pending_blocks[h],
        ) {
            Some((h, s.pending_blocks[h].revert->0))
        } else {
            None
        },
    }
}

/// `plan` undoes each block that ran eagerly once, from the highest down; blocks at
/// one height come in any order. `sources` says where each of them was kept.
pub open spec fn eager_plan(s: State, sources: Seq<Source>, plan: Plan) -> bool {
    &&& sources.len() == plan.len()
    &&& sources.no_duplicates()
    &&& forall|i: int|
        0 <= i < plan.len() ==> eager_at(s, #[trigger] sources[i]) == Some(plan[i])
    &&& forall|source: Source| (#[trigger] eager_at(s, source)) is Some ==> sources.contains(source)
    &&& newest_first(plan)
}

/// The store after undoing `plan`, and then also the undo records above `tip` where
/// that did not bring the root to `target`.
pub open spec fn repaired<S: StateStore>(
    contents: Contents,
    plan: Plan,
    tip: u64,
    target: Digest,
    after: S,
) -> bool {
    let undone = undo_all(contents, plan);
    if S::root_of(undone) == target {
        after.contents() == undone && after.root() == target
    } else {
        exists|durable: Plan| #[trigger]
            durable_plan(undone, S::eager_prefix_of(), tip, durable) && after.contents()
                == undo_all(undone, durable) && after.root() == S::root_of(after.contents())
    }
}

/// The state root that the store has at the finalized tip, if there is a tip.
pub open spec fn tip_root(s: State) -> Option<Digest> {
    if s.chain.len() == 0 {
        None
    } else {
        Some(s.chain.last().result.state_root)
    }
}

/// What restoring the store to the finalized tip does. A store that has the tip's
/// root is left alone. Otherwise the blocks that ran eagerly are undone and
/// forgotten, and a resync is asked for where the root still differs.
pub open spec fn restored<S: StateStore>(before: State, store: S, after: State, new_store: S) -> bool {
    match tip_root(before) {
        None => after == before && new_store == store,
        Some(target) => if store.root() == target {
            after == before && new_store == store
        } else {
            &&& after == (State {
                v2_blocks: without_eager(before.v2_blocks),
                pending_blocks: without_eager(before.pending_blocks),
                needs_resync: before.needs_resync || new_store.root() != target,
                ..before
            })
            &&& store.usable() ==> new_store.usable() && exists|sources: Seq<Source>, plan: Plan|
                #[trigger] eager_plan(before, sources, plan) && repaired(
                    store.contents(),
                    plan,
                    tip_height(before),
                    target,
                    new_store,
                )
        },
    }
}

/// The state after a snapshot was restored at `height`.
pub open spec fn reset_state(
    s: State,
    height: u64,
    epoch: u64,
    root: Digest,
    staking: Seq<StakingValidator>,
) -> State {
    State {
        chain: seq![marker_block(height, epoch, root, s.config.validator_id)],
        validators: restaked(s.validators, staking),
        current_epoch: epoch,
        pending_attestations: Map::empty(),
        pending_blocks: Map::empty(),
        consecutive_force_finalizes: 0,
        last_partition_probe_ms: None,
        early_attestations: Seq::empty(),
        dropped_block_height: None,
        consecutive_sync_reverts: 0,
        journal: Seq::empty(),
        v2_blocks: Map::empty(),
        v2_votes: Map::empty(),
        v2_revotes: Seq::empty(),
        v2_invalid: Map::empty(),
        ..s
    }
}

/// The journal covers every block above `target`, and there is one.
pub open spec fn rollback_reaches(s: State, target: u64) -> bool {
    target < tip_height(s) && (lowest_target(s.journal) matches Some(lowest) && target >= lowest)
}

/// The blocks of `chain` up to `target`.
pub open spec fn up_to(chain: Seq<BlockView>, target: u64) -> Seq<BlockView> {
    chain.filter(|b: BlockView| b.header.height <= target)
}

/// The state after a rollback to `target`.
pub open spec fn rolled_back(s: State, target: u64) -> State {
    State {
        chain: up_to(s.chain, target),
        journal: s.journal.take(kept(s.journal, target) as int),
        pending_blocks: Map::empty(),
        pending_attestations: Map::empty(),
        early_attestations: Seq::empty(),
        dropped_block_height: None,
        consecutive_force_finalizes: 0,
        current_epoch: target / EPOCH_LENGTH,
        ..s
    }
}

/// Drops the blocks above `target`.
fn truncate_chain(chain: &mut Vec<FinalizedBlock>, target: u64)
    ensures
        views(final(chain)@) == up_to(views(old(chain)@), target),
{
    let ghost full = views(chain@);
    let ghost p = |b: BlockView| b.header.height <= target;
    let mut i: usize = 0;
    while i < chain.len()
        invariant
            i <= chain@.len(),
            p == (|b: BlockView| b.header.height <= target),
            views(chain@).filter(p) == full.filter(p),
            forall|j: int| 0 <= j < i ==> p(#[trigger] views(chain@)[j]),
        decreases chain@.len() - i,
    {
        if chain[i].header.height <= target {
            assert(p(views(chain@)[i as int]));
            i += 1;
        } else {
            let ghost before = views(chain@);
            proof {
                assert(!p(before[i as int]));
                filter_without(before, i as int, p);
            }
            let _ = chain.remove(i);
            assert(views(chain@) =~= before.remove(i as int));
        }
    }
    proof {
        filter_of_all(views(chain@), p);
    }
}

/// `plan` lists exactly what `known` holds, at the given sources.
pub open spec fn listed(
    plan: Plan,
    sources: Seq<Source>,
    known: Map<Source, (u64, Delta)>,
) -> bool {
    &&& sources.len() == plan.len()
    &&& sources.no_duplicates()
    &&& forall|i: int|
        0 <= i < plan.len() ==> known.contains_key(#[trigger] sources[i]) && known[sources[i]]
            == plan[i]
    &&& forall|source: Source| #[trigger] known.contains_key(source) ==> sources.contains(source)
    &&& newest_first(plan)
}

proof fn listed_insert(
    plan: Plan,
    sources: Seq<Source>,
    known: Map<Source, (u64, Delta)>,
    at: int,
    source: Source,
    entry: (u64, Delta),
)
    requires
        listed(plan, sources, known),
        0 <= at <= plan.len(),
        !known.contains_key(source),
        newest_first(plan.insert(at, entry)),
    ensures
        listed(plan.insert(at, entry), sources.insert(at, source), known.insert(source, entry)),
{
    let plan2 = plan.insert(at, entry);
    let sources2 = sources.insert(at, source);
    let known2 = known.insert(source, entry);
    assert forall|i: int, j: int|
        0 <= i < sources2.len() && 0 <= j < sources2.len() && i != j implies sources2[i]
        != sources2[j] by {
        let i0 = if i < at {
            i
        } else {
            i - 1
        };
        let j0 = if j < at {
            j
        } else {
            j - 1
        };
        if i != at {
            assert(known.contains_key(sources[i0]));
        }
        if j != at {
            assert(known.contains_key(sources[j0]));
        }
    }
    assert forall|i: int| 0 <= i < plan2.len() implies known2.contains_key(#[trigger] sources2[i])
        && known2[sources2[i]] == plan2[i] by {
        if i != at {
            let i0 = if i < at {
                i
            } else {
                i - 1
            };
            assert(sources2[i] == sources[i0]);
            assert(known.contains_key(sources[i0]));
        }
    }
    assert forall|q: Source| #[trigger] known2.contains_key(q) implies sources2.contains(q) by {
        if q == source {
            assert(sources2[at] == q);
        } else {
            assert(sources.contains(q));
            let i = choose|i: int| 0 <= i < sources.len() && sources[i] == q;
            let i1 = if i < at {
                i
            } else {
                i + 1
            };
            assert(sources2[i1] == q);
        }
    }
}

/// Takes the blocks that ran eagerly out of `table` and schedules them to be
/// undone.
fn take_eager<K: TableKey>(
    table: &mut Table<K, PendingBlock>,
    plan: &mut Vec<Undo>,
    Ghost(tag): Ghost<spec_fn(K) -> Source>,
    Ghost(sources): Ghost<Seq<Source>>,
    Ghost(known): Ghost<Map<Source, (u64, Delta)>>,
) -> (out: (Ghost<Seq<Source>>, Ghost<Map<Source, (u64, Delta)>>))
    requires
        old(table).wf(),
        listed(views(old(plan)@), sources, known),
        forall|a: K, b: K| a != b ==> #[trigger] tag(a) != #[trigger] tag(b),
        forall|a: K| !known.contains_key(#[trigger] tag(a)),
    ensures
        final(table).wf(),
        final(table)@ == without_eager(old(table)@),
        listed(views(final(plan)@), out.0@, out.1@),
        forall|source: Source| #[trigger]
            known.contains_key(source) ==> out.1@.contains_key(source) && out.1@[source]
                == known[source],
        forall|k: K| #[trigger]
            old(table)@.contains_key(k) && ran_eagerly(old(table)@[k]) ==> out.1@.contains_key(
                tag(k),
            ) && out.1@[tag(k)] == (k.height_of(), old(table)@[k].revert->0),
        forall|source: Source| #[trigger]
            out.1@.contains_key(source) ==> known.contains_key(source) || exists|k: K|
                source == #[trigger] tag(k) && old(table)@.contains_key(k) && ran_eagerly(
                    old(table)@[k],
                ),
{
    let ghost full = table@;
    let ghost mut srcs = sources;
    let ghost mut all = known;
    let mut i: usize = 0;
    while i < table.entries.len()
        invariant
            i <= table.entries@.len(),
            table.wf(),
            full == old(table)@,
            without_eager(table@) == without_eager(full),
            forall|j: int| 0 <= j < i ==> !ran_eagerly((#[trigger] table.entries@[j]).1@),
            forall|k: K| #[trigger]
                table@.contains_key(k) ==> full.contains_key(k) && full[k] == table@[k],
            listed(views(plan@), srcs, all),
            forall|a: K, b: K| a != b ==> #[trigger] tag(a) != #[trigger] tag(b),
            forall|a: K| !known.contains_key(#[trigger] tag(a)),
            forall|source: Source| #[trigger]
                known.contains_key(source) ==> all.contains_key(source) && all[source]
                    == known[source],
            forall|k: K| #[trigger]
                full.contains_key(k) && ran_eagerly(full[k]) && !table@.contains_key(k)
                    ==> all.contains_key(tag(k)) && all[tag(k)] == (
                    k.height_of(),
                    full[k].revert->0,
                ),
            forall|source: Source| #[trigger]
                all.contains_key(source) ==> known.contains_key(source) || exists|k: K|
                    source == #[trigger] tag(k) && full.contains_key(k) && ran_eagerly(full[k])
                        && !table@.contains_key(k),
        decreases table.entries@.len() - i,
    {
        let held = table.value_at(i);
        if held.already_executed && held.revert.is_some() {
            let ghost before = table@;
            let ghost s = table.entries@;
            let (k, pending) = table.take_at(i);
            let height = k.height();
            assert(without_eager(table@) =~= without_eager(before));
            match pending.revert {
                Some(revert) => {
                    let ghost old_plan = views(plan@);
                    let ghost delta = revert@;
                    let at = schedule(plan, Undo { height, revert });
                    proof {
                        let source = tag(k);
                        let old_all = all;
                        if all.contains_key(source) {
                            let k2 = choose|k2: K|
                                source == #[trigger] tag(k2) && full.contains_key(k2)
                                    && ran_eagerly(full[k2]) && !before.contains_key(k2);
                            assert(k2 != k);
                            assert(tag(k2) != tag(k));
                        }
                        listed_insert(old_plan, srcs, all, at as int, source, (height, delta));
                        srcs = srcs.insert(at as int, source);
                        all = all.insert(source, (height, delta));
                        assert(full[k].revert == Some(delta));
                        assert forall|q: K| #[trigger]
                            full.contains_key(q) && ran_eagerly(full[q]) && !table@.contains_key(
                                q,
                            ) implies all.contains_key(tag(q)) && all[tag(q)] == (
                            q.height_of(),
                            full[q].revert->0,
                        ) by {
                            if q != k {
                                assert(tag(q) != tag(k));
                                assert(!before.contains_key(q));
                            }
                        }
                        assert forall|q: Source| #[trigger] all.contains_key(q) implies known.contains_key(
                            q,
                        ) || exists|k2: K|
                            q == #[trigger] tag(k2) && full.contains_key(k2) && ran_eagerly(
                                full[k2],
                            ) && !table@.contains_key(k2) by {
                            if q == source {
                                assert(q == tag(k));
                            } else if !known.contains_key(q) {
                                assert(old_all.contains_key(q));
                                let k2 = choose|k2: K|
                                    q == #[trigger] tag(k2) && full.contains_key(k2)
                                        && ran_eagerly(full[k2]) && !before.contains_key(k2);
                                assert(!table@.contains_key(k2));
                            }
                        }
                    }
                },
                None => {},
            }
        } else {
            i += 1;
        }
    }
    assert(without_eager(table@) =~= table@) by {
        assert forall|k: K| table@.contains_key(k) implies !ran_eagerly(table@[k]) by {
            table.entry_of(k);
        }
    }
    (Ghost(srcs), Ghost(all))
}

impl<S: StateStore> ConsensusEngine<S> {
    /// Makes the store reflect the finalized tip. Blocks of this node that ran but
    /// were not finalized are undone.
    pub fn restore_store_to_finalized_tip(&mut self)
        requires
            old(self).inv(),
        ensures
            final(self).inv(),
            restored(old(self)@, old(self).store, final(self)@, final(self).store),
    {
        broadcast use views_of_empty;

        let ghost before = self@;
        let ghost store0 = self.store;
        let n = self.chain.len();
        if n == 0 {
            return;
        }
        assert(before.chain.last() == self.chain@[n - 1]@);
        let target = self.chain[n - 1].result.state_root;
        if same_hash(&self.store.state_root(), &target) {
            return;
        }
        let mut plan: Vec<Undo> = Vec::new();
        let ghost none: Seq<Source> = Seq::empty();
        let ghost nothing: Map<Source, (u64, Delta)> = Map::empty();
        assert(listed(views(plan@), none, nothing));
        let (Ghost(sources1), Ghost(known1)) = take_eager(
            &mut self.v2_blocks,
            &mut plan,
            Ghost(|k: Slot| Source::Candidate(k)),
            Ghost(none),
            Ghost(nothing),
        );
        let (Ghost(sources), Ghost(known)) = take_eager(
            &mut self.pending_blocks,
            &mut plan,
            Ghost(|h: u64| Source::Pending(h)),
            Ghost(sources1),
            Ghost(known1),
        );
        let ghost undone = views(plan@);
        proof {
            let tag = |h: u64| Source::Pending(h);
            let tag2 = |k: Slot| Source::Candidate(k);
            assert forall|source: Source| (#[trigger] eager_at(before, source)) is Some
                <==> known.contains_key(source) by {
                match source {
                    Source::Candidate(k) => {
                        assert(tag2(k) == source);
                        if known.contains_key(source) {
                            assert(known1.contains_key(source));
                        }
                        if eager_at(before, source) is Some {
                            assert(before.v2_blocks.contains_key(k));
                            assert(known1.contains_key(source));
                        }
                    },
                    Source::Pending(h) => {
                        assert(tag(h) == source);
                        if eager_at(before, source) is Some {
                            assert(before.pending_blocks.contains_key(h));
                        }
                    },
                }
            }
            assert forall|i: int| 0 <= i < undone.len() implies eager_at(
                before,
                #[trigger] sources[i],
            ) == Some(undone[i]) by {
                let source = sources[i];
                assert(known.contains_key(source));
                assert(eager_at(before, source) is Some);
                match source {
                    Source::Candidate(k) => {
                        assert(tag2(k) == source);
                        assert(known1.contains_key(source));
                    },
                    Source::Pending(h) => {
                        assert(tag(h) == source);
                        assert(before.pending_blocks.contains_key(h));
                    },
                }
            }
            assert(eager_plan(before, sources, undone));
        }
        let _ = undo_plan(&mut self.store, &plan);
        self.store.commit_root();
        let ghost store1 = self.store;
        let mut clean = same_hash(&self.store.state_root(), &target);
        if !clean {
            let tip = self.height();
            let applied = apply_durable_reverts_above(&mut self.store, tip);
            proof {
                if store0.usable() {
                    let durable = choose|durable: Plan| #[trigger]
                        durable_plan(store1.contents(), S::eager_prefix_of(), tip, durable)
                            && applied == (durable.len() > 0) && self.store.contents() == undo_all(
                            store1.contents(),
                            durable,
                        );
                    assert(durable_plan(store1.contents(), S::eager_prefix_of(), tip, durable));
                }
            }
            clean = same_hash(&self.store.state_root(), &target);
            if !clean {
                self.needs_resync = true;
            }
        }
        proof {
            if store0.usable() {
                assert(repaired(store0.contents(), undone, tip_height(before), target, self.store));
            }
            assert(self@ =~= (State {
                v2_blocks: without_eager(before.v2_blocks),
                pending_blocks: without_eager(before.pending_blocks),
                needs_resync: before.needs_resync || self.store.root() != target,
                ..before
            }));
        }
    }

    /// Starts over at `height` after a snapshot was restored into the store.
    pub fn reset_to_height(&mut self, height: u64, epoch: u64, staking: &Vec<StakingValidator>)
        requires
            old(self).inv(),
            countable(restaked(old(self)@.validators, staking@)),
        ensures
            final(self).inv(),
            final(self).store == old(self).store,
            final(self)@ == reset_state(
                old(self)@,
                height,
                epoch,
                old(self).store.root(),
                staking@,
            ),
    {
        let ghost before = self@;
        self.pending_blocks.clear();
        self.pending_attestations.clear();
        self.early_attestations.clear();
        self.v2_blocks.clear();
        self.v2_votes.clear();
        self.v2_revotes.clear();
        self.v2_invalid.clear();
        self.consecutive_force_finalizes = 0;
        self.consecutive_sync_reverts = 0;
        self.last_partition_probe_ms = None;
        self.dropped_block_height = None;
        self.rollback_journal.clear();
        self.current_epoch = epoch;
        let root = self.store.state_root();
        self.chain.clear();
        self.chain.push(marker(height, epoch, root, self.config.validator_id));
        sync_stakes(&mut self.validator_set, staking);
        assert(self@ =~= reset_state(before, height, epoch, root, staking@));
    }

    /// Starts over at the height that the restored store records.
    pub fn reset_to_store_meta(&mut self, staking: &Vec<StakingValidator>) -> (meta: (u64, u64))
        requires
            old(self).inv(),
            countable(restaked(old(self)@.validators, staking@)),
        ensures
            final(self).inv(),
            final(self).store == old(self).store,
            meta == (0u64, 0u64) || meta == recorded_meta(
                lookup(old(self).store.contents(), chain_meta_key_of()),
            ),
            old(self).store.usable() ==> meta == recorded_meta(
                lookup(old(self).store.contents(), chain_meta_key_of()),
            ),
            final(self)@ == reset_state(
                old(self)@,
                meta.0,
                meta.1,
                old(self).store.root(),
                staking@,
            ),
    {
        let meta = load_chain_meta(&self.store);
        self.reset_to_height(meta.0, meta.1, staking);
        meta
    }

    /// Takes the store and the chain back to `target` by undoing every block above
    /// it. Nothing changes where the journal does not reach that far. Where the
    /// undone store does not have the root `expected_root`, the chain is kept and
    /// the store has to be restored from a snapshot.
    pub fn rollback_to_height(&mut self, target: u64, expected_root: &Digest) -> (done: bool)
        requires
            old(self).inv(),
        ensures
            final(self).inv(),
            !rollback_reaches(old(self)@, target) ==> !done && final(self)@ == old(self)@
                && final(self).store == old(self).store,
            final(self)@ == if done {
                rolled_back(old(self)@, target)
            } else {
                old(self)@
            },
            done ==> final(self).store.root() == *expected_root,
            old(self).store.usable() && rollback_reaches(old(self)@, target) ==> {
                let undone = undo_all(
                    old(self).store.contents(),
                    above_target(old(self)@.journal, target),
                );
                &&& final(self).store.usable()
                &&& done == (S::root_of(undone) == *expected_root)
                &&& final(self).store.root() == S::root_of(undone)
                &&& final(self).store.contents() == if done {
                    undone.insert(chain_meta_key_of(), meta_record(target, target / EPOCH_LENGTH))
                } else {
                    undone
                }
            },
    {
        let ghost before = self@;
        if target >= self.height() {
            return false;
        }
        match self.rollback_journal.min_rollback_target() {
            Some(lowest) => {
                if target < lowest {
                    return false;
                }
            },
            None => {
                return false;
            },
        }
        if !self.rollback_journal.undo_above(&mut self.store, target) {
            return false;
        }
        self.store.commit_root();
        if !same_hash(&self.store.state_root(), expected_root) {
            return false;
        }
        truncate_chain(&mut self.chain, target);
        self.rollback_journal.truncate_above(target);
        self.pending_blocks.clear();
        self.pending_attestations.clear();
        self.early_attestations.clear();
        self.dropped_block_height = None;
        self.consecutive_force_finalizes = 0;
        let epoch = target / EPOCH_LENGTH;
        self.current_epoch = epoch;
        save_chain_meta(&mut self.store, target, epoch);
        assert(self@ =~= rolled_back(before, target));
        true
    }
}

} // verus!
