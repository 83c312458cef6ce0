//! The rollback journal: the reverse-deltas of the most recent blocks.
use vstd::prelude::*;

use crate::store::{apply_delta, newest_first, undo_all, Contents, Plan, StateStore, Undo};
use crate::types::{views, BlockRevert, Delta};

verus! {

/// How many recent blocks' reverse-deltas are retained.
pub const ROLLBACK_JOURNAL_CAP: usize = 256;

/// A bounded list of reverse-deltas, oldest block first. Shallow forks are rolled
/// back to their common ancestor by applying the deltas of the forked suffix.
#[derive(Debug)]
pub struct RollbackJournal {
    pub entries: Vec<Undo>,
    pub cap: usize,
}

impl View for RollbackJournal {
    type V = Plan;

    open spec fn view(&self) -> Plan {
        views(self.entries@)
    }
}

/// The heights of `journal` follow one another.
pub open spec fn contiguous(journal: Plan) -> bool {
    forall|i: int, j: int|
        0 <= i < j < journal.len() ==> (#[trigger] journal[j]).0 == (#[trigger] journal[i]).0 + (j
            - i)
}

/// `journal` with the block at `height` recorded. A height that does not follow
/// the last one starts the journal afresh, and the oldest block leaves a full one.
pub open spec fn recorded(journal: Plan, cap: nat, height: u64, delta: Delta) -> Plan {
    let base = if journal.len() > 0 && height != journal.last().0 + 1 {
        Seq::empty()
    } else {
        journal
    };
    let full = base.push((height, delta));
    if full.len() > cap {
        full.skip(full.len() - cap)
    } else {
        full
    }
}

/// The lowest height that `journal` can rewind to: one below its oldest block.
pub open spec fn lowest_target(journal: Plan) -> Option<u64> {
    if journal.len() == 0 {
        None
    } else if journal[0].0 == 0 {
        Some(0)
    } else {
        Some((journal[0].0 - 1) as u64)
    }
}

/// How many blocks of `journal` remain when those above `target` leave its end.
pub open spec fn kept(journal: Plan, target: u64) -> nat
    decreases journal.len(),
{
    if journal.len() == 0 || journal.last().0 <= target {
        journal.len()
    } else {
        kept(journal.drop_last(), target)
    }
}

/// The blocks of `journal` above `target`, in the order in which they are undone.
pub open spec fn above_target(journal: Plan, target: u64) -> Plan {
    Seq::new(
        (journal.len() - kept(journal, target)) as nat,
        |k: int| journal[journal.len() - 1 - k],
    )
}

/// Of the blocks that remain the last is not above the target, and all others are.
pub proof fn kept_bounds(journal: Plan, target: u64)
    ensures
        kept(journal, target) <= journal.len(),
        kept(journal, target) > 0 ==> journal[kept(journal, target) - 1].0 <= target,
        forall|i: int|
            kept(journal, target) <= i < journal.len() ==> (#[trigger] journal[i]).0 > target,
    decreases journal.len(),
{
    if journal.len() > 0 && journal.last().0 > target {
        kept_bounds(journal.drop_last(), target);
        let shorter = journal.drop_last();
        assert forall|i: int| kept(journal, target) <= i < journal.len() implies (
        #[trigger] journal[i]).0 > target by {
            if i < journal.len() - 1 {
                assert(shorter[i].0 > target);
            }
        }
    }
}

/// Rewinding a contiguous journal splits it by height: exactly the blocks above
/// the target are undone, from the highest down, and exactly the others remain.
pub proof fn rewind_splits_by_height(journal: Plan, target: u64)
    requires
        contiguous(journal),
    ensures
        kept(journal, target) <= journal.len(),
        forall|i: int|
            0 <= i < journal.len() ==> ((#[trigger] journal[i]).0 <= target <==> i < kept(
                journal,
                target,
            )),
        newest_first(above_target(journal, target)),
        contiguous(journal.take(kept(journal, target) as int)),
{
    kept_bounds(journal, target);
    let n = kept(journal, target) as int;
    assert forall|i: int| 0 <= i < n implies (#[trigger] journal[i]).0 <= target by {
        if i < n - 1 {
            assert(journal[n - 1].0 == journal[i].0 + (n - 1 - i));
        }
    }
}

/// Undoing the blocks above a target takes the store back to what it held there:
/// where `history[k]` is what the store held before the block `journal[k]`, and
/// each reverse-delta undoes its block, the contents after the rewind are those
/// that the store held when the first undone block was applied.
pub proof fn rewind_restores(journal: Plan, target: u64, history: Seq<Contents>)
    requires
        history.len() == journal.len() + 1,
        forall|k: int|
            0 <= k < journal.len() ==> apply_delta(history[k + 1], (#[trigger] journal[k]).1)
                == history[k],
    ensures
        undo_all(history.last(), above_target(journal, target)) == history[kept(
            journal,
            target,
        ) as int],
{
    kept_bounds(journal, target);
    let plan = above_target(journal, target);
    rewind_steps(journal, target, history, plan.len() as int);
    assert(plan.take(plan.len() as int) =~= plan);
}

proof fn rewind_steps(journal: Plan, target: u64, history: Seq<Contents>, n: int)
    requires
        history.len() == journal.len() + 1,
        forall|k: int|
            0 <= k < journal.len() ==> apply_delta(history[k + 1], (#[trigger] journal[k]).1)
                == history[k],
        0 <= n <= above_target(journal, target).len(),
        kept(journal, target) <= journal.len(),
    ensures
        undo_all(history.last(), above_target(journal, target).take(n)) == history[journal.len()
            - n],
    decreases n,
{
    let plan = above_target(journal, target);
    if n == 0 {
        assert(plan.take(0).len() == 0);
    } else {
        rewind_steps(journal, target, history, n - 1);
        assert(plan.take(n).drop_last() =~= plan.take(n - 1));
        let k = journal.len() - n;
        assert(plan.take(n).last() == journal[k]);
        assert(apply_delta(history[k + 1], journal[k].1) == history[k]);
    }
}

impl RollbackJournal {
    /// The heights follow one another and the bound is kept.
    pub open spec fn wf(&self) -> bool {
        &&& self.cap >= 1
        &&& self.entries@.len() <= self.cap
        &&& contiguous(self@)
    }

    /// An empty journal that retains `cap` blocks, or one where `cap` is zero.
    pub fn new(cap: usize) -> (journal: Self)
        ensures
            journal.wf(),
            journal@ == Seq::<(u64, Delta)>::empty(),
            journal.cap == (if cap == 0 {
                1usize
            } else {
                cap
            }),
    {
        let journal = RollbackJournal {
            entries: Vec::new(),
            cap: if cap == 0 {
                1
            } else {
                cap
            },
        };
        assert(journal@ =~= Seq::<(u64, Delta)>::empty());
        journal
    }

    /// Records the reverse-delta of the block at `height`.
    pub fn record(&mut self, height: u64, revert: BlockRevert)
        requires
            old(self).wf(),
        ensures
            final(self).wf(),
            final(self).cap == old(self).cap,
            final(self)@ == recorded(old(self)@, old(self).cap as nat, height, revert@),
    {
        let ghost before = self@;
        let ghost delta = revert@;
        let n = self.entries.len();
        if n > 0 {
            assert(before.last().0 == self.entries@[n - 1].height);
            let last = self.entries[n - 1].height;
            if last == u64::MAX || height != last + 1 {
                self.entries.clear();
            }
        }
        let ghost base = self@;
        assert(base =~= if before.len() > 0 && height != before.last().0 + 1 {
            Seq::empty()
        } else {
            before
        });
        self.entries.push(Undo { height, revert });
        assert(self@ =~= base.push((height, delta)));
        assert(contiguous(self@));
        if self.entries.len() > self.cap {
            let ghost full = self@;
            let _ = self.entries.remove(0);
            assert(self@ =~= full.skip(1));
        }
    }

    /// The lowest height that the journal can rewind to, if any.
    pub fn min_rollback_target(&self) -> (target: Option<u64>)
        ensures
            target == lowest_target(self@),
    {
        if self.entries.len() == 0 {
            None
        } else {
            assert(self@[0].0 == self.entries@[0].height);
            Some(self.entries[0].height.saturating_sub(1))
        }
    }

    /// Forgets every block.
    pub fn clear(&mut self)
        requires
            old(self).wf(),
        ensures
            final(self).wf(),
            final(self).cap == old(self).cap,
            final(self)@ == Seq::<(u64, Delta)>::empty(),
    {
        self.entries.clear();
        assert(self@ =~= Seq::<(u64, Delta)>::empty());
    }

    /// Forgets the blocks above `target`.
    pub fn truncate_above(&mut self, target: u64)
        requires
            old(self).wf(),
        ensures
            final(self).wf(),
            final(self).cap == old(self).cap,
            final(self)@ == old(self)@.take(kept(old(self)@, target) as int),
    {
        let ghost before = self@;
        proof {
            kept_bounds(before, target);
            assert(before.take(before.len() as int) =~= before);
        }
        while self.entries.len() > 0 && self.entries[self.entries.len() - 1].height > target
            invariant
                self.cap == old(self).cap,
                self.cap >= 1,
                self.entries@.len() <= self.cap,
                self.entries@.len() <= before.len(),
                self@ == before.take(self.entries@.len() as int),
                kept(self@, target) == kept(before, target),
            decreases self.entries@.len(),
        {
            let ghost longer = self@;
            let _ = self.entries.pop();
            assert(self@ =~= longer.drop_last());
            assert(self@ =~= before.take(self.entries@.len() as int));
        }
        assert(contiguous(before));
    }

    /// Applies the reverse-deltas of the blocks above `target`, from the highest
    /// down. Stops, and returns false, where the store refuses one.
    pub fn undo_above<S: StateStore>(&self, store: &mut S, target: u64) -> (done: bool)
        ensures
            old(store).usable() ==> done && final(store).usable(),
            done ==> final(store).contents() == undo_all(
                old(store).contents(),
                above_target(self@, target),
            ),
    {
        let ghost start = store.contents();
        let ghost sound = store.usable();
        let ghost plan = above_target(self@, target);
        proof {
            kept_bounds(self@, target);
            assert(plan.take(0).len() == 0);
            assert(self@.take(self@.len() as int) =~= self@);
        }
        let mut left: usize = self.entries.len();
        while left > 0 && self.entries[left - 1].height > target
            invariant
                left <= self.entries@.len(),
                plan == above_target(self@, target),
                sound == old(store).usable(),
                kept(self@, target) <= left,
                kept(self@.take(left as int), target) == kept(self@, target),
                sound ==> store.usable(),
                store.contents() == undo_all(start, plan.take(self.entries@.len() - left)),
            decreases left,
        {
            let ghost k = self.entries@.len() - left;
            proof {
                let shown = self@.take(left as int);
                assert(shown.last().0 == self.entries@[left - 1].height);
                assert(shown.drop_last() =~= self@.take(left - 1));
                kept_bounds(self@.take(left - 1), target);
            }
            match store.apply_batch_atomic(&self.entries[left - 1].revert) {
                Ok(_) => {},
                Err(_) => {
                    return false;
                },
            }
            left = left - 1;
            proof {
                assert(plan.take(k + 1).drop_last() =~= plan.take(k));
                assert(plan.take(k + 1).last() == self@[left as int]);
            }
        }
        proof {
            if left > 0 {
                assert(self@.take(left as int).last().0 == self.entries@[left - 1].height);
            }
            assert(plan.take(self.entries@.len() - left) =~= plan);
        }
        true
    }
}

} // verus!
