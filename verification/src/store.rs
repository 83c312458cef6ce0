//! The state store that the engine works on, and the undo records kept in it.
use vstd::prelude::*;
use vstd::slice::slice_subrange;
use vstd::string::*;

use crate::bytes::{be_u64, be_u64_injective, be_u64_value, Digest};
use crate::codec::{
    chain_meta_key_of, decode_chain_meta, decode_eager_revert, decoded_revert, eager_revert_key_of,
    encode_chain_meta, meta_record, recorded_meta,
};
use crate::types::{opt_view, views, views_of_empty, BlockRevert, Delta};

verus! {

/// A key, or a value.
pub type Bytes = Seq<u8>;

/// What a store holds.
pub type Contents = Map<Bytes, Bytes>;

/// A store refused to read or to write.
#[derive(Debug, Clone, Copy, PartialEq, Eq, Structural)]
pub struct StoreError {}

/// A key-value pair handed out by a store.
#[derive(Debug)]
pub struct Record {
    pub key: Vec<u8>,
    pub value: Vec<u8>,
}

/// What is held under `key`.
pub open spec fn lookup(contents: Contents, key: Seq<u8>) -> Option<Seq<u8>> {
    if contents.contains_key(key) {
        Some(contents[key])
    } else {
        None
    }
}

/// `key` starts with `prefix`.
pub open spec fn has_prefix(key: Seq<u8>, prefix: Seq<u8>) -> bool {
    prefix.len() <= key.len() && key.take(prefix.len() as int) == prefix
}

/// `list` holds each pair of `contents` whose key starts with `prefix`, once.
pub open spec fn lists_prefix(list: Seq<Record>, contents: Contents, prefix: Seq<u8>) -> bool {
    &&& forall|i: int|
        0 <= i < list.len() ==> has_prefix((#[trigger] list[i]).key@, prefix) && lookup(
            contents,
            list[i].key@,
        ) == Some(list[i].value@)
    &&& forall|i: int, j: int|
        0 <= i < j < list.len() ==> (#[trigger] list[i]).key@ != (#[trigger] list[j]).key@
    &&& forall|key: Seq<u8>| #[trigger]
        contents.contains_key(key) && has_prefix(key, prefix) ==> exists|i: int|
            0 <= i < list.len() && (#[trigger] list[i]).key@ == key
}

/// A key-value store with a state root.
///
/// A store that is `usable` serves every call and stays usable. One that is not
/// may refuse any call; a refused call changes nothing. The state root is the one
/// of the last `commit_root`.
pub trait StateStore: Sized {
    /// What the store holds.
    spec fn contents(&self) -> Contents;

    /// The committed state root.
    spec fn root(&self) -> Digest;

    /// Whether the store serves every call.
    spec fn usable(&self) -> bool;

    /// The state root of given contents.
    spec fn root_of(contents: Contents) -> Digest;

    /// What the keys of the undo records of eagerly committed blocks start with.
    spec fn eager_prefix_of() -> Bytes;

    /// What the keys of the undo records of eagerly committed blocks start with.
    fn eager_revert_prefix() -> (prefix: Vec<u8>)
        ensures
            prefix@ == Self::eager_prefix_of(),
    ;

    /// What is held under `key`.
    fn get(&self, key: &[u8]) -> (r: Result<Option<Vec<u8>>, StoreError>)
        ensures
            self.usable() ==> r is Ok,
            r matches Ok(v) ==> opt_view(v) == lookup(self.contents(), key@),
    ;

    /// Holds `value` under `key`.
    fn put(&mut self, key: &[u8], value: &[u8]) -> (r: Result<(), StoreError>)
        ensures
            old(self).usable() ==> r is Ok && final(self).usable(),
            r is Ok ==> final(self).contents() == old(self).contents().insert(key@, value@),
            r is Err ==> final(self).contents() == old(self).contents(),
            final(self).root() == old(self).root(),
    ;

    /// Drops what is held under `key`.
    fn delete(&mut self, key: &[u8]) -> (r: Result<(), StoreError>)
        ensures
            old(self).usable() ==> r is Ok && final(self).usable(),
            r is Ok ==> final(self).contents() == old(self).contents().remove(key@),
            r is Err ==> final(self).contents() == old(self).contents(),
            final(self).root() == old(self).root(),
    ;

    /// Makes all writes of `writes`, or none.
    fn apply_batch_atomic(&mut self, writes: &BlockRevert) -> (r: Result<(), StoreError>)
        ensures
            old(self).usable() ==> r is Ok && final(self).usable(),
            r is Ok ==> final(self).contents() == apply_delta(old(self).contents(), writes@),
            r is Err ==> final(self).contents() == old(self).contents() && final(self).root()
                == old(self).root(),
    ;

    /// Brings the state root up to date with the contents.
    fn commit_root(&mut self)
        ensures
            final(self).contents() == old(self).contents(),
            old(self).usable() ==> final(self).usable(),
            final(self).root() == Self::root_of(old(self).contents()),
    ;

    /// The committed state root.
    fn state_root(&self) -> (root: Digest)
        ensures
            root == self.root(),
    ;

    /// All pairs whose key starts with `prefix`.
    fn scan_prefix(&self, prefix: &[u8]) -> (r: Result<Vec<Record>, StoreError>)
        ensures
            self.usable() ==> r is Ok,
            r matches Ok(list) ==> lists_prefix(list@, self.contents(), prefix@),
    ;
}

/// `contents` after one write.
pub open spec fn apply_write(contents: Contents, key: Seq<u8>, value: Option<Seq<u8>>) -> Contents {
    match value {
        Some(v) => contents.insert(key, v),
        None => contents.remove(key),
    }
}

/// `contents` after the writes of `delta`, in order.
pub open spec fn apply_delta(contents: Contents, delta: Delta) -> Contents
    decreases delta.len(),
{
    if delta.len() == 0 {
        contents
    } else {
        apply_write(
            apply_delta(contents, delta.drop_last()),
            delta.last().0,
            delta.last().1,
        )
    }
}

/// `delta` writes to `key`.
pub open spec fn touches(delta: Delta, key: Seq<u8>) -> bool {
    exists|i: int| 0 <= i < delta.len() && (#[trigger] delta[i]).0 == key
}

proof fn delta_decides(a: Contents, b: Contents, delta: Delta, key: Seq<u8>)
    ensures
        touches(delta, key) ==> lookup(apply_delta(a, delta), key) == lookup(
            apply_delta(b, delta),
            key,
        ),
        !touches(delta, key) ==> lookup(apply_delta(a, delta), key) == lookup(a, key),
    decreases delta.len(),
{
    if delta.len() > 0 {
        let shorter = delta.drop_last();
        delta_decides(a, b, shorter, key);
        assert(delta[delta.len() - 1] == delta.last());
        if touches(delta, key) && delta.last().0 != key {
            let i = choose|i: int| 0 <= i < delta.len() && (#[trigger] delta[i]).0 == key;
            assert(shorter[i].0 == key);
        }
        if touches(shorter, key) {
            let i = choose|i: int| 0 <= i < shorter.len() && (#[trigger] shorter[i]).0 == key;
            assert(delta[i].0 == key);
        }
    }
}

/// Applying a reverse-delta is idempotent: undoing a block that was undone already
/// changes nothing.
pub proof fn revert_is_idempotent(contents: Contents, delta: Delta)
    ensures
        apply_delta(apply_delta(contents, delta), delta) == apply_delta(contents, delta),
{
    let once = apply_delta(contents, delta);
    let twice = apply_delta(once, delta);
    assert forall|key: Seq<u8>| #[trigger] lookup(twice, key) == lookup(once, key) by {
        delta_decides(once, contents, delta, key);
    }
    assert forall|key: Seq<u8>| twice.contains_key(key) <==> once.contains_key(key) by {
        assert(lookup(twice, key) == lookup(once, key));
    }
    assert forall|key: Seq<u8>| twice.contains_key(key) implies twice[key] == once[key] by {
        assert(lookup(twice, key) == lookup(once, key));
    }
    assert(twice =~= once);
}

/// Blocks to undo, each with its height and its reverse-delta.
pub type Plan = Seq<(u64, Delta)>;

/// `contents` after the reverse-deltas of `plan`, in order.
pub open spec fn undo_all(contents: Contents, plan: Plan) -> Contents
    decreases plan.len(),
{
    if plan.len() == 0 {
        contents
    } else {
        apply_delta(undo_all(contents, plan.drop_last()), plan.last().1)
    }
}

/// `contents` after those reverse-deltas of `plan` that are `taken`, in order.
pub open spec fn undo_taken(contents: Contents, plan: Plan, taken: Seq<bool>) -> Contents
    decreases plan.len(),
{
    if plan.len() == 0 {
        contents
    } else {
        let rest = undo_taken(contents, plan.drop_last(), taken.drop_last());
        if taken.last() {
            apply_delta(rest, plan.last().1)
        } else {
            rest
        }
    }
}

/// The store went from `before` to `after` by the reverse-deltas of `plan` that are
/// `taken`, and `applied` says whether there was one.
pub open spec fn undone_by(
    before: Contents,
    after: Contents,
    plan: Plan,
    taken: Seq<bool>,
    applied: bool,
) -> bool {
    &&& taken.len() == plan.len()
    &&& after == undo_taken(before, plan, taken)
    &&& applied == taken.contains(true)
}

/// The blocks of `plan` are undone from the highest down.
pub open spec fn newest_first(plan: Plan) -> bool {
    forall|i: int, j: int| 0 <= i < j < plan.len() ==> (#[trigger] plan[i]).0 >= (#[trigger] plan[j]).0
}

/// A block to undo.
#[derive(Debug)]
pub struct Undo {
    pub height: u64,
    pub revert: BlockRevert,
}

impl View for Undo {
    type V = (u64, Delta);

    open spec fn view(&self) -> (u64, Delta) {
        (self.height, self.revert@)
    }
}

/// Puts `undo` into a plan, behind the blocks that are not below it.
pub fn schedule(plan: &mut Vec<Undo>, undo: Undo) -> (at: usize)
    requires
        newest_first(views(old(plan)@)),
    ensures
        newest_first(views(final(plan)@)),
        at <= old(plan)@.len(),
        final(plan)@ == old(plan)@.insert(at as int, undo),
        views(final(plan)@) == views(old(plan)@).insert(at as int, undo@),
{
    let ghost before = plan@;
    let mut at: usize = 0;
    while at < plan.len() && plan[at].height >= undo.height
        invariant
            at <= plan@.len(),
            plan@ == before,
            forall|j: int| 0 <= j < at ==> (#[trigger] plan@[j]).height >= undo.height,
        decreases plan@.len() - at,
    {
        at += 1;
    }
    plan.insert(at, undo);
    proof {
        let old_plan = views(before);
        let new_plan = views(plan@);
        assert(new_plan =~= old_plan.insert(at as int, undo@));
        assert forall|i: int, j: int| 0 <= i < j < new_plan.len() implies (#[trigger] new_plan[i]).0
            >= (#[trigger] new_plan[j]).0 by {
            let i0 = if i < at {
                i
            } else {
                i - 1
            };
            let j0 = if j < at {
                j
            } else {
                j - 1
            };
            if i != at && j != at {
                assert(old_plan[i0].0 >= old_plan[j0].0);
            } else if j == at {
                assert(before[i].height >= undo.height);
            } else {
                assert(old_plan[at as int].0 >= old_plan[j0].0);
            }
        }
    }
    at
}

/// Applies the reverse-deltas of `plan`, in order; one that the store refuses is
/// passed over. Returns whether one was applied.
pub fn undo_plan<S: StateStore>(store: &mut S, plan: &Vec<Undo>) -> (applied: bool)
    ensures
        exists|taken: Seq<bool>| #[trigger]
            undone_by(old(store).contents(), final(store).contents(), views(plan@), taken, applied),
        !applied ==> final(store).contents() == old(store).contents() && final(store).root()
            == old(store).root(),
        old(store).usable() ==> final(store).usable(),
        old(store).usable() ==> applied == (plan@.len() > 0) && final(store).contents()
            == undo_all(old(store).contents(), views(plan@)),
{
    let ghost start = store.contents();
    let ghost sound = store.usable();
    let ghost whole = views(plan@);
    let ghost mut taken: Seq<bool> = Seq::empty();
    let mut applied = false;
    let mut i: usize = 0;
    assert(whole.take(0) =~= Seq::<(u64, Delta)>::empty());
    while i < plan.len()
        invariant
            i <= plan@.len(),
            whole == views(plan@),
            start == old(store).contents(),
            sound ==> store.usable(),
            sound ==> applied == (i > 0),
            sound ==> store.contents() == undo_all(start, whole.take(i as int)),
            undone_by(start, store.contents(), whole.take(i as int), taken, applied),
            !applied ==> store.contents() == start && store.root() == old(store).root(),
        decreases plan@.len() - i,
    {
        let done = match store.apply_batch_atomic(&plan[i].revert) {
            Ok(_) => true,
            Err(_) => false,
        };
        proof {
            let step = whole.take(i + 1);
            assert(step.drop_last() =~= whole.take(i as int));
            assert(step.last() == plan@[i as int]@);
            let longer = taken.push(done);
            assert(longer.drop_last() =~= taken);
            assert(longer.contains(true) == (taken.contains(true) || done)) by {
                assert(longer[taken.len() as int] == done);
                if taken.contains(true) {
                    let k = choose|k: int| 0 <= k < taken.len() && taken[k];
                    assert(longer[k]);
                }
                if longer.contains(true) {
                    let k = choose|k: int| 0 <= k < longer.len() && longer[k];
                    assert(k < taken.len() ==> taken[k]);
                }
            }
            taken = longer;
        }
        applied = applied || done;
        i += 1;
    }
    assert(whole.take(plan@.len() as int) =~= whole);
    assert(undone_by(start, store.contents(), whole, taken, applied));
    applied
}

/// The undo record of the block at `height`, if there is one that decodes.
pub open spec fn durable_record(contents: Contents, prefix: Seq<u8>, height: u64) -> Option<Delta> {
    match lookup(contents, eager_revert_key_of(prefix, height)) {
        Some(data) => decoded_revert(data),
        None => None,
    }
}

/// `plan` lists the block at `height`.
pub open spec fn undoes(plan: Plan, height: u64) -> bool {
    exists|i: int| 0 <= i < plan.len() && (#[trigger] plan[i]).0 == height
}

/// `plan` undoes exactly the blocks above `tip` that have an undo record in
/// `contents`, from the highest down.
pub open spec fn durable_plan(contents: Contents, prefix: Seq<u8>, tip: u64, plan: Plan) -> bool {
    &&& forall|i: int, j: int| 0 <= i < j < plan.len() ==> (#[trigger] plan[i]).0 > (#[trigger] plan[j]).0
    &&& forall|i: int|
        0 <= i < plan.len() ==> (#[trigger] plan[i]).0 > tip && durable_record(
            contents,
            prefix,
            plan[i].0,
        ) == Some(plan[i].1)
    &&& forall|h: u64|
        h > tip && (#[trigger] durable_record(contents, prefix, h)) is Some ==> undoes(plan, h)
}

/// Undoes the eagerly committed blocks above `tip` whose undo records the store
/// holds, from the highest down. Undo records at or below `tip` belong to
/// finalized blocks and are left alone. Returns whether one was applied.
pub fn apply_durable_reverts_above<S: StateStore>(store: &mut S, tip: u64) -> (applied: bool)
    ensures
        !applied ==> final(store).contents() == old(store).contents() && final(store).root() == old(
            store,
        ).root(),
        applied ==> final(store).root() == S::root_of(final(store).contents()),
        applied ==> exists|plan: Plan, taken: Seq<bool>|
            durable_plan(old(store).contents(), S::eager_prefix_of(), tip, plan)
                && #[trigger] undone_by(
                old(store).contents(),
                final(store).contents(),
                plan,
                taken,
                true,
            ),
        old(store).usable() ==> final(store).usable(),
        old(store).usable() ==> exists|plan: Plan| #[trigger]
            durable_plan(old(store).contents(), S::eager_prefix_of(), tip, plan) && applied == (
            plan.len() > 0) && final(store).contents() == undo_all(old(store).contents(), plan),
{
    broadcast use views_of_empty;

    let prefix = S::eager_revert_prefix();
    let records = match store.scan_prefix(prefix.as_slice()) {
        Ok(list) => list,
        Err(_) => {
            return false;
        },
    };
    let ghost contents = store.contents();
    let mut plan: Vec<Undo> = Vec::new();
    let mut i: usize = 0;
    while i < records.len()
        invariant
            i <= records@.len(),
            prefix@ == S::eager_prefix_of(),
            lists_prefix(records@, contents, prefix@),
            newest_first(views(plan@)),
            forall|k: int|
                0 <= k < plan@.len() ==> (#[trigger] plan@[k]).height > tip && durable_record(
                    contents,
                    prefix@,
                    plan@[k].height,
                ) == Some(plan@[k].revert@) && exists|j: int|
                    0 <= j < i && (#[trigger] records@[j]).key@ == eager_revert_key_of(
                        prefix@,
                        plan@[k].height,
                    ),
            forall|k: int, l: int|
                0 <= k < l < plan@.len() ==> (#[trigger] plan@[k]).height != (
                #[trigger] plan@[l]).height,
            forall|j: int, h: u64|
                0 <= j < i && (#[trigger] records@[j]).key@ == #[trigger] eager_revert_key_of(
                    prefix@,
                    h,
                ) && h > tip && durable_record(contents, prefix@, h) is Some ==> undoes(
                    views(plan@),
                    h,
                ),
        decreases records@.len() - i,
    {
        let key = &records[i].key;
        let ghost before = plan@;
        if key.len() - prefix.len() == 8 {
            let suffix = slice_subrange(key.as_slice(), prefix.len(), key.len());
            let height = be_u64_value(suffix);
            proof {
                assert(key@ =~= key@.take(prefix@.len() as int) + suffix@);
                assert(records@[i as int].key@ == eager_revert_key_of(prefix@, height));
                assert forall|h: u64| records@[i as int].key@ == #[trigger] eager_revert_key_of(
                    prefix@,
                    h,
                ) implies h == height by {
                    assert(eager_revert_key_of(prefix@, h).skip(prefix@.len() as int) =~= be_u64(h));
                    assert(eager_revert_key_of(prefix@, height).skip(prefix@.len() as int)
                        =~= be_u64(height));
                    be_u64_injective(h, height);
                }
            }
            if height > tip {
                let decoded = decode_eager_revert(records[i].value.as_slice());
                match decoded {
                    Some(revert) => {
                        let at = schedule(&mut plan, Undo { height, revert });
                        proof {
                            let new = plan@;
                            assert forall|k: int| 0 <= k < new.len() implies (#[trigger] new[k]).height
                                > tip && durable_record(contents, prefix@, new[k].height) == Some(
                                new[k].revert@,
                            ) && exists|j: int|
                                0 <= j < i + 1 && (#[trigger] records@[j]).key@
                                    == eager_revert_key_of(prefix@, new[k].height) by {
                                if k != at {
                                    let k0 = if k < at {
                                        k
                                    } else {
                                        k - 1
                                    };
                                    assert(new[k] == before[k0]);
                                } else {
                                    assert(records@[i as int].key@ == eager_revert_key_of(
                                        prefix@,
                                        height,
                                    ));
                                }
                            }
                            assert forall|k: int| 0 <= k < before.len() implies (
                            #[trigger] before[k]).height != height by {
                                let j = choose|j: int|
                                    0 <= j < i && (#[trigger] records@[j]).key@
                                        == eager_revert_key_of(prefix@, before[k].height);
                                assert(records@[j].key@ != records@[i as int].key@);
                            }
                            assert forall|k: int, l: int| 0 <= k < l < new.len() implies (
                            #[trigger] new[k]).height != (#[trigger] new[l]).height by {
                                let k0 = if k < at {
                                    k
                                } else {
                                    k - 1
                                };
                                let l0 = if l < at {
                                    l
                                } else {
                                    l - 1
                                };
                                if k != at && l != at {
                                    assert(before[k0].height != before[l0].height);
                                } else if l == at {
                                    assert(before[k0].height != height);
                                } else {
                                    assert(before[l0].height != height);
                                }
                            }
                            assert(views(new)[at as int].0 == height);
                            assert forall|j: int, h: u64|
                                0 <= j < i + 1 && (#[trigger] records@[j]).key@
                                    == #[trigger] eager_revert_key_of(prefix@, h) && h > tip
                                    && durable_record(contents, prefix@, h) is Some implies undoes(
                                views(new),
                                h,
                            ) by {
                                if j < i {
                                    let old_plan = views(before);
                                    assert(undoes(old_plan, h));
                                    let k = choose|k: int|
                                        0 <= k < old_plan.len() && (#[trigger] old_plan[k]).0 == h;
                                    let k1 = if k < at {
                                        k
                                    } else {
                                        k + 1
                                    };
                                    assert(views(new)[k1].0 == h);
                                }
                            }
                        }
                    },
                    None => {
                        assert(durable_record(contents, prefix@, height) is None);
                    },
                }
            }
        } else {
            assert forall|h: u64| records@[i as int].key@ != #[trigger] eager_revert_key_of(
                prefix@,
                h,
            ) by {
                assert(eager_revert_key_of(prefix@, h).len() == prefix@.len() + be_u64(h).len());
                vstd::bytes::lemma_auto_spec_u64_to_from_le_bytes();
            }
        }
        i += 1;
    }
    proof {
        let whole = views(plan@);
        assert forall|k: int, l: int| 0 <= k < l < whole.len() implies (#[trigger] whole[k]).0 > (
        #[trigger] whole[l]).0 by {
            assert(plan@[k].height != plan@[l].height);
        }
        assert forall|k: int| 0 <= k < whole.len() implies (#[trigger] whole[k]).0 > tip
            && durable_record(contents, prefix@, whole[k].0) == Some(whole[k].1) by {
            assert(plan@[k].height > tip);
        }
        assert forall|h: u64|
            h > tip && (#[trigger] durable_record(contents, prefix@, h)) is Some implies undoes(
            whole,
            h,
        ) by {
            let key = eager_revert_key_of(prefix@, h);
            assert(key.take(prefix@.len() as int) =~= prefix@);
            assert(contents.contains_key(key) && has_prefix(key, prefix@));
        }
        assert(durable_plan(contents, prefix@, tip, whole));
    }
    if plan.len() == 0 {
        return false;
    }
    if !undo_plan(store, &plan) {
        return false;
    }
    store.commit_root();
    true
}

/// Records the chain's height and epoch.
pub fn save_chain_meta<S: StateStore>(store: &mut S, height: u64, epoch: u64)
    ensures
        old(store).usable() ==> final(store).usable() && final(store).contents() == old(
            store,
        ).contents().insert(chain_meta_key_of(), meta_record(height, epoch)),
        final(store).root() == old(store).root(),
{
    let data = encode_chain_meta(height, epoch);
    let _ = store.put("__chain_meta__".as_bytes(), data.as_slice());
}

/// Reads the chain's height and epoch; both are zero where nothing is recorded.
pub fn load_chain_meta<S: StateStore>(store: &S) -> (meta: (u64, u64))
    ensures
        meta == recorded_meta(lookup(store.contents(), chain_meta_key_of())) || meta == (0u64, 0u64),
        store.usable() ==> meta == recorded_meta(lookup(store.contents(), chain_meta_key_of())),
{
    match store.get("__chain_meta__".as_bytes()) {
        Ok(data) => decode_chain_meta(&data),
        Err(_) => (0, 0),
    }
}

} // verus!
