//! A state store in memory, for nodes that keep nothing and for tests.
use vstd::bytes::*;
use vstd::prelude::*;
use vstd::string::*;

use crate::bytes::{append_bytes, copy_bytes, same_bytes, Digest};
use crate::codec::{
    block_key_of, chain_meta_key_of, eager_revert_key_of, finalized_checkpoint_key_of,
    last_attestation_key_of,
};
use crate::crypto::{blake3_digest, blake3_hash};
use crate::store::{apply_delta, has_prefix, lookup, Contents, Record, StateStore, StoreError};
use crate::types::{views, BlockRevert};

verus! {

/// Keys with their values.
pub type Listing = Seq<(Seq<u8>, Seq<u8>)>;

/// `a` comes before `b` in the lexicographic order of their bytes.
pub open spec fn key_before(a: Seq<u8>, b: Seq<u8>) -> bool {
    exists|i: int| #[trigger] differs_at(a, b, i)
}

/// `a` and `b` agree up to `i`, and there `a` is smaller or ends.
pub open spec fn differs_at(a: Seq<u8>, b: Seq<u8>, i: int) -> bool {
    &&& 0 <= i <= a.len()
    &&& i < b.len()
    &&& forall|j: int| 0 <= j < i ==> a[j] == b[j]
    &&& i < a.len() ==> a[i] < b[i]
}

/// The keys stand in ascending order.
pub open spec fn sorted(s: Listing) -> bool {
    forall|i: int, j: int| 0 <= i < j < s.len() ==> key_before((#[trigger] s[i]).0, (#[trigger] s[j]).0)
}

/// `s` lists `key`.
pub open spec fn lists(s: Listing, key: Seq<u8>) -> bool {
    exists|i: int| 0 <= i < s.len() && (#[trigger] s[i]).0 == key
}

/// The contents that `s` lists.
pub open spec fn listed_map(s: Listing) -> Contents {
    Map::new(
        |key: Seq<u8>| lists(s, key),
        |key: Seq<u8>| s[choose|i: int| 0 <= i < s.len() && (#[trigger] s[i]).0 == key].1,
    )
}

/// The ordered list of `contents`.
pub open spec fn listing(contents: Contents) -> Listing {
    choose|s: Listing| sorted(s) && #[trigger] listed_map(s) == contents
}

/// The key counts towards the state root: it is neither a block nor a record of
/// the node's own.
pub open spec fn is_state_key(key: Seq<u8>) -> bool {
    !has_prefix(key, "__".spec_bytes()) && !has_prefix(key, "block/".spec_bytes())
}

/// The state of `s` as bytes: each key and value with its length before it.
pub open spec fn state_bytes(s: Listing) -> Seq<u8>
    decreases s.len(),
{
    if s.len() == 0 {
        Seq::empty()
    } else {
        let rest = state_bytes(s.drop_last());
        if is_state_key(s.last().0) {
            rest + spec_u64_to_le_bytes(s.last().0.len() as u64) + s.last().0
                + spec_u64_to_le_bytes(s.last().1.len() as u64) + s.last().1
        } else {
            rest
        }
    }
}

/// The keys and values of `records`.
pub open spec fn pairs(records: Seq<Record>) -> Listing {
    Seq::new(records.len(), |i: int| (records[i].key@, records[i].value@))
}

proof fn key_order_strict(a: Seq<u8>, b: Seq<u8>)
    ensures
        key_before(a, b) ==> !key_before(b, a),
        !key_before(a, a),
{
    if key_before(a, b) && key_before(b, a) {
        let i = choose|i: int| #[trigger] differs_at(a, b, i);
        let k = choose|k: int| #[trigger] differs_at(b, a, k);
        if i < k {
            assert(b[i] == a[i]);
        } else if k < i {
            assert(a[k] == b[k]);
        }
    }
    if key_before(a, a) {
        let i = choose|i: int| #[trigger] differs_at(a, a, i);
    }
}

proof fn key_order_transitive(a: Seq<u8>, b: Seq<u8>, c: Seq<u8>)
    requires
        key_before(a, b),
        key_before(b, c),
    ensures
        key_before(a, c),
{
    let i = choose|i: int| #[trigger] differs_at(a, b, i);
    let k = choose|k: int| #[trigger] differs_at(b, c, k);
    if i <= k {
        assert(differs_at(a, c, i));
    } else {
        assert(differs_at(a, c, k));
    }
}

proof fn key_order_total(a: Seq<u8>, b: Seq<u8>, i: int)
    requires
        0 <= i <= a.len(),
        i <= b.len(),
        forall|j: int| 0 <= j < i ==> a[j] == b[j],
    ensures
        a == b || key_before(a, b) || key_before(b, a),
    decreases a.len() - i,
{
    if i == a.len() || i == b.len() {
        if a.len() == b.len() {
            assert(a =~= b);
        } else if i == a.len() {
            assert(differs_at(a, b, i));
        } else {
            assert(differs_at(b, a, i));
        }
    } else if a[i] < b[i] {
        assert(differs_at(a, b, i));
    } else if b[i] < a[i] {
        assert(differs_at(b, a, i));
    } else {
        key_order_total(a, b, i + 1);
    }
}

proof fn listed_at(s: Listing, i: int)
    requires
        sorted(s),
        0 <= i < s.len(),
    ensures
        lookup(listed_map(s), s[i].0) == Some(s[i].1),
{
    let key = s[i].0;
    assert(lists(s, key));
    let k = choose|k: int| 0 <= k < s.len() && (#[trigger] s[k]).0 == key;
    key_order_strict(key, key);
    if k < i {
        assert(key_before(s[k].0, s[i].0));
    } else if i < k {
        assert(key_before(s[i].0, s[k].0));
    }
}

/// Two ordered lists of the same contents are the same.
pub proof fn listing_unique(s: Listing, t: Listing)
    requires
        sorted(s),
        sorted(t),
        listed_map(s) == listed_map(t),
    ensures
        s == t,
    decreases s.len(),
{
    if s.len() == 0 {
        if t.len() > 0 {
            listed_at(t, 0);
            assert(lists(s, t[0].0));
        }
        assert(s =~= t);
    } else {
        let n = s.len() - 1;
        listed_at(s, n);
        assert(lists(t, s[n].0));
        let m = t.len() - 1;
        listed_at(t, m);
        assert(lists(s, t[m].0));
        let p = choose|p: int| 0 <= p < t.len() && (#[trigger] t[p]).0 == s[n].0;
        let q = choose|q: int| 0 <= q < s.len() && (#[trigger] s[q]).0 == t[m].0;
        key_order_strict(s[n].0, t[m].0);
        if p < m {
            assert(key_before(t[p].0, t[m].0));
        }
        if q < n {
            assert(key_before(s[q].0, s[n].0));
        }
        assert(s[n].0 == t[m].0);
        listed_at(t, p);
        let s2 = s.drop_last();
        let t2 = t.drop_last();
        listing_prefix(s);
        listing_prefix(t);
        listing_unique(s2, t2);
        assert(s =~= s2.push(s[n]));
        assert(t =~= t2.push(t[m]));
    }
}

proof fn listing_prefix(s: Listing)
    requires
        sorted(s),
        s.len() > 0,
    ensures
        sorted(s.drop_last()),
        listed_map(s.drop_last()) == listed_map(s).remove(s.last().0),
{
    let t = s.drop_last();
    let n = s.len() - 1;
    assert forall|i: int, j: int| 0 <= i < j < t.len() implies key_before(
        (#[trigger] t[i]).0,
        (#[trigger] t[j]).0,
    ) by {
        assert(s[i] == t[i] && s[j] == t[j]);
    }
    let m = listed_map(s).remove(s.last().0);
    assert forall|key: Seq<u8>| listed_map(t).contains_key(key) <==> m.contains_key(key) by {
        if lists(t, key) {
            let i = choose|i: int| 0 <= i < t.len() && (#[trigger] t[i]).0 == key;
            assert(s[i].0 == key);
            assert(key_before(s[i].0, s[n].0));
            key_order_strict(key, key);
        }
        if lists(s, key) && key != s[n].0 {
            let i = choose|i: int| 0 <= i < s.len() && (#[trigger] s[i]).0 == key;
            assert(t[i].0 == key);
        }
    }
    assert forall|key: Seq<u8>| listed_map(t).contains_key(key) implies listed_map(t)[key]
        == m[key] by {
        let i = choose|i: int| 0 <= i < t.len() && (#[trigger] t[i]).0 == key;
        listed_at(t, i);
        assert(s[i] == t[i]);
        listed_at(s, i);
    }
    assert(listed_map(t) =~= m);
}

proof fn listing_of_sorted(s: Listing)
    requires
        sorted(s),
    ensures
        listing(listed_map(s)) == s,
{
    let t = listing(listed_map(s));
    assert(sorted(s) && listed_map(s) == listed_map(s));
    listing_unique(s, t);
}

/// The entries of `s` that count towards the state root.
pub open spec fn state_part(s: Listing) -> Listing {
    s.filter(|e: (Seq<u8>, Seq<u8>)| is_state_key(e.0))
}

/// The entries that count are in order, and the bytes of the state are theirs.
pub proof fn state_part_sound(s: Listing)
    requires
        sorted(s),
    ensures
        sorted(state_part(s)),
        state_bytes(state_part(s)) == state_bytes(s),
    decreases s.len(),
{
    reveal(Seq::filter);
    if s.len() > 0 {
        let shorter = s.drop_last();
        let last = s.last();
        let part = state_part(shorter);
        listing_prefix(s);
        state_part_sound(shorter);
        if is_state_key(last.0) {
            let longer = part.push(last);
            assert(longer.drop_last() =~= part);
            crate::lists::filter_within(
                shorter,
                |e: (Seq<u8>, Seq<u8>)| is_state_key(e.0),
            );
            assert forall|i: int, j: int| 0 <= i < j < longer.len() implies key_before(
                (#[trigger] longer[i]).0,
                (#[trigger] longer[j]).0,
            ) by {
                assert(longer[i] == part[i]);
                if j < part.len() {
                    assert(longer[j] == part[j]);
                } else {
                    assert(shorter.contains(part[i]));
                    let k = choose|k: int| 0 <= k < shorter.len() && shorter[k] == part[i];
                    assert(key_before(s[k].0, s[s.len() - 1].0));
                }
            }
        }
    }
}

proof fn state_part_holds(s: Listing, key: Seq<u8>)
    requires
        sorted(s),
    ensures
        lookup(listed_map(state_part(s)), key) == if is_state_key(key) {
            lookup(listed_map(s), key)
        } else {
            None
        },
{
    let p = |e: (Seq<u8>, Seq<u8>)| is_state_key(e.0);
    let part = state_part(s);
    state_part_sound(s);
    crate::lists::filter_within(s, p);
    if lists(part, key) {
        let i = choose|i: int| 0 <= i < part.len() && (#[trigger] part[i]).0 == key;
        listed_at(part, i);
        assert(p(part[i]) && s.contains(part[i]));
        let k = choose|k: int| 0 <= k < s.len() && s[k] == part[i];
        listed_at(s, k);
    } else if is_state_key(key) && lists(s, key) {
        let k = choose|k: int| 0 <= k < s.len() && (#[trigger] s[k]).0 == key;
        crate::lists::filter_keeps(s, p, k);
        let i = choose|i: int| 0 <= i < part.len() && part[i] == s[k];
        assert(part[i].0 == key);
    }
}

/// The root is that of the state alone: where two contents agree on every key that
/// counts, they have the same root, whatever else is recorded beside the state.
pub proof fn root_depends_on_state_alone(s: Listing, t: Listing)
    requires
        sorted(s),
        sorted(t),
        forall|key: Seq<u8>|
            is_state_key(key) ==> #[trigger] lookup(listed_map(s), key) == lookup(
                listed_map(t),
                key,
            ),
    ensures
        MemoryStore::root_of(listed_map(s)) == MemoryStore::root_of(listed_map(t)),
{
    let a = state_part(s);
    let b = state_part(t);
    state_part_sound(s);
    state_part_sound(t);
    assert forall|key: Seq<u8>| #[trigger] lookup(listed_map(a), key) == lookup(
        listed_map(b),
        key,
    ) by {
        state_part_holds(s, key);
        state_part_holds(t, key);
        assert(is_state_key(key) ==> lookup(listed_map(s), key) == lookup(listed_map(t), key));
    }
    assert(listed_map(a) =~= listed_map(b)) by {
        assert forall|key: Seq<u8>| listed_map(a).contains_key(key) <==> listed_map(
            b,
        ).contains_key(key) by {
            assert(lookup(listed_map(a), key) == lookup(listed_map(b), key));
        }
        assert forall|key: Seq<u8>| listed_map(a).contains_key(key) implies listed_map(a)[key]
            == listed_map(b)[key] by {
            assert(lookup(listed_map(a), key) == lookup(listed_map(b), key));
        }
    }
    listing_unique(a, b);
    listing_of_sorted(s);
    listing_of_sorted(t);
}

/// What the engine records besides the state does not count towards the root: the
/// chain's height and epoch, the last attested block, the last finalized
/// checkpoint, blocks and undo records.
pub proof fn engine_records_are_no_state(height: u64)
    ensures
        !is_state_key(chain_meta_key_of()),
        !is_state_key(last_attestation_key_of()),
        !is_state_key(finalized_checkpoint_key_of()),
        !is_state_key(block_key_of(height)),
        !is_state_key(eager_revert_key_of(MemoryStore::eager_prefix_of(), height)),
{
    broadcast use is_ascii_spec_bytes;

    reveal_strlit("__");
    reveal_strlit("__chain_meta__");
    reveal_strlit("__last_attestation__");
    reveal_strlit("__finalized_checkpoint__");
    reveal_strlit("__eager_revert__/");
    assert(is_ascii("__"));
    assert(is_ascii("__chain_meta__"));
    assert(is_ascii("__last_attestation__"));
    assert(is_ascii("__finalized_checkpoint__"));
    assert(is_ascii("__eager_revert__/"));
    let own = "__".spec_bytes();
    assert(chain_meta_key_of().take(2) =~= own);
    assert(last_attestation_key_of().take(2) =~= own);
    assert(finalized_checkpoint_key_of().take(2) =~= own);
    let undo = MemoryStore::eager_prefix_of();
    assert(eager_revert_key_of(undo, height).take(2) =~= own);
    let name = "block/".spec_bytes();
    assert(block_key_of(height).take(name.len() as int) =~= name);
}

/// The keys of undo records are of their own kind: neither a block nor the record of
/// the chain's height is stored under one of them.
pub proof fn undo_keys_apart(height: u64, other: u64)
    ensures
        eager_revert_key_of(MemoryStore::eager_prefix_of(), height) != block_key_of(other),
        eager_revert_key_of(MemoryStore::eager_prefix_of(), height) != chain_meta_key_of(),
{
    broadcast use is_ascii_spec_bytes;

    reveal_strlit("block/");
    reveal_strlit("__chain_meta__");
    reveal_strlit("__eager_revert__/");
    assert(is_ascii("block/"));
    assert(is_ascii("__chain_meta__"));
    assert(is_ascii("__eager_revert__/"));
    let key = eager_revert_key_of(MemoryStore::eager_prefix_of(), height);
    assert(key[0] == 95u8 && key[2] == 101u8);
    assert(block_key_of(other)[0] == 98u8);
    assert(chain_meta_key_of()[2] == 99u8);
}

/// Whether `a` comes before `b` in byte order.
fn key_less(a: &[u8], b: &[u8]) -> (less: bool)
    ensures
        less == key_before(a@, b@),
{
    let mut i: usize = 0;
    while i < a.len() && i < b.len()
        invariant
            i <= a@.len(),
            i <= b@.len(),
            forall|j: int| 0 <= j < i ==> a@[j] == b@[j],
        decreases a@.len() - i,
    {
        if a[i] < b[i] {
            assert(differs_at(a@, b@, i as int));
            return true;
        }
        if b[i] < a[i] {
            proof {
                assert(differs_at(b@, a@, i as int));
                key_order_strict(b@, a@);
            }
            return false;
        }
        i += 1;
    }
    if i < b.len() {
        assert(differs_at(a@, b@, i as int));
        return true;
    }
    proof {
        if a@.len() == b@.len() {
            assert(a@ =~= b@);
            key_order_strict(a@, a@);
        } else {
            assert(differs_at(b@, a@, i as int));
            key_order_strict(b@, a@);
        }
    }
    false
}

/// Whether `key` starts with `prefix`.
fn starts_with(key: &[u8], prefix: &[u8]) -> (starts: bool)
    ensures
        starts == has_prefix(key@, prefix@),
{
    if key.len() < prefix.len() {
        return false;
    }
    let mut i: usize = 0;
    while i < prefix.len()
        invariant
            i <= prefix@.len(),
            prefix@.len() <= key@.len(),
            forall|j: int| 0 <= j < i ==> key@[j] == prefix@[j],
        decreases prefix@.len() - i,
    {
        if key[i] != prefix[i] {
            assert(key@.take(prefix@.len() as int)[i as int] != prefix@[i as int]);
            return false;
        }
        i += 1;
    }
    assert(key@.take(prefix@.len() as int) =~= prefix@);
    true
}

/// Where `key` stands in an ordered list, or would stand.
fn place_of(records: &Vec<Record>, key: &[u8]) -> (place: (usize, bool))
    requires
        sorted(pairs(records@)),
    ensures
        place.0 <= records@.len(),
        forall|j: int| 0 <= j < place.0 ==> key_before((#[trigger] records@[j]).key@, key@),
        place.1 ==> place.0 < records@.len() && records@[place.0 as int].key@ == key@,
        !place.1 ==> !lists(pairs(records@), key@) && forall|j: int|
            place.0 <= j < records@.len() ==> key_before(key@, (#[trigger] records@[j]).key@),
{
    let mut i: usize = 0;
    while i < records.len() && key_less(records[i].key.as_slice(), key)
        invariant
            i <= records@.len(),
            forall|j: int| 0 <= j < i ==> key_before((#[trigger] records@[j]).key@, key@),
        decreases records@.len() - i,
    {
        i += 1;
    }
    let found = i < records.len() && same_bytes(records[i].key.as_slice(), key);
    proof {
        let s = pairs(records@);
        if !found {
            assert forall|j: int| i <= j < records@.len() implies key_before(
                key@,
                (#[trigger] records@[j]).key@,
            ) by {
                key_order_total(key@, records@[i as int].key@, 0);
                if j > i {
                    assert(key_before(s[i as int].0, s[j].0));
                    key_order_transitive(key@, s[i as int].0, s[j].0);
                }
            }
            assert(!lists(s, key@)) by {
                if lists(s, key@) {
                    let j = choose|j: int| 0 <= j < s.len() && (#[trigger] s[j]).0 == key@;
                    key_order_strict(key@, key@);
                    assert(records@[j].key@ == key@);
                }
            }
        }
    }
    (i, found)
}

/// Holds `value` under `key`.
fn put_record(records: &mut Vec<Record>, key: &[u8], value: &[u8])
    requires
        sorted(pairs(old(records)@)),
    ensures
        sorted(pairs(final(records)@)),
        listed_map(pairs(final(records)@)) == listed_map(pairs(old(records)@)).insert(key@, value@),
{
    let ghost s = pairs(records@);
    let (at, found) = place_of(records, key);
    let record = Record { key: copy_bytes(key), value: copy_bytes(value) };
    let ghost entry = (key@, value@);
    if found {
        records.set(at, record);
        assert(pairs(records@) =~= s.update(at as int, entry));
    } else {
        records.insert(at, record);
        assert(pairs(records@) =~= s.insert(at as int, entry));
    }
    proof {
        let t = pairs(records@);
        let m = listed_map(s).insert(key@, value@);
        assert(t[at as int] == entry);
        assert forall|i: int, j: int| 0 <= i < j < t.len() implies key_before(
            (#[trigger] t[i]).0,
            (#[trigger] t[j]).0,
        ) by {
            let i0 = if found || i < at {
                i
            } else {
                i - 1
            };
            let j0 = if found || j < at {
                j
            } else {
                j - 1
            };
            if i != at && j != at {
                assert(key_before(s[i0].0, s[j0].0));
            } else if found {
                assert(key_before(s[i].0, s[j].0));
            }
        }
        assert forall|q: Seq<u8>| listed_map(t).contains_key(q) <==> m.contains_key(q) by {
            if lists(t, q) && q != key@ {
                let i = choose|i: int| 0 <= i < t.len() && (#[trigger] t[i]).0 == q;
                let i0 = if found || i < at {
                    i
                } else {
                    i - 1
                };
                assert(s[i0].0 == q);
            }
            if lists(s, q) {
                let i = choose|i: int| 0 <= i < s.len() && (#[trigger] s[i]).0 == q;
                let i1 = if found || i < at {
                    i
                } else {
                    i + 1
                };
                assert(t[i1].0 == q);
            }
        }
        assert forall|q: Seq<u8>| listed_map(t).contains_key(q) implies listed_map(t)[q] == m[q] by {
            let i = choose|i: int| 0 <= i < t.len() && (#[trigger] t[i]).0 == q;
            listed_at(t, i);
            if q == key@ {
                listed_at(t, at as int);
            } else {
                let i0 = if found || i < at {
                    i
                } else {
                    i - 1
                };
                assert(s[i0] == t[i]);
                listed_at(s, i0);
            }
        }
        assert(listed_map(t) =~= m);
    }
}

/// Drops what is held under `key`.
fn drop_record(records: &mut Vec<Record>, key: &[u8])
    requires
        sorted(pairs(old(records)@)),
    ensures
        sorted(pairs(final(records)@)),
        listed_map(pairs(final(records)@)) == listed_map(pairs(old(records)@)).remove(key@),
{
    let ghost s = pairs(records@);
    let (at, found) = place_of(records, key);
    if !found {
        assert(listed_map(s).remove(key@) =~= listed_map(s));
        return;
    }
    let _ = records.remove(at);
    proof {
        let t = pairs(records@);
        assert(t =~= s.remove(at as int));
        let m = listed_map(s).remove(key@);
        assert forall|i: int, j: int| 0 <= i < j < t.len() implies key_before(
            (#[trigger] t[i]).0,
            (#[trigger] t[j]).0,
        ) by {
            let i0 = if i < at {
                i
            } else {
                i + 1
            };
            let j0 = if j < at {
                j
            } else {
                j + 1
            };
            assert(key_before(s[i0].0, s[j0].0));
        }
        assert forall|q: Seq<u8>| listed_map(t).contains_key(q) <==> m.contains_key(q) by {
            if lists(t, q) {
                let i = choose|i: int| 0 <= i < t.len() && (#[trigger] t[i]).0 == q;
                let i0 = if i < at {
                    i
                } else {
                    i + 1
                };
                assert(s[i0].0 == q);
                key_order_strict(q, q);
                if i0 < at {
                    assert(key_before(s[i0].0, s[at as int].0));
                } else {
                    assert(key_before(s[at as int].0, s[i0].0));
                }
            }
            if lists(s, q) && q != key@ {
                let i = choose|i: int| 0 <= i < s.len() && (#[trigger] s[i]).0 == q;
                let i1 = if i < at {
                    i
                } else {
                    i - 1
                };
                assert(t[i1].0 == q);
            }
        }
        assert forall|q: Seq<u8>| listed_map(t).contains_key(q) implies listed_map(t)[q] == m[q] by {
            let i = choose|i: int| 0 <= i < t.len() && (#[trigger] t[i]).0 == q;
            let i0 = if i < at {
                i
            } else {
                i + 1
            };
            assert(m.contains_key(q));
            assert(s[i0] == t[i]);
            listed_at(t, i);
            listed_at(s, i0);
        }
        assert(listed_map(t) =~= m);
    }
}

/// The root of the state in `records`.
fn root_of_records(records: &Vec<Record>) -> (root: Digest)
    requires
        sorted(pairs(records@)),
    ensures
        root == MemoryStore::root_of(listed_map(pairs(records@))),
{
    let ghost s = pairs(records@);
    let mut out: Vec<u8> = Vec::new();
    let mut i: usize = 0;
    assert(s.take(0).len() == 0);
    while i < records.len()
        invariant
            i <= records@.len(),
            s == pairs(records@),
            out@ == state_bytes(s.take(i as int)),
        decreases records@.len() - i,
    {
        let key = &records[i].key;
        let value = &records[i].value;
        proof {
            let next = s.take(i + 1);
            assert(next.drop_last() =~= s.take(i as int));
            assert(next.last() == (key@, value@));
        }
        if !starts_with(key.as_slice(), "__".as_bytes()) && !starts_with(
            key.as_slice(),
            "block/".as_bytes(),
        ) {
            append_bytes(&mut out, u64_to_le_bytes(key.len() as u64).as_slice());
            append_bytes(&mut out, key.as_slice());
            append_bytes(&mut out, u64_to_le_bytes(value.len() as u64).as_slice());
            append_bytes(&mut out, value.as_slice());
        }
        i += 1;
    }
    proof {
        assert(s.take(i as int) =~= s);
        listing_of_sorted(s);
    }
    blake3_hash(out.as_slice())
}

/// A state store in memory.
#[derive(Debug)]
pub struct MemoryStore {
    records: Vec<Record>,
    root: Digest,
}

impl MemoryStore {
    #[verifier::type_invariant]
    spec fn in_order(self) -> bool {
        sorted(pairs(self.records@))
    }

    /// An empty store.
    pub fn new() -> (store: Self)
        ensures
            store.contents() == Map::<Seq<u8>, Seq<u8>>::empty(),
            store.root() == Self::root_of(store.contents()),
    {
        let records: Vec<Record> = Vec::new();
        let root = root_of_records(&records);
        let store = MemoryStore { records, root };
        assert(store.contents() =~= Map::<Seq<u8>, Seq<u8>>::empty());
        store
    }
}

impl StateStore for MemoryStore {
    closed spec fn contents(&self) -> Contents {
        listed_map(pairs(self.records@))
    }

    closed spec fn root(&self) -> Digest {
        self.root
    }

    open spec fn usable(&self) -> bool {
        true
    }

    open spec fn root_of(contents: Contents) -> Digest {
        blake3_digest(state_bytes(listing(contents)))
    }

    open spec fn eager_prefix_of() -> Seq<u8> {
        "__eager_revert__/".spec_bytes()
    }

    fn eager_revert_prefix() -> (prefix: Vec<u8>) {
        copy_bytes("__eager_revert__/".as_bytes())
    }

    fn get(&self, key: &[u8]) -> (r: Result<Option<Vec<u8>>, StoreError>) {
        proof {
            use_type_invariant(self);
        }
        let (at, found) = place_of(&self.records, key);
        if found {
            proof {
                listed_at(pairs(self.records@), at as int);
            }
            Ok(Some(copy_bytes(self.records[at].value.as_slice())))
        } else {
            Ok(None)
        }
    }

    fn put(&mut self, key: &[u8], value: &[u8]) -> (r: Result<(), StoreError>) {
        proof {
            use_type_invariant(&*self);
        }
        let mut records: Vec<Record> = Vec::new();
        std::mem::swap(&mut records, &mut self.records);
        put_record(&mut records, key, value);
        self.records = records;
        Ok(())
    }

    fn delete(&mut self, key: &[u8]) -> (r: Result<(), StoreError>) {
        proof {
            use_type_invariant(&*self);
        }
        let mut records: Vec<Record> = Vec::new();
        std::mem::swap(&mut records, &mut self.records);
        drop_record(&mut records, key);
        self.records = records;
        Ok(())
    }

    fn apply_batch_atomic(&mut self, writes: &BlockRevert) -> (r: Result<(), StoreError>) {
        proof {
            use_type_invariant(&*self);
        }
        let ghost start = self.contents();
        let ghost delta = writes@;
        let mut records: Vec<Record> = Vec::new();
        std::mem::swap(&mut records, &mut self.records);
        let mut i: usize = 0;
        assert(delta.take(0).len() == 0);
        while i < writes.entries.len()
            invariant
                i <= writes.entries@.len(),
                delta == views(writes.entries@),
                sorted(pairs(records@)),
                listed_map(pairs(records@)) == apply_delta(start, delta.take(i as int)),
            decreases writes.entries@.len() - i,
        {
            proof {
                let next = delta.take(i + 1);
                assert(next.drop_last() =~= delta.take(i as int));
                assert(next.last() == writes.entries@[i as int]@);
            }
            match &writes.entries[i].value {
                Some(value) => {
                    put_record(&mut records, writes.entries[i].key.as_slice(), value.as_slice());
                },
                None => {
                    drop_record(&mut records, writes.entries[i].key.as_slice());
                },
            }
            i += 1;
        }
        assert(delta.take(i as int) =~= delta);
        self.records = records;
        Ok(())
    }

    fn commit_root(&mut self) {
        proof {
            use_type_invariant(&*self);
        }
        let root = root_of_records(&self.records);
        self.root = root;
    }

    fn state_root(&self) -> (root: Digest) {
        self.root
    }

    fn scan_prefix(&self, prefix: &[u8]) -> (r: Result<Vec<Record>, StoreError>) {
        proof {
            use_type_invariant(self);
        }
        let ghost s = pairs(self.records@);
        let mut list: Vec<Record> = Vec::new();
        let mut i: usize = 0;
        while i < self.records.len()
            invariant
                i <= self.records@.len(),
                s == pairs(self.records@),
                sorted(s),
                forall|k: int|
                    0 <= k < list@.len() ==> has_prefix((#[trigger] list@[k]).key@, prefix@)
                        && lookup(listed_map(s), list@[k].key@) == Some(list@[k].value@) && (i
                        < s.len() ==> key_before(list@[k].key@, s[i as int].0)),
                forall|k: int, l: int|
                    0 <= k < l < list@.len() ==> (#[trigger] list@[k]).key@ != (
                    #[trigger] list@[l]).key@,
                forall|j: int|
                    0 <= j < i && has_prefix((#[trigger] s[j]).0, prefix@) ==> exists|k: int|
                        0 <= k < list@.len() && (#[trigger] list@[k]).key@ == s[j].0,
            decreases self.records@.len() - i,
        {
            let ghost before = list@;
            let record = &self.records[i];
            proof {
                listed_at(s, i as int);
                if i + 1 < s.len() {
                    assert(key_before(s[i as int].0, s[i + 1].0));
                    assert forall|k: int| 0 <= k < before.len() implies key_before(
                        (#[trigger] before[k]).key@,
                        s[i + 1].0,
                    ) by {
                        key_order_transitive(before[k].key@, s[i as int].0, s[i + 1].0);
                    }
                }
            }
            if starts_with(record.key.as_slice(), prefix) {
                list.push(
                    Record {
                        key: copy_bytes(record.key.as_slice()),
                        value: copy_bytes(record.value.as_slice()),
                    },
                );
                proof {
                    let new = list@;
                    assert(new[before.len() as int].key@ == s[i as int].0);
                    assert forall|k: int, l: int| 0 <= k < l < new.len() implies (
                    #[trigger] new[k]).key@ != (#[trigger] new[l]).key@ by {
                        assert(new[k] == before[k]);
                        if l < before.len() {
                            assert(new[l] == before[l]);
                        } else {
                            key_order_strict(before[k].key@, before[k].key@);
                        }
                    }
                    assert forall|j: int|
                        0 <= j < i + 1 && has_prefix(
                            (#[trigger] s[j]).0,
                            prefix@,
                        ) implies exists|k: int|
                        0 <= k < new.len() && (#[trigger] new[k]).key@ == s[j].0 by {
                        if j < i {
                            let k = choose|k: int|
                                0 <= k < before.len() && (#[trigger] before[k]).key@ == s[j].0;
                            assert(new[k].key@ == s[j].0);
                        }
                    }
                }
            }
            i += 1;
        }
        proof {
            assert forall|key: Seq<u8>| #[trigger]
                self.contents().contains_key(key) && has_prefix(key, prefix@) implies exists|k: int|
                0 <= k < list@.len() && (#[trigger] list@[k]).key@ == key by {
                let j = choose|j: int| 0 <= j < s.len() && (#[trigger] s[j]).0 == key;
                assert(has_prefix(s[j].0, prefix@));
            }
        }
        Ok(list)
    }
}

} // verus!
