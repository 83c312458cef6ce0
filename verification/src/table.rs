//! A small keyed table that keeps its entries in insertion order.
//!
//! The engine keys its bookkeeping by height, by height and block hash, or by
//! height and validator; the mathematical model of each table is a map.
use vstd::prelude::*;

use crate::bytes::{same_hash, Digest};

verus! {

/// A key whose equality can be decided and which belongs to a block height.
pub trait TableKey: Copy {
    spec fn height_of(self) -> u64;

    fn same(&self, other: &Self) -> (same: bool)
        ensures
            same == (*self == *other),
    ;

    fn height(&self) -> (h: u64)
        ensures
            h == self.height_of(),
    ;
}

impl TableKey for u64 {
    open spec fn height_of(self) -> u64 {
        self
    }

    fn same(&self, other: &Self) -> (same: bool) {
        *self == *other
    }

    fn height(&self) -> (h: u64) {
        *self
    }
}

/// A block hash or a validator at one height.
#[derive(Clone, Copy, Debug)]
pub struct Slot {
    pub height: u64,
    pub id: Digest,
}

impl TableKey for Slot {
    open spec fn height_of(self) -> u64 {
        self.height
    }

    fn same(&self, other: &Self) -> (same: bool) {
        self.height == other.height && same_hash(&self.id, &other.id)
    }

    fn height(&self) -> (h: u64) {
        self.height
    }
}

/// A finite map from keys to values.
pub struct Table<K, V> {
    pub entries: Vec<(K, V)>,
}

/// Where `k` stands in `s`, if it stands there.
pub open spec fn position<K, V>(s: Seq<(K, V)>, k: K) -> int {
    choose|i: int| 0 <= i < s.len() && (#[trigger] s[i]).0 == k
}

pub open spec fn has_key<K, V>(s: Seq<(K, V)>, k: K) -> bool {
    exists|i: int| 0 <= i < s.len() && (#[trigger] s[i]).0 == k
}

/// No key stands in `s` twice.
pub open spec fn distinct_keys<K, V>(s: Seq<(K, V)>) -> bool {
    forall|i: int, j: int| 0 <= i < j < s.len() ==> (#[trigger] s[i]).0 != (#[trigger] s[j]).0
}

/// The map that a sequence of entries with distinct keys stands for.
pub open spec fn as_map<K, V: View>(s: Seq<(K, V)>) -> Map<K, V::V> {
    Map::new(|k: K| has_key(s, k), |k: K| s[position(s, k)].1@)
}

/// The entries of `m` at heights above `floor`.
pub open spec fn above<K: TableKey, W>(m: Map<K, W>, floor: u64) -> Map<K, W> {
    Map::new(|k: K| m.contains_key(k) && k.height_of() > floor, |k: K| m[k])
}

impl<K: TableKey, V: View> View for Table<K, V> {
    type V = Map<K, V::V>;

    open spec fn view(&self) -> Map<K, V::V> {
        as_map(self.entries@)
    }
}

proof fn map_at<K, V: View>(s: Seq<(K, V)>, i: int)
    requires
        distinct_keys(s),
        0 <= i < s.len(),
    ensures
        as_map(s).contains_key(s[i].0),
        as_map(s)[s[i].0] == s[i].1@,
{
    let k = s[i].0;
    assert(has_key(s, k));
    let p = position(s, k);
    if p < i {
        assert(s[p].0 != s[i].0);
    } else if i < p {
        assert(s[i].0 != s[p].0);
    }
}

proof fn map_after_push<K, V: View>(s: Seq<(K, V)>, k: K, v: V)
    requires
        distinct_keys(s),
        !has_key(s, k),
    ensures
        distinct_keys(s.push((k, v))),
        as_map(s.push((k, v))) == as_map(s).insert(k, v@),
{
    let t = s.push((k, v));
    assert(t[s.len() as int] == (k, v));
    assert forall|i: int, j: int| 0 <= i < j < t.len() implies (#[trigger] t[i]).0 != (
    #[trigger] t[j]).0 by {
        if j == s.len() {
            assert(s[i].0 != k);
        } else {
            assert(s[i].0 != s[j].0);
        }
    }
    let m = as_map(s).insert(k, v@);
    assert forall|q: K| as_map(t).contains_key(q) <==> m.contains_key(q) by {
        if has_key(s, q) {
            let p = position(s, q);
            assert(t[p].0 == q);
        }
        if q == k {
            assert(t[s.len() as int].0 == q);
        }
        if has_key(t, q) && q != k {
            let p = position(t, q);
            assert(s[p].0 == q);
        }
    }
    assert forall|q: K| as_map(t).contains_key(q) implies as_map(t)[q] == m[q] by {
        let p = position(t, q);
        map_at(t, p);
        if q == k {
            map_at(t, s.len() as int);
        } else {
            assert(s[p] == t[p]);
            map_at(s, p);
        }
    }
    assert(as_map(t) =~= m);
}

proof fn map_after_remove<K, V: View>(s: Seq<(K, V)>, i: int)
    requires
        distinct_keys(s),
        0 <= i < s.len(),
    ensures
        distinct_keys(s.remove(i)),
        as_map(s.remove(i)) == as_map(s).remove(s[i].0),
{
    let t = s.remove(i);
    let m = as_map(s).remove(s[i].0);
    assert forall|a: int, b: int| 0 <= a < b < t.len() implies (#[trigger] t[a]).0 != (
    #[trigger] t[b]).0 by {
        let a2 = if a < i {
            a
        } else {
            a + 1
        };
        let b2 = if b < i {
            b
        } else {
            b + 1
        };
        assert(t[a] == s[a2] && t[b] == s[b2]);
    }
    assert forall|q: K| as_map(t).contains_key(q) <==> m.contains_key(q) by {
        if has_key(t, q) {
            let p = position(t, q);
            let p2 = if p < i {
                p
            } else {
                p + 1
            };
            assert(s[p2].0 == q);
            if p2 < i {
                assert(s[p2].0 != s[i].0);
            } else {
                assert(s[i].0 != s[p2].0);
            }
        }
        if has_key(s, q) && q != s[i].0 {
            let p = position(s, q);
            let p2 = if p < i {
                p
            } else {
                p - 1
            };
            assert(t[p2] == s[p]);
        }
    }
    assert forall|q: K| as_map(t).contains_key(q) implies as_map(t)[q] == m[q] by {
        let p = position(t, q);
        let p2 = if p < i {
            p
        } else {
            p + 1
        };
        assert(s[p2] == t[p]);
        map_at(t, p);
        map_at(s, p2);
    }
    assert(as_map(t) =~= m);
}

impl<K: TableKey, V: View> Table<K, V> {
    /// No key is held twice.
    pub open spec fn wf(&self) -> bool {
        distinct_keys(self.entries@)
    }

    /// An empty table.
    pub fn new() -> (t: Self)
        ensures
            t.wf(),
            t@ == Map::<K, V::V>::empty(),
    {
        let t = Table { entries: Vec::new() };
        assert(t@ =~= Map::<K, V::V>::empty());
        t
    }

    /// The number of entries.
    pub fn len(&self) -> (n: usize)
        requires
            self.wf(),
        ensures
            n == self.entries@.len(),
            (n == 0) == (self@ == Map::<K, V::V>::empty()),
    {
        proof {
            if self.entries@.len() == 0 {
                assert(self@ =~= Map::<K, V::V>::empty());
            } else {
                map_at(self.entries@, 0);
            }
        }
        self.entries.len()
    }

    fn find(&self, k: K) -> (at: Option<usize>)
        requires
            self.wf(),
        ensures
            at matches Some(i) ==> i < self.entries@.len() && self.entries@[i as int].0 == k,
            at is None ==> !has_key(self.entries@, k),
    {
        let mut i: usize = 0;
        while i < self.entries.len()
            invariant
                i <= self.entries@.len(),
                forall|j: int| 0 <= j < i ==> (#[trigger] self.entries@[j]).0 != k,
            decreases self.entries@.len() - i,
        {
            if self.entries[i].0.same(&k) {
                return Some(i);
            }
            i += 1;
        }
        None
    }

    /// What is held under `k`.
    pub fn get(&self, k: K) -> (v: Option<&V>)
        requires
            self.wf(),
        ensures
            v is Some <==> self@.contains_key(k),
            v matches Some(x) ==> x@ == self@[k],
    {
        match self.find(k) {
            Some(i) => {
                proof {
                    map_at(self.entries@, i as int);
                }
                Some(&self.entries[i].1)
            },
            None => None,
        }
    }

    /// Whether something is held under `k`.
    pub fn contains(&self, k: K) -> (held: bool)
        requires
            self.wf(),
        ensures
            held == self@.contains_key(k),
    {
        self.get(k).is_some()
    }

    /// Takes out what is held under `k`.
    pub fn remove(&mut self, k: K) -> (v: Option<V>)
        requires
            old(self).wf(),
        ensures
            final(self).wf(),
            final(self)@ == old(self)@.remove(k),
            v is Some <==> old(self)@.contains_key(k),
            v matches Some(x) ==> x@ == old(self)@[k],
    {
        match self.find(k) {
            Some(i) => {
                proof {
                    map_at(self.entries@, i as int);
                    map_after_remove(self.entries@, i as int);
                }
                let (_, v) = self.entries.remove(i);
                Some(v)
            },
            None => {
                assert(self@.remove(k) =~= self@);
                None
            },
        }
    }

    /// Holds `v` under `k`, in place of what was held there.
    pub fn insert(&mut self, k: K, v: V)
        requires
            old(self).wf(),
        ensures
            final(self).wf(),
            final(self)@ == old(self)@.insert(k, v@),
    {
        let ghost before = self@;
        let _ = self.remove(k);
        proof {
            if has_key(self.entries@, k) {
                assert(self@.contains_key(k));
            }
            map_after_push(self.entries@, k, v);
        }
        self.entries.push((k, v));
        assert(self@ =~= before.insert(k, v@));
    }

    /// Drops every entry.
    pub fn clear(&mut self)
        ensures
            final(self).wf(),
            final(self)@ == Map::<K, V::V>::empty(),
    {
        self.entries.clear();
        assert(self@ =~= Map::<K, V::V>::empty());
    }

    /// Drops every entry at or below the height `floor`.
    pub fn retain_above(&mut self, floor: u64)
        requires
            old(self).wf(),
        ensures
            final(self).wf(),
            final(self)@ == above(old(self)@, floor),
    {
        let ghost full = self@;
        let mut i: usize = 0;
        while i < self.entries.len()
            invariant
                i <= self.entries@.len(),
                self.wf(),
                above(self@, floor) == above(full, floor),
                forall|j: int|
                    0 <= j < i ==> (#[trigger] self.entries@[j]).0.height_of() > floor,
            decreases self.entries@.len() - i,
        {
            if self.entries[i].0.height() > floor {
                i += 1;
            } else {
                let ghost before = self@;
                let ghost s = self.entries@;
                proof {
                    map_after_remove(s, i as int);
                }
                let _ = self.entries.remove(i);
                assert(above(self@, floor) =~= above(before, floor));
            }
        }
        assert(above(self@, floor) =~= self@) by {
            assert forall|k: K| self@.contains_key(k) implies k.height_of() > floor by {
                let p = position(self.entries@, k);
                assert(self.entries@[p].0 == k);
            }
        }
    }

    /// An entry is held under its key.
    pub proof fn held(&self, i: int)
        requires
            self.wf(),
            0 <= i < self.entries@.len(),
        ensures
            self@.contains_key(self.entries@[i].0),
            self@[self.entries@[i].0] == self.entries@[i].1@,
    {
        map_at(self.entries@, i);
    }

    /// A held key has an entry, with what is held under it.
    pub proof fn entry_of(&self, k: K) -> (i: int)
        requires
            self.wf(),
            self@.contains_key(k),
        ensures
            0 <= i < self.entries@.len(),
            self.entries@[i].0 == k,
            self.entries@[i].1@ == self@[k],
    {
        position(self.entries@, k)
    }

    /// The key of the entry at `i`.
    pub fn key_at(&self, i: usize) -> (k: K)
        requires
            self.wf(),
            i < self.entries@.len(),
        ensures
            k == self.entries@[i as int].0,
            self@.contains_key(k),
    {
        proof {
            map_at(self.entries@, i as int);
        }
        self.entries[i].0
    }

    /// Takes out the entry at `i`.
    pub fn take_at(&mut self, i: usize) -> (entry: (K, V))
        requires
            old(self).wf(),
            i < old(self).entries@.len(),
        ensures
            final(self).wf(),
            final(self).entries@ == old(self).entries@.remove(i as int),
            entry == old(self).entries@[i as int],
            old(self)@.contains_key(entry.0),
            old(self)@[entry.0] == entry.1@,
            final(self)@ == old(self)@.remove(entry.0),
    {
        proof {
            map_at(self.entries@, i as int);
            map_after_remove(self.entries@, i as int);
        }
        self.entries.remove(i)
    }

    /// The value of the entry at `i`.
    pub fn value_at(&self, i: usize) -> (v: &V)
        requires
            self.wf(),
            i < self.entries@.len(),
        ensures
            *v == self.entries@[i as int].1,
            self@.contains_key(self.entries@[i as int].0),
            v@ == self@[self.entries@[i as int].0],
    {
        proof {
            map_at(self.entries@, i as int);
        }
        &self.entries[i].1
    }
}

} // verus!
