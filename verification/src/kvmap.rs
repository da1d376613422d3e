//! A small verified key-value map over `u64` keys, backed by a vector of
//! entries with pairwise-distinct keys.
//!
//! The ledgers use one `KvMap` per record family (balances, owners,
//! allowances, ...).  Its abstract value is a `Map<u64, V>` (the view `@`);
//! the underlying entry sequence `kvs()` is also exposed so that callers can
//! reason about aggregates such as the sum of all stored balances.

use vstd::prelude::*;

verus! {

/// Composes a single `u64` storage key out of two `u32` components
/// (for example an owner and a spender account).
pub open spec fn spec_pair_key(a: u32, b: u32) -> u64 {
    ((a as int) * 0x1_0000_0000 + (b as int)) as u64
}

/// Executable form of [`spec_pair_key`].
#[verifier::when_used_as_spec(spec_pair_key)]
pub fn pair_key(a: u32, b: u32) -> (r: u64)
    ensures
        r == spec_pair_key(a, b),
{
    (a as u64) * 0x1_0000_0000u64 + (b as u64)
}

/// Distinct component pairs compose to distinct keys, so records of one
/// pair never alias records of another.
pub proof fn lemma_pair_key_injective()
    ensures
        forall|a1: u32, b1: u32, a2: u32, b2: u32|
            #[trigger] spec_pair_key(a1, b1) == #[trigger] spec_pair_key(a2, b2) ==> (a1 == a2 && b1
                == b2),
{
}

/// A map from `u64` keys to copyable values, stored as an association
/// vector whose keys are pairwise distinct.
pub struct KvMap<V> {
    entries: Vec<(u64, V)>,
}

spec fn map_of<V>(s: Seq<(u64, V)>) -> Map<u64, V>
    decreases s.len(),
{
    if s.len() == 0 {
        Map::empty()
    } else {
        map_of(s.drop_last()).insert(s.last().0, s.last().1)
    }
}

spec fn distinct_keys<V>(s: Seq<(u64, V)>) -> bool {
    forall|i: int, j: int| 0 <= i < j < s.len() ==> s[i].0 != s[j].0
}

proof fn lemma_map_of_contains<V>(s: Seq<(u64, V)>, k: u64)
    ensures
        map_of(s).contains_key(k) <==> exists|i: int| 0 <= i < s.len() && s[i].0 == k,
    decreases s.len(),
{
    if s.len() > 0 {
        lemma_map_of_contains(s.drop_last(), k);
        if map_of(s).contains_key(k) {
            if s.last().0 == k {
                assert(s[s.len() - 1].0 == k);
            } else {
                let i = choose|i: int| 0 <= i < s.drop_last().len() && s.drop_last()[i].0 == k;
                assert(s[i].0 == k);
            }
        }
        if exists|i: int| 0 <= i < s.len() && s[i].0 == k {
            let i = choose|i: int| 0 <= i < s.len() && s[i].0 == k;
            if i < s.len() - 1 {
                assert(s.drop_last()[i].0 == k);
            }
        }
    }
}

proof fn lemma_map_of_index<V>(s: Seq<(u64, V)>, i: int)
    requires
        distinct_keys(s),
        0 <= i < s.len(),
    ensures
        map_of(s).contains_key(s[i].0),
        map_of(s)[s[i].0] == s[i].1,
    decreases s.len(),
{
    if i == s.len() - 1 {
        lemma_map_of_contains(s, s[i].0);
    } else {
        lemma_map_of_index(s.drop_last(), i);
        assert(s.drop_last()[i] == s[i]);
        assert(s.last().0 != s[i].0);
    }
}

proof fn lemma_map_of_push<V>(s: Seq<(u64, V)>, k: u64, v: V)
    ensures
        map_of(s.push((k, v))) == map_of(s).insert(k, v),
{
    assert(s.push((k, v)).drop_last() =~= s);
    assert(s.push((k, v)).last() == (k, v));
}

proof fn lemma_map_of_update<V>(s: Seq<(u64, V)>, i: int, k: u64, v: V)
    requires
        distinct_keys(s),
        0 <= i < s.len(),
        s[i].0 == k,
    ensures
        map_of(s.update(i, (k, v))) == map_of(s).insert(k, v),
        distinct_keys(s.update(i, (k, v))),
    decreases s.len(),
{
    let t = s.update(i, (k, v));
    if i == s.len() - 1 {
        assert(t.drop_last() =~= s.drop_last());
        assert(map_of(t) == map_of(s.drop_last()).insert(k, v));
        assert(map_of(s.drop_last()).insert(k, s.last().1).insert(k, v) =~= map_of(
            s.drop_last(),
        ).insert(k, v));
    } else {
        assert(t.drop_last() =~= s.drop_last().update(i, (k, v)));
        lemma_map_of_update(s.drop_last(), i, k, v);
        assert(s.last().0 != k);
        assert(map_of(s.drop_last()).insert(k, v).insert(s.last().0, s.last().1) =~= map_of(
            s.drop_last(),
        ).insert(s.last().0, s.last().1).insert(k, v));
        assert(t.last() == s.last());
    }
}

proof fn lemma_map_of_remove<V>(s: Seq<(u64, V)>, i: int)
    requires
        distinct_keys(s),
        0 <= i < s.len(),
    ensures
        map_of(s.remove(i)) == map_of(s).remove(s[i].0),
        distinct_keys(s.remove(i)),
    decreases s.len(),
{
    let k = s[i].0;
    let t = s.remove(i);
    if i == s.len() - 1 {
        assert(t =~= s.drop_last());
        lemma_map_of_contains(s.drop_last(), k);
        assert(map_of(s.drop_last()) =~= map_of(s.drop_last()).insert(k, s.last().1).remove(k));
    } else {
        assert(t.drop_last() =~= s.drop_last().remove(i));
        lemma_map_of_remove(s.drop_last(), i);
        assert(s.last().0 != k);
        assert(t.last() == s.last());
        assert(map_of(s.drop_last()).remove(k).insert(s.last().0, s.last().1) =~= map_of(
            s.drop_last(),
        ).insert(s.last().0, s.last().1).remove(k));
    }
}

impl<V> View for KvMap<V> {
    type V = Map<u64, V>;

    closed spec fn view(&self) -> Map<u64, V> {
        map_of(self.entries@)
    }
}

impl<V: Copy> KvMap<V> {
    /// The underlying entry sequence, in storage order.
    pub closed spec fn kvs(&self) -> Seq<(u64, V)> {
        self.entries@
    }

    /// Well-formed: keys are pairwise distinct.
    pub closed spec fn wf(&self) -> bool {
        distinct_keys(self.entries@)
    }

    /// Relates the entry sequence to the abstract map: keys are distinct,
    /// every entry is in the map, and every map binding has an entry.
    pub proof fn lemma_kvs_view(&self)
        requires
            self.wf(),
        ensures
            forall|i: int, j: int| 0 <= i < j < self.kvs().len() ==> self.kvs()[i].0
                != self.kvs()[j].0,
            forall|i: int| 0 <= i < self.kvs().len() ==> self@.contains_key(#[trigger] self.kvs()[i].0)
                && self@[self.kvs()[i].0] == self.kvs()[i].1,
            forall|k: u64| #[trigger] self@.contains_key(k) ==> exists|i: int|
                0 <= i < self.kvs().len() && self.kvs()[i] == (k, self@[k]),
    {
        assert forall|i: int| 0 <= i < self.kvs().len() implies self@.contains_key(
            #[trigger] self.kvs()[i].0,
        ) && self@[self.kvs()[i].0] == self.kvs()[i].1 by {
            lemma_map_of_index(self.entries@, i);
        }
        assert forall|k: u64| #[trigger] self@.contains_key(k) implies exists|i: int|
            0 <= i < self.kvs().len() && self.kvs()[i] == (k, self@[k]) by {
            lemma_map_of_contains(self.entries@, k);
            let i = choose|i: int| 0 <= i < self.entries@.len() && self.entries@[i].0 == k;
            lemma_map_of_index(self.entries@, i);
            assert(self.kvs()[i] == (k, self@[k]));
        }
    }

    /// Creates an empty map.
    pub fn new() -> (r: Self)
        ensures
            r.wf(),
            r@ == Map::<u64, V>::empty(),
            r.kvs() == Seq::<(u64, V)>::empty(),
    {
        KvMap { entries: Vec::new() }
    }

    /// Finds the position of `k` among the entries, if any.
    fn find(&self, k: u64) -> (r: Option<usize>)
        requires
            self.wf(),
        ensures
            match r {
                Some(i) => self@.contains_key(k) && i < self.kvs().len() && self.kvs()[i as int]
                    == (k, self@[k]),
                None => !self@.contains_key(k),
            },
    {
        let n = self.entries.len();
        let mut i: usize = 0;
        while i < n
            invariant
                self.wf(),
                i <= n,
                n == self.entries@.len(),
                forall|j: int| 0 <= j < i ==> self.entries@[j].0 != k,
            decreases n - i,
        {
            if self.entries[i].0 == k {
                proof {
                    lemma_map_of_index(self.entries@, i as int);
                    assert(self.entries@[i as int] == (k, self@[k]));
                }
                return Some(i);
            }
            i = i + 1;
        }
        proof {
            lemma_map_of_contains(self.entries@, k);
        }
        None
    }

    /// Returns the value stored under `k`, if any.
    pub fn get(&self, k: u64) -> (r: Option<V>)
        requires
            self.wf(),
        ensures
            r == if self@.contains_key(k) {
                Some(self@[k])
            } else {
                None::<V>
            },
    {
        match self.find(k) {
            Some(i) => Some(self.entries[i].1),
            None => None,
        }
    }

    /// True when a value is stored under `k`.
    pub fn has(&self, k: u64) -> (r: bool)
        requires
            self.wf(),
        ensures
            r == self@.contains_key(k),
    {
        self.get(k).is_some()
    }

    /// Stores `v` under `k`, replacing any previous value.
    pub fn set(&mut self, k: u64, v: V)
        requires
            old(self).wf(),
        ensures
            final(self).wf(),
            final(self)@ == old(self)@.insert(k, v),
            !old(self)@.contains_key(k) ==> final(self).kvs() == old(self).kvs().push((k, v)),
            old(self)@.contains_key(k) ==> exists|i: int|
                0 <= i < old(self).kvs().len() && old(self).kvs()[i] == (k, old(self)@[k])
                    && final(self).kvs() == old(self).kvs().update(i, (k, v)),
    {
        match self.find(k) {
            Some(i) => {
                proof {
                    lemma_map_of_update(self.entries@, i as int, k, v);
                }
                self.entries[i] = (k, v);
            },
            None => {
                proof {
                    lemma_map_of_push(self.entries@, k, v);
                    lemma_map_of_contains(self.entries@, k);
                }
                self.entries.push((k, v));
                proof {
                    assert forall|i: int, j: int| 0 <= i < j < self.entries@.len() implies self.entries@[i].0
                        != self.entries@[j].0 by {
                        if j < self.entries@.len() - 1 {
                            assert(old(self).kvs()[i].0 != old(self).kvs()[j].0);
                        } else {
                            assert(old(self).kvs()[i].0 != k);
                        }
                    }
                }
            },
        }
    }

    /// Removes the value stored under `k`, if any.
    pub fn remove(&mut self, k: u64)
        requires
            old(self).wf(),
        ensures
            final(self).wf(),
            final(self)@ == old(self)@.remove(k),
            !old(self)@.contains_key(k) ==> final(self).kvs() == old(self).kvs(),
            old(self)@.contains_key(k) ==> exists|i: int|
                0 <= i < old(self).kvs().len() && old(self).kvs()[i] == (k, old(self)@[k])
                    && final(self).kvs() == old(self).kvs().remove(i),
    {
        match self.find(k) {
            Some(i) => {
                proof {
                    lemma_map_of_remove(self.entries@, i as int);
                }
                self.entries.remove(i);
            },
            None => {
                proof {
                    assert(self@ =~= self@.remove(k));
                }
            },
        }
    }

    /// The number of stored entries.
    pub fn len(&self) -> (r: usize)
        ensures
            r == self.kvs().len(),
    {
        self.entries.len()
    }
}

} // verus!
