//! Association list keyed by 32-byte identifiers, viewed as a finite map.

use vstd::prelude::*;
use crate::keys::same_bytes;

verus! {

/// Position of `k` in a list of distinct keys.
pub open spec fn position(keys: Seq<[u8; 32]>, k: [u8; 32]) -> int {
    choose|i: int| 0 <= i < keys.len() && keys[i] == k
}

pub proof fn lemma_position(keys: Seq<[u8; 32]>, i: int)
    requires
        keys.no_duplicates(),
        0 <= i < keys.len(),
    ensures
        position(keys, keys[i]) == i,
{
    let j = position(keys, keys[i]);
    assert(0 <= j < keys.len() && keys[j] == keys[i]);
}

/// A map from 32-byte identifiers to values of type `V`.
pub struct KeyMap<V> {
    keys: Vec<[u8; 32]>,
    values: Vec<V>,
}

impl<V> View for KeyMap<V> {
    type V = Map<[u8; 32], V>;

    closed spec fn view(&self) -> Map<[u8; 32], V> {
        Map::new(
            |k: [u8; 32]| self.keys@.contains(k),
            |k: [u8; 32]| self.values@[position(self.keys@, k)],
        )
    }
}

impl<V> KeyMap<V> {
    /// No key is held twice, and every key has its value.
    pub closed spec fn wf(&self) -> bool {
        &&& self.keys@.len() == self.values@.len()
        &&& self.keys@.no_duplicates()
    }

    /// Number of entries.
    pub closed spec fn count(&self) -> nat {
        self.keys@.len()
    }

    /// The key stored at position `i`.
    pub closed spec fn key_at(&self, i: int) -> [u8; 32] {
        self.keys@[i]
    }

    /// The value stored at position `i`.
    pub closed spec fn value_at(&self, i: int) -> V {
        self.values@[i]
    }

    /// The positions enumerate the entries of the map, each exactly once.
    pub proof fn lemma_entries(&self)
        requires
            self.wf(),
        ensures
            forall|i: int|
                0 <= i < self.count() ==> #[trigger] self@.contains_key(self.key_at(i))
                    && self@[self.key_at(i)] == self.value_at(i),
            forall|k: [u8; 32]| #[trigger]
                self@.contains_key(k) ==> exists|i: int|
                    0 <= i < self.count() && self.key_at(i) == k,
            forall|i: int, j: int|
                0 <= i < self.count() && 0 <= j < self.count() && i != j ==> self.key_at(i)
                    != self.key_at(j),
    {
        assert forall|i: int| 0 <= i < self.count() implies #[trigger] self@.contains_key(
            self.key_at(i),
        ) && self@[self.key_at(i)] == self.value_at(i) by {
            lemma_position(self.keys@, i);
        }
        assert forall|k: [u8; 32]| #[trigger] self@.contains_key(k) implies exists|i: int|
            0 <= i < self.count() && self.key_at(i) == k by {
            let i = position(self.keys@, k);
            assert(0 <= i < self.count() && self.key_at(i) == k);
        }
    }

    /// The map is finite and holds as many keys as there are entries.
    pub proof fn lemma_count(&self)
        requires
            self.wf(),
        ensures
            self@.dom().finite(),
            self@.dom().len() == self.count(),
    {
        assert(self@.dom() =~= self.keys@.to_set());
        vstd::seq_lib::seq_to_set_is_finite(self.keys@);
        self.keys@.unique_seq_to_set();
    }

    /// An empty map.
    pub fn new() -> (m: KeyMap<V>)
        ensures
            m.wf(),
            m@ == Map::<[u8; 32], V>::empty(),
            m.count() == 0,
    {
        let m = KeyMap { keys: Vec::new(), values: Vec::new() };
        assert(m@ =~= Map::<[u8; 32], V>::empty());
        m
    }

    /// Number of entries.
    pub fn len(&self) -> (n: usize)
        requires
            self.wf(),
        ensures
            n == self.count(),
    {
        self.keys.len()
    }

    /// Whether the map holds no entry.
    pub fn is_empty(&self) -> (r: bool)
        requires
            self.wf(),
        ensures
            r == (self.count() == 0),
            r == (self@ == Map::<[u8; 32], V>::empty()),
    {
        proof {
            if self.keys@.len() == 0 {
                assert(self@ =~= Map::<[u8; 32], V>::empty());
            } else {
                assert(self.keys@.contains(self.keys@[0]));
                assert(self@.contains_key(self.keys@[0]));
            }
        }
        self.keys.len() == 0
    }

    fn find(&self, k: &[u8; 32]) -> (r: Option<usize>)
        requires
            self.wf(),
        ensures
            match r {
                Some(i) => i < self.keys@.len() && self.keys@[i as int] == *k,
                None => !self.keys@.contains(*k),
            },
    {
        let mut i: usize = 0;
        while i < self.keys.len()
            invariant
                i <= self.keys@.len(),
                forall|j: int| 0 <= j < i ==> self.keys@[j] != *k,
            decreases self.keys@.len() - i,
        {
            if same_bytes(&self.keys[i], k) {
                return Some(i);
            }
            i += 1;
        }
        None
    }

    /// Whether `k` has a value.
    pub fn contains_key(&self, k: &[u8; 32]) -> (r: bool)
        requires
            self.wf(),
        ensures
            r == self@.contains_key(*k),
    {
        self.find(k).is_some()
    }

    /// The value of `k`, if it has one.
    pub fn get(&self, k: &[u8; 32]) -> (r: Option<&V>)
        requires
            self.wf(),
        ensures
            match r {
                Some(v) => self@.contains_key(*k) && *v == self@[*k],
                None => !self@.contains_key(*k),
            },
    {
        match self.find(k) {
            Some(i) => {
                proof {
                    lemma_position(self.keys@, i as int);
                }
                Some(&self.values[i])
            },
            None => None,
        }
    }

    /// The key at position `i`, for walking over the entries.
    pub fn key(&self, i: usize) -> (k: &[u8; 32])
        requires
            self.wf(),
            i < self.count(),
        ensures
            *k == self.key_at(i as int),
    {
        &self.keys[i]
    }

    /// The value at position `i`, for walking over the entries.
    pub fn value(&self, i: usize) -> (v: &V)
        requires
            self.wf(),
            i < self.count(),
        ensures
            *v == self.value_at(i as int),
    {
        &self.values[i]
    }

    /// Gives `k` the value `v` and hands back the value it had before.
    pub fn insert(&mut self, k: [u8; 32], v: V) -> (r: Option<V>)
        requires
            old(self).wf(),
        ensures
            final(self).wf(),
            final(self)@ == old(self)@.insert(k, v),
            r == (if old(self)@.contains_key(k) {
                Some(old(self)@[k])
            } else {
                None
            }),
            final(self).count() == (if old(self)@.contains_key(k) {
                old(self).count()
            } else {
                old(self).count() + 1
            }),
    {
        match self.find(&k) {
            Some(i) => {
                proof {
                    lemma_position(self.keys@, i as int);
                }
                self.values.push(v);
                let previous = self.values.swap_remove(i);
                proof {
                    assert forall|x: [u8; 32]| self.keys@.contains(x) implies #[trigger] self@[x]
                        == old(self)@.insert(k, v)[x] by {
                        let j = position(self.keys@, x);
                        assert(0 <= j < self.keys@.len() && self.keys@[j] == x);
                    }
                    assert(self@ =~= old(self)@.insert(k, v));
                }
                Some(previous)
            },
            None => {
                self.keys.push(k);
                self.values.push(v);
                proof {
                    let n = old(self).keys@.len() as int;
                    assert(self.keys@[n] == k);
                    assert forall|x: [u8; 32]| self.keys@.contains(x) implies old(
                        self,
                    ).keys@.contains(x) || x == k by {
                        let j = choose|j: int| 0 <= j < self.keys@.len() && self.keys@[j] == x;
                        if j < n {
                            assert(old(self).keys@[j] == x);
                        }
                    }
                    assert forall|x: [u8; 32]| old(self).keys@.contains(x) implies self.keys@.contains(
                        x,
                    ) by {
                        let j = choose|j: int| 0 <= j < n && old(self).keys@[j] == x;
                        assert(self.keys@[j] == x);
                    }
                    assert forall|x: [u8; 32]| self.keys@.contains(x) implies #[trigger] self@[x]
                        == old(self)@.insert(k, v)[x] by {
                        let j = position(self.keys@, x);
                        assert(0 <= j < self.keys@.len() && self.keys@[j] == x);
                        if j < n {
                            assert(old(self).keys@[j] == x);
                            lemma_position(old(self).keys@, j);
                        }
                    }
                    assert(self@ =~= old(self)@.insert(k, v));
                }
                None
            },
        }
    }

    /// Removes `k` and hands back the value it had.
    pub fn remove(&mut self, k: &[u8; 32]) -> (r: Option<V>)
        requires
            old(self).wf(),
        ensures
            final(self).wf(),
            final(self)@ == old(self)@.remove(*k),
            r == (if old(self)@.contains_key(*k) {
                Some(old(self)@[*k])
            } else {
                None
            }),
            final(self).count() == (if old(self)@.contains_key(*k) {
                old(self).count() - 1
            } else {
                old(self).count() as int
            }),
    {
        match self.find(k) {
            Some(i) => {
                proof {
                    lemma_position(self.keys@, i as int);
                }
                self.keys.remove(i);
                let previous = self.values.remove(i);
                proof {
                    let ok = old(self).keys@;
                    assert forall|x: [u8; 32]| self.keys@.contains(x) implies ok.contains(x) && x
                        != *k by {
                        let j = choose|j: int| 0 <= j < self.keys@.len() && self.keys@[j] == x;
                        if j < i {
                            assert(ok[j] == x);
                        } else {
                            assert(ok[j + 1] == x);
                        }
                    }
                    assert forall|x: [u8; 32]| ok.contains(x) && x != *k implies self.keys@.contains(
                        x,
                    ) by {
                        let j = choose|j: int| 0 <= j < ok.len() && ok[j] == x;
                        if j < i {
                            assert(self.keys@[j] == x);
                        } else {
                            assert(self.keys@[j - 1] == x);
                        }
                    }
                    assert forall|x: [u8; 32]| self.keys@.contains(x) implies #[trigger] self@[x]
                        == old(self)@[x] by {
                        let j = position(self.keys@, x);
                        assert(0 <= j < self.keys@.len() && self.keys@[j] == x);
                        if j < i {
                            assert(ok[j] == x);
                            lemma_position(ok, j);
                        } else {
                            assert(ok[j + 1] == x);
                            lemma_position(ok, j + 1);
                        }
                    }
                    assert(self@ =~= old(self)@.remove(*k));
                }
                Some(previous)
            },
            None => {
                assert(self@ =~= old(self)@.remove(*k));
                None
            },
        }
    }
}

} // verus!
