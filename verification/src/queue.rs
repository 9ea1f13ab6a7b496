//! Priority queue: entries kept in ascending key order, lowest key first.

use vstd::prelude::*;
use crate::keys::{
    key_lt, lemma_key_lt_irreflexive, lemma_key_lt_total, lemma_key_lt_transitive, Channel,
    PriorityKey,
};

verus! {

/// One entry of a priority queue: the ordering key, the statement's own
/// priority, the channel the statement occupies, and the length of its
/// payload. In an account's queue the key is ordered by the statement's
/// own priority; in the global queue by its global priority.
#[derive(Clone, Copy, Debug, PartialEq, Eq)]
pub struct QueueEntry {
    pub key: PriorityKey,
    pub priority: u32,
    pub channel: Option<Channel>,
    pub len: usize,
}

/// The entries are in strictly ascending key order.
pub open spec fn sorted(s: Seq<QueueEntry>) -> bool {
    forall|i: int, j: int| 0 <= i < j < s.len() ==> key_lt(#[trigger] s[i].key, #[trigger] s[j].key)
}

/// Sum of the payload lengths of the entries.
pub open spec fn total_len(s: Seq<QueueEntry>) -> nat
    decreases s.len(),
{
    if s.len() == 0 {
        0
    } else {
        total_len(s.drop_last()) + s.last().len as nat
    }
}

/// Whether some entry has the key `key`.
pub open spec fn has_key(s: Seq<QueueEntry>, key: PriorityKey) -> bool {
    exists|i: int| 0 <= i < s.len() && (#[trigger] s[i]).key == key
}

/// The entry with the key `key`.
pub open spec fn lookup(s: Seq<QueueEntry>, key: PriorityKey) -> QueueEntry {
    s[choose|i: int| 0 <= i < s.len() && (#[trigger] s[i]).key == key]
}

/// In a sorted queue no key occurs twice.
pub proof fn lemma_sorted_distinct(s: Seq<QueueEntry>)
    requires
        sorted(s),
    ensures
        forall|i: int, j: int|
            0 <= i < s.len() && 0 <= j < s.len() && i != j ==> (#[trigger] s[i]).key
                != (#[trigger] s[j]).key,
{
    assert forall|i: int, j: int| 0 <= i < s.len() && 0 <= j < s.len() && i != j implies (
    #[trigger] s[i]).key != (#[trigger] s[j]).key by {
        lemma_key_lt_irreflexive(s[i].key);
        if i < j {
            assert(key_lt(s[i].key, s[j].key));
        } else {
            assert(key_lt(s[j].key, s[i].key));
        }
    }
}

/// In a sorted queue the entry of a key is the one found at any position
/// that holds the key.
pub proof fn lemma_lookup(s: Seq<QueueEntry>, i: int)
    requires
        sorted(s),
        0 <= i < s.len(),
    ensures
        has_key(s, s[i].key),
        lookup(s, s[i].key) == s[i],
{
    lemma_sorted_distinct(s);
    let j = choose|j: int| 0 <= j < s.len() && (#[trigger] s[j]).key == s[i].key;
    assert(s[i].key == s[i].key);
}

pub proof fn lemma_total_len_insert(s: Seq<QueueEntry>, i: int, e: QueueEntry)
    requires
        0 <= i <= s.len(),
    ensures
        total_len(s.insert(i, e)) == total_len(s) + e.len,
    decreases s.len(),
{
    let t = s.insert(i, e);
    if i == s.len() {
        assert(t.drop_last() =~= s);
    } else {
        assert(t.drop_last() =~= s.drop_last().insert(i, e));
        lemma_total_len_insert(s.drop_last(), i, e);
    }
}

pub proof fn lemma_total_len_remove(s: Seq<QueueEntry>, i: int)
    requires
        0 <= i < s.len(),
    ensures
        total_len(s.remove(i)) == total_len(s) - s[i].len,
    decreases s.len(),
{
    let t = s.remove(i);
    if i == s.len() - 1 {
        assert(t =~= s.drop_last());
    } else {
        assert(t.drop_last() =~= s.drop_last().remove(i));
        lemma_total_len_remove(s.drop_last(), i);
    }
}

/// The total is at most the largest length times the number of entries, and
/// so always fits into 128 bits.
pub proof fn lemma_total_len_fits(s: Seq<QueueEntry>)
    ensures
        total_len(s) <= s.len() * usize::MAX,
        s.len() <= usize::MAX ==> total_len(s) + usize::MAX <= u128::MAX,
    decreases s.len(),
{
    if s.len() > 0 {
        lemma_total_len_fits(s.drop_last());
        assert((s.len() - 1) * usize::MAX + usize::MAX == s.len() * usize::MAX)
            by (nonlinear_arith);
    }
    if s.len() <= usize::MAX {
        assert(s.len() * usize::MAX + usize::MAX <= u128::MAX) by (nonlinear_arith)
            requires
                s.len() <= usize::MAX,
                usize::MAX <= 0xffff_ffff_ffff_ffff,
        ;
    }
}

/// Every entry's length is part of the total.
pub proof fn lemma_total_len_bound(s: Seq<QueueEntry>, i: int)
    requires
        0 <= i < s.len(),
    ensures
        s[i].len <= total_len(s),
    decreases s.len(),
{
    if i < s.len() - 1 {
        lemma_total_len_bound(s.drop_last(), i);
    }
}

/// Entries ordered by key, with the sum of their payload lengths.
pub struct PriorityQueue {
    items: Vec<QueueEntry>,
    total: u128,
}

impl View for PriorityQueue {
    type V = Seq<QueueEntry>;

    closed spec fn view(&self) -> Seq<QueueEntry> {
        self.items@
    }
}

impl PriorityQueue {
    /// The entries are sorted and the stored total is their sum.
    pub closed spec fn wf(&self) -> bool {
        &&& sorted(self.items@)
        &&& self.total == total_len(self.items@)
    }

    /// What `wf` says, over the view.
    pub proof fn lemma_wf(&self)
        requires
            self.wf(),
        ensures
            sorted(self@),
    {
    }

    /// An empty queue.
    pub fn new() -> (q: PriorityQueue)
        ensures
            q.wf(),
            q@ == Seq::<QueueEntry>::empty(),
    {
        PriorityQueue { items: Vec::new(), total: 0 }
    }

    /// Number of entries.
    pub fn len(&self) -> (n: usize)
        ensures
            n == self@.len(),
    {
        self.items.len()
    }

    /// Sum of the payload lengths.
    pub fn total(&self) -> (n: u128)
        requires
            self.wf(),
        ensures
            n == total_len(self@),
            n + usize::MAX <= u128::MAX,
    {
        proof {
            assert(self.items@.len() == self.items.len());
            lemma_total_len_fits(self.items@);
        }
        self.total
    }

    /// The entry at position `i`; position 0 holds the lowest key.
    pub fn entry(&self, i: usize) -> (e: &QueueEntry)
        requires
            i < self@.len(),
        ensures
            *e == self@[i as int],
    {
        &self.items[i]
    }

    fn find(&self, key: &PriorityKey) -> (r: Option<usize>)
        ensures
            match r {
                Some(i) => i < self@.len() && self@[i as int].key == *key,
                None => !has_key(self@, *key),
            },
    {
        let mut i: usize = 0;
        while i < self.items.len()
            invariant
                i <= self.items@.len(),
                forall|j: int| 0 <= j < i ==> (#[trigger] self.items@[j]).key != *key,
            decreases self.items@.len() - i,
        {
            if self.items[i].key.same(key) {
                return Some(i);
            }
            i += 1;
        }
        None
    }

    /// The entry with the key `key`, if there is one.
    pub fn get(&self, key: &PriorityKey) -> (r: Option<&QueueEntry>)
        requires
            self.wf(),
        ensures
            match r {
                Some(e) => has_key(self@, *key) && *e == lookup(self@, *key),
                None => !has_key(self@, *key),
            },
    {
        match self.find(key) {
            Some(i) => {
                proof {
                    lemma_lookup(self@, i as int);
                }
                Some(&self.items[i])
            },
            None => None,
        }
    }

    /// Adds an entry whose key the queue does not hold yet.
    pub fn insert(&mut self, e: QueueEntry)
        requires
            old(self).wf(),
            !has_key(old(self)@, e.key),
        ensures
            final(self).wf(),
            final(self)@.len() == old(self)@.len() + 1,
            final(self)@.to_set() == old(self)@.to_set().insert(e),
            total_len(final(self)@) == total_len(old(self)@) + e.len,
    {
        let mut i: usize = 0;
        while i < self.items.len() && self.items[i].key.precedes(&e.key)
            invariant
                i <= self.items@.len(),
                forall|j: int| 0 <= j < i ==> key_lt((#[trigger] self.items@[j]).key, e.key),
            decreases self.items@.len() - i,
        {
            i += 1;
        }
        proof {
            let s = self.items@;
            let t = s.insert(i as int, e);
            lemma_total_len_insert(s, i as int, e);
            if i < s.len() {
                assert(s[i as int].key != e.key);
                if !key_lt(e.key, s[i as int].key) {
                    lemma_key_lt_total(s[i as int].key, e.key);
                }
            }
            assert forall|a: int, b: int| 0 <= a < b < t.len() implies key_lt(
                #[trigger] t[a].key,
                #[trigger] t[b].key,
            ) by {
                if b < i {
                    assert(t[a] == s[a] && t[b] == s[b]);
                } else if b == i {
                    assert(t[a] == s[a]);
                } else if a == i {
                    assert(t[b] == s[b - 1]);
                    if b - 1 > i {
                        assert(key_lt(s[i as int].key, s[b - 1].key));
                        lemma_key_lt_transitive(e.key, s[i as int].key, s[b - 1].key);
                    }
                } else if a < i {
                    assert(t[a] == s[a] && t[b] == s[b - 1]);
                } else {
                    assert(t[a] == s[a - 1] && t[b] == s[b - 1]);
                }
            }
            assert forall|x: QueueEntry| t.contains(x) implies s.contains(x) || x == e by {
                let j = choose|j: int| 0 <= j < t.len() && t[j] == x;
                if j < i {
                    assert(s[j] == x);
                } else if j > i {
                    assert(s[j - 1] == x);
                }
            }
            assert forall|x: QueueEntry| s.contains(x) || x == e implies t.contains(x) by {
                if x == e {
                    assert(t[i as int] == x);
                } else {
                    let j = choose|j: int| 0 <= j < s.len() && s[j] == x;
                    if j < i {
                        assert(t[j] == x);
                    } else {
                        assert(t[j + 1] == x);
                    }
                }
            }
            assert(t.to_set() =~= s.to_set().insert(e));
        }
        proof {
            assert(self.items@.len() == self.items.len());
            lemma_total_len_fits(self.items@);
        }
        self.items.insert(i, e);
        self.total = self.total + e.len as u128;
    }

    /// Removes the entry with the key `key` and hands it back.
    pub fn remove(&mut self, key: &PriorityKey) -> (r: Option<QueueEntry>)
        requires
            old(self).wf(),
        ensures
            final(self).wf(),
            match r {
                Some(e) => {
                    &&& has_key(old(self)@, *key)
                    &&& e == lookup(old(self)@, *key)
                    &&& final(self)@.len() == old(self)@.len() - 1
                    &&& final(self)@.to_set() == old(self)@.to_set().remove(e)
                    &&& total_len(final(self)@) == total_len(old(self)@) - e.len
                },
                None => !has_key(old(self)@, *key) && final(self)@ == old(self)@,
            },
    {
        match self.find(key) {
            Some(i) => {
                proof {
                    let s = self.items@;
                    let t = s.remove(i as int);
                    lemma_lookup(s, i as int);
                    lemma_sorted_distinct(s);
                    lemma_total_len_remove(s, i as int);
                    lemma_total_len_bound(s, i as int);
                    assert forall|a: int, b: int| 0 <= a < b < t.len() implies key_lt(
                        #[trigger] t[a].key,
                        #[trigger] t[b].key,
                    ) by {
                        let a2 = if a < i { a } else { a + 1 };
                        let b2 = if b < i { b } else { b + 1 };
                        assert(t[a] == s[a2] && t[b] == s[b2]);
                    }
                    assert forall|x: QueueEntry| t.contains(x) implies s.contains(x) && x
                        != s[i as int] by {
                        let j = choose|j: int| 0 <= j < t.len() && t[j] == x;
                        if j < i {
                            assert(s[j] == x);
                        } else {
                            assert(s[j + 1] == x);
                        }
                    }
                    assert forall|x: QueueEntry| s.contains(x) && x != s[i as int] implies t.contains(
                        x,
                    ) by {
                        let j = choose|j: int| 0 <= j < s.len() && s[j] == x;
                        if j < i {
                            assert(t[j] == x);
                        } else {
                            assert(t[j - 1] == x);
                        }
                    }
                    assert(t.to_set() =~= s.to_set().remove(s[i as int]));
                }
                let e = self.items.remove(i);
                self.total = self.total - e.len as u128;
                Some(e)
            },
            None => None,
        }
    }
}

} // verus!
