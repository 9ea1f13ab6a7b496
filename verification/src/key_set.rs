//! Set of 32-byte identifiers, kept as a list without repetition.

use vstd::prelude::*;
use crate::keys::same_bytes;

verus! {

/// A finite set of 32-byte identifiers.
pub struct KeySet {
    items: Vec<[u8; 32]>,
}

impl View for KeySet {
    type V = Set<[u8; 32]>;

    closed spec fn view(&self) -> Set<[u8; 32]> {
        self.items@.to_set()
    }
}

impl KeySet {
    /// No identifier is held twice.
    pub closed spec fn wf(&self) -> bool {
        self.items@.no_duplicates()
    }

    /// Number of members.
    pub closed spec fn count(&self) -> nat {
        self.items@.len()
    }

    /// The member stored at position `i`.
    pub closed spec fn item_at(&self, i: int) -> [u8; 32] {
        self.items@[i]
    }

    /// The positions enumerate the members, each exactly once.
    pub proof fn lemma_items(&self)
        requires
            self.wf(),
        ensures
            forall|i: int| 0 <= i < self.count() ==> #[trigger] self@.contains(self.item_at(i)),
            forall|k: [u8; 32]| #[trigger]
                self@.contains(k) ==> exists|i: int| 0 <= i < self.count() && self.item_at(i) == k,
            forall|i: int, j: int|
                0 <= i < self.count() && 0 <= j < self.count() && i != j ==> self.item_at(i)
                    != self.item_at(j),
            self@.finite(),
            self@.len() == self.count(),
    {
        assert forall|i: int| 0 <= i < self.count() implies #[trigger] self@.contains(
            self.item_at(i),
        ) by {
            assert(self.items@.contains(self.items@[i]));
        }
        assert forall|k: [u8; 32]| #[trigger] self@.contains(k) implies exists|i: int|
            0 <= i < self.count() && self.item_at(i) == k by {
            let i = choose|i: int| 0 <= i < self.items@.len() && self.items@[i] == k;
            assert(0 <= i < self.count() && self.item_at(i) == k);
        }
        vstd::seq_lib::seq_to_set_is_finite(self.items@);
        self.items@.unique_seq_to_set();
    }

    /// An empty set.
    pub fn new() -> (s: KeySet)
        ensures
            s.wf(),
            s@ == Set::<[u8; 32]>::empty(),
            s.count() == 0,
    {
        let s = KeySet { items: Vec::new() };
        assert(s@ =~= Set::<[u8; 32]>::empty());
        s
    }

    /// Number of members.
    pub fn len(&self) -> (n: usize)
        requires
            self.wf(),
        ensures
            n == self.count(),
    {
        self.items.len()
    }

    fn find(&self, k: &[u8; 32]) -> (r: Option<usize>)
        ensures
            match r {
                Some(i) => i < self.items@.len() && self.items@[i as int] == *k,
                None => !self.items@.contains(*k),
            },
    {
        let mut i: usize = 0;
        while i < self.items.len()
            invariant
                i <= self.items@.len(),
                forall|j: int| 0 <= j < i ==> self.items@[j] != *k,
            decreases self.items@.len() - i,
        {
            if same_bytes(&self.items[i], k) {
                return Some(i);
            }
            i += 1;
        }
        None
    }

    /// Whether `k` is a member.
    pub fn contains(&self, k: &[u8; 32]) -> (r: bool)
        requires
            self.wf(),
        ensures
            r == self@.contains(*k),
    {
        match self.find(k) {
            Some(i) => {
                assert(self.items@.contains(self.items@[i as int]));
                true
            },
            None => false,
        }
    }

    /// The member at position `i`, for walking over the set.
    pub fn item(&self, i: usize) -> (k: &[u8; 32])
        requires
            self.wf(),
            i < self.count(),
        ensures
            *k == self.item_at(i as int),
    {
        &self.items[i]
    }

    /// Adds `k`; the result says whether it was new.
    pub fn insert(&mut self, k: [u8; 32]) -> (added: bool)
        requires
            old(self).wf(),
        ensures
            final(self).wf(),
            final(self)@ == old(self)@.insert(k),
            added == !old(self)@.contains(k),
    {
        match self.find(&k) {
            Some(i) => {
                proof {
                    assert(self.items@.contains(self.items@[i as int]));
                    assert(self@ =~= old(self)@.insert(k));
                }
                false
            },
            None => {
                self.items.push(k);
                proof {
                    let n = old(self).items@.len() as int;
                    assert(self.items@[n] == k);
                    assert forall|x: [u8; 32]| self.items@.contains(x) implies old(
                        self,
                    ).items@.contains(x) || x == k by {
                        let j = choose|j: int| 0 <= j < self.items@.len() && self.items@[j] == x;
                        if j < n {
                            assert(old(self).items@[j] == x);
                        }
                    }
                    assert forall|x: [u8; 32]| old(self).items@.contains(x) implies self.items@.contains(
                        x,
                    ) by {
                        let j = choose|j: int| 0 <= j < n && old(self).items@[j] == x;
                        assert(self.items@[j] == x);
                    }
                    assert(self@ =~= old(self)@.insert(k));
                }
                true
            },
        }
    }

    /// Takes `k` out; the result says whether it was a member.
    pub fn remove(&mut self, k: &[u8; 32]) -> (removed: bool)
        requires
            old(self).wf(),
        ensures
            final(self).wf(),
            final(self)@ == old(self)@.remove(*k),
            removed == old(self)@.contains(*k),
    {
        match self.find(k) {
            Some(i) => {
                self.items.remove(i);
                proof {
                    let ok = old(self).items@;
                    assert(ok.contains(ok[i as int]));
                    assert forall|x: [u8; 32]| self.items@.contains(x) implies ok.contains(x) && x
                        != *k by {
                        let j = choose|j: int| 0 <= j < self.items@.len() && self.items@[j] == x;
                        if j < i {
                            assert(ok[j] == x);
                        } else {
                            assert(ok[j + 1] == x);
                        }
                    }
                    assert forall|x: [u8; 32]| ok.contains(x) && x != *k implies self.items@.contains(
                        x,
                    ) by {
                        let j = choose|j: int| 0 <= j < ok.len() && ok[j] == x;
                        if j < i {
                            assert(self.items@[j] == x);
                        } else {
                            assert(self.items@[j - 1] == x);
                        }
                    }
                    assert(self@ =~= old(self)@.remove(*k));
                }
                true
            },
            None => {
                assert(self@ =~= old(self)@.remove(*k));
                false
            },
        }
    }
}

} // verus!
