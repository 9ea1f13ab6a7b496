//! Per-account bookkeeping: the account's statements by priority, the
//! channels they occupy, and the sum of their payload lengths.

use vstd::prelude::*;
use crate::key_map::KeyMap;
use crate::keys::{Channel, PriorityKey};
use crate::queue::{has_key, lookup, sorted, total_len, PriorityQueue, QueueEntry};

verus! {

/// The statement that occupies a channel.
#[derive(Clone, Copy, Debug, PartialEq, Eq)]
pub struct ChannelEntry {
    pub hash: crate::keys::Hash,
    pub priority: u32,
}

/// The channel record that the queue entry `e` stands for.
pub open spec fn occupant(e: QueueEntry) -> ChannelEntry {
    ChannelEntry { hash: e.key.hash, priority: e.key.priority }
}

/// The channel map holds exactly the channels that the queue entries name,
/// each with the one entry that names it.
pub open spec fn channels_match(q: Seq<QueueEntry>, channels: Map<Channel, ChannelEntry>) -> bool {
    &&& forall|i: int|
        0 <= i < q.len() && (#[trigger] q[i]).channel.is_some() ==> {
            &&& channels.contains_key(q[i].channel.unwrap())
            &&& channels[q[i].channel.unwrap()] == occupant(q[i])
        }
    &&& forall|c: Channel| #[trigger]
        channels.contains_key(c) ==> exists|i: int|
            0 <= i < q.len() && (#[trigger] q[i]).channel == Some(c) && channels[c] == occupant(
                q[i],
            )
}

/// The live statements of one account.
pub struct StatementsForAccount {
    by_priority: PriorityQueue,
    channels: KeyMap<ChannelEntry>,
}

impl StatementsForAccount {
    /// The account's statements in ascending order of priority.
    pub closed spec fn by_priority(&self) -> Seq<QueueEntry> {
        self.by_priority@
    }

    /// The statement that occupies each channel in use.
    pub closed spec fn channels(&self) -> Map<Channel, ChannelEntry> {
        self.channels@
    }

    /// Sum of the payload lengths of the account's statements.
    pub open spec fn data_size(&self) -> nat {
        total_len(self.by_priority())
    }

    /// The queue is sorted and the channel map agrees with it, so that no
    /// two statements of the account share a channel.
    pub closed spec fn wf(&self) -> bool {
        &&& self.by_priority.wf()
        &&& self.channels.wf()
        &&& channels_match(self.by_priority@, self.channels@)
    }

    /// What `wf` says, over the public views.
    pub proof fn lemma_wf(&self)
        requires
            self.wf(),
        ensures
            sorted(self.by_priority()),
            channels_match(self.by_priority(), self.channels()),
    {
        self.by_priority.lemma_wf();
    }

    /// At most one statement per channel: two entries that name the same
    /// channel are the same entry.
    pub proof fn lemma_channel_exclusive(&self, i: int, j: int)
        requires
            self.wf(),
            0 <= i < self.by_priority().len(),
            0 <= j < self.by_priority().len(),
            self.by_priority()[i].channel.is_some(),
            self.by_priority()[i].channel == self.by_priority()[j].channel,
        ensures
            i == j,
    {
        let q = self.by_priority@;
        self.by_priority.lemma_wf();
        crate::queue::lemma_sorted_distinct(q);
        assert(occupant(q[i]) == occupant(q[j]));
        assert(q[i].key == q[j].key);
    }

    /// No statements.
    pub fn new() -> (a: StatementsForAccount)
        ensures
            a.wf(),
            a.by_priority() == Seq::<QueueEntry>::empty(),
            a.channels() == Map::<Channel, ChannelEntry>::empty(),
    {
        StatementsForAccount { by_priority: PriorityQueue::new(), channels: KeyMap::new() }
    }

    /// Number of statements.
    pub fn len(&self) -> (n: usize)
        ensures
            n == self.by_priority().len(),
    {
        self.by_priority.len()
    }

    /// Whether the account has no statement.
    pub fn is_empty(&self) -> (r: bool)
        ensures
            r == (self.by_priority().len() == 0),
    {
        self.by_priority.len() == 0
    }

    /// Sum of the payload lengths.
    pub fn size(&self) -> (n: u128)
        requires
            self.wf(),
        ensures
            n == self.data_size(),
            n + usize::MAX <= u128::MAX,
    {
        self.by_priority.total()
    }

    /// The statement at position `i` of the queue; position 0 has the
    /// lowest priority.
    pub fn entry(&self, i: usize) -> (e: &QueueEntry)
        requires
            i < self.by_priority().len(),
        ensures
            *e == self.by_priority()[i as int],
    {
        self.by_priority.entry(i)
    }

    /// The account's queue, for walking it in ascending order of priority.
    pub fn queue(&self) -> (q: &PriorityQueue)
        requires
            self.wf(),
        ensures
            q@ == self.by_priority(),
            q.wf(),
    {
        &self.by_priority
    }

    /// The statement with the key `key`, if the account has it.
    pub fn get(&self, key: &PriorityKey) -> (r: Option<&QueueEntry>)
        requires
            self.wf(),
        ensures
            match r {
                Some(e) => has_key(self.by_priority(), *key) && *e == lookup(
                    self.by_priority(),
                    *key,
                ),
                None => !has_key(self.by_priority(), *key),
            },
    {
        self.by_priority.get(key)
    }

    /// The statement that occupies `channel`, if any does.
    pub fn channel(&self, channel: &Channel) -> (r: Option<&ChannelEntry>)
        requires
            self.wf(),
        ensures
            match r {
                Some(c) => self.channels().contains_key(*channel) && *c == self.channels()[*channel],
                None => !self.channels().contains_key(*channel),
            },
    {
        self.channels.get(channel)
    }

    /// Adds a statement. Its key must be new to the account and its
    /// channel, if it has one, free.
    pub fn insert(&mut self, e: QueueEntry)
        requires
            old(self).wf(),
            !has_key(old(self).by_priority(), e.key),
            e.channel.is_some() ==> !old(self).channels().contains_key(e.channel.unwrap()),
        ensures
            final(self).wf(),
            final(self).by_priority().len() == old(self).by_priority().len() + 1,
            final(self).by_priority().to_set() == old(self).by_priority().to_set().insert(e),
            final(self).data_size() == old(self).data_size() + e.len,
            final(self).channels() == (match e.channel {
                Some(c) => old(self).channels().insert(c, occupant(e)),
                None => old(self).channels(),
            }),
    {
        self.by_priority.insert(e);
        match e.channel {
            Some(c) => {
                self.channels.insert(c, ChannelEntry { hash: e.key.hash, priority: e.key.priority });
            },
            None => {},
        }
        proof {
            let q0 = old(self).by_priority@;
            let q1 = self.by_priority@;
            let c0 = old(self).channels@;
            let c1 = self.channels@;
            assert forall|i: int| 0 <= i < q1.len() && (#[trigger] q1[i]).channel.is_some() implies {
                &&& c1.contains_key(q1[i].channel.unwrap())
                &&& c1[q1[i].channel.unwrap()] == occupant(q1[i])
            } by {
                assert(q1.contains(q1[i]));
                assert(q1.to_set().contains(q1[i]));
                if q1[i] != e {
                    assert(q0.to_set().contains(q1[i]));
                    let j = choose|j: int| 0 <= j < q0.len() && q0[j] == q1[i];
                    assert(q0[j].channel.is_some());
                }
            }
            assert forall|c: Channel| #[trigger] c1.contains_key(c) implies exists|i: int|
                0 <= i < q1.len() && (#[trigger] q1[i]).channel == Some(c) && c1[c] == occupant(
                    q1[i],
                ) by {
                if e.channel == Some(c) {
                    assert(q1.to_set().contains(e));
                    let i = choose|i: int| 0 <= i < q1.len() && q1[i] == e;
                    assert(q1[i].channel == Some(c));
                } else {
                    assert(c0.contains_key(c));
                    let j = choose|j: int|
                        0 <= j < q0.len() && (#[trigger] q0[j]).channel == Some(c) && c0[c]
                            == occupant(q0[j]);
                    assert(q0.contains(q0[j]));
                    assert(q1.to_set().contains(q0[j]));
                    let i = choose|i: int| 0 <= i < q1.len() && q1[i] == q0[j];
                    assert(q1[i].channel == Some(c));
                }
            }
        }
    }

    /// Removes the statement with the key `key`, frees its channel, and
    /// hands it back.
    pub fn remove(&mut self, key: &PriorityKey) -> (r: Option<QueueEntry>)
        requires
            old(self).wf(),
        ensures
            final(self).wf(),
            match r {
                Some(e) => {
                    &&& has_key(old(self).by_priority(), *key)
                    &&& e == lookup(old(self).by_priority(), *key)
                    &&& final(self).by_priority().len() == old(self).by_priority().len() - 1
                    &&& final(self).by_priority().to_set() == old(self).by_priority().to_set().remove(
                        e,
                    )
                    &&& final(self).data_size() == old(self).data_size() - e.len
                    &&& final(self).channels() == (match e.channel {
                        Some(c) => old(self).channels().remove(c),
                        None => old(self).channels(),
                    })
                },
                None => {
                    &&& !has_key(old(self).by_priority(), *key)
                    &&& final(self).by_priority() == old(self).by_priority()
                    &&& final(self).channels() == old(self).channels()
                },
            },
    {
        match self.by_priority.remove(key) {
            Some(e) => {
                match e.channel {
                    Some(c) => {
                        self.channels.remove(&c);
                    },
                    None => {},
                }
                proof {
                    let q0 = old(self).by_priority@;
                    let q1 = self.by_priority@;
                    let c0 = old(self).channels@;
                    let c1 = self.channels@;
                    old(self).by_priority.lemma_wf();
                    crate::queue::lemma_sorted_distinct(q0);
                    let k = choose|k: int| 0 <= k < q0.len() && (#[trigger] q0[k]).key == *key;
                    assert(q0[k] == e);
                    assert forall|i: int|
                        0 <= i < q1.len() && (#[trigger] q1[i]).channel.is_some() implies {
                        &&& c1.contains_key(q1[i].channel.unwrap())
                        &&& c1[q1[i].channel.unwrap()] == occupant(q1[i])
                    } by {
                        assert(q1.contains(q1[i]));
                        assert(q1.to_set().contains(q1[i]));
                        assert(q0.to_set().contains(q1[i]));
                        let j = choose|j: int| 0 <= j < q0.len() && q0[j] == q1[i];
                        assert(q0[j].channel.is_some());
                        if q1[i].channel == e.channel {
                            assert(occupant(q0[j]) == occupant(q0[k]));
                            assert(q0[j].key == q0[k].key);
                        }
                    }
                    assert forall|c: Channel| #[trigger] c1.contains_key(c) implies exists|i: int|
                        0 <= i < q1.len() && (#[trigger] q1[i]).channel == Some(c) && c1[c]
                            == occupant(q1[i]) by {
                        assert(c0.contains_key(c));
                        let j = choose|j: int|
                            0 <= j < q0.len() && (#[trigger] q0[j]).channel == Some(c) && c0[c]
                                == occupant(q0[j]);
                        assert(q0[j] != e);
                        assert(q0.contains(q0[j]));
                        assert(q1.to_set().contains(q0[j]));
                        let i = choose|i: int| 0 <= i < q1.len() && q1[i] == q0[j];
                        assert(q1[i].channel == Some(c));
                    }
                }
                Some(e)
            },
            None => None,
        }
    }
}

} // verus!
