//! The in-memory index: which statements are live, which have expired, and
//! the queues and sets that admission and queries read.

use vstd::prelude::*;
use crate::account::StatementsForAccount;
use crate::admission::{fits, freed_sum, lower_in, make_room, walk, Demand, Evictions};
use crate::types::ValidStatement;
use crate::key_map::KeyMap;
use crate::key_set::KeySet;
use crate::keys::{same_bytes, AccountId, Channel, DecryptionKey, PriorityKey, Topic};
use crate::queue::{has_key, lookup, sorted, total_len, PriorityQueue, QueueEntry};
use crate::statement::{Statement, StatementView};

verus! {

/// An expired statement is forgotten this many seconds after it expired.
pub const PURGE_AFTER: u64 = 172800;

/// Default limit on the number of live statements.
pub const MAX_LIVE_STATEMENTS: usize = 8192;

/// Default limit on the sum of the payload lengths of the live statements.
pub const MAX_TOTAL_SIZE: usize = 67108864;

/// What the index records of a live statement.
#[derive(Clone, Copy, Debug, PartialEq, Eq)]
pub struct Entry {
    pub account: AccountId,
    pub global_priority: u32,
    pub priority: u32,
    pub channel: Option<Channel>,
    pub len: usize,
    pub topics: [Option<Topic>; 4],
    pub decryption_key: Option<DecryptionKey>,
}

/// The record of `statement` when it is attributed to `account` with the
/// global priority `global_priority`.
pub open spec fn entry_of(
    account: AccountId,
    global_priority: u32,
    statement: StatementView,
) -> Entry {
    Entry {
        account,
        global_priority,
        priority: statement.priority_or_default(),
        channel: statement.channel,
        len: statement.data_len() as usize,
        topics: statement.topics,
        decryption_key: statement.decryption_key,
    }
}

/// Whether the record declares the topic `t`.
pub open spec fn has_topic(e: Entry, t: Topic) -> bool {
    e.topics[0] == Some(t) || e.topics[1] == Some(t) || e.topics[2] == Some(t) || e.topics[3]
        == Some(t)
}

/// The entry of the global queue that stands for the live statement `h`.
pub open spec fn global_item(h: crate::keys::Hash, e: Entry) -> QueueEntry {
    QueueEntry {
        key: PriorityKey { hash: h, priority: e.global_priority },
        priority: e.priority,
        channel: e.channel,
        len: e.len,
    }
}

/// The entry of its account's queue that stands for the live statement `h`.
pub open spec fn account_item(h: crate::keys::Hash, e: Entry) -> QueueEntry {
    QueueEntry {
        key: PriorityKey { hash: h, priority: e.priority },
        priority: e.priority,
        channel: e.channel,
        len: e.len,
    }
}

/// The global queue holds one entry for each live statement and no other.
pub open spec fn queue_matches(q: Seq<QueueEntry>, entries: Map<crate::keys::Hash, Entry>) -> bool {
    &&& forall|i: int|
        0 <= i < q.len() ==> entries.contains_key((#[trigger] q[i]).key.hash) && q[i]
            == global_item(q[i].key.hash, entries[q[i].key.hash])
    &&& forall|h: crate::keys::Hash| #[trigger]
        entries.contains_key(h) ==> q.contains(global_item(h, entries[h]))
}

/// The queue of account `a` holds one entry for each live statement of
/// that account and no other.
pub open spec fn account_matches(
    a: AccountId,
    q: Seq<QueueEntry>,
    entries: Map<crate::keys::Hash, Entry>,
) -> bool {
    &&& forall|i: int|
        0 <= i < q.len() ==> entries.contains_key((#[trigger] q[i]).key.hash)
            && entries[q[i].key.hash].account == a && q[i] == account_item(
            q[i].key.hash,
            entries[q[i].key.hash],
        )
    &&& forall|h: crate::keys::Hash| #[trigger]
        entries.contains_key(h) && entries[h].account == a ==> q.contains(
            account_item(h, entries[h]),
        )
}

/// Every account with a live statement has a record, every record is
/// well formed and not empty, and holds the statements of its account.
pub open spec fn accounts_match(
    accounts: Map<AccountId, StatementsForAccount>,
    entries: Map<crate::keys::Hash, Entry>,
) -> bool {
    &&& forall|a: AccountId| #[trigger]
        accounts.contains_key(a) ==> accounts[a].wf() && accounts[a].by_priority().len() > 0
            && account_matches(a, accounts[a].by_priority(), entries)
    &&& forall|h: crate::keys::Hash| #[trigger]
        entries.contains_key(h) ==> accounts.contains_key(entries[h].account)
}

/// The members recorded under `t`; none where `t` has no record.
pub open spec fn members(m: Map<[u8; 32], KeySet>, t: [u8; 32]) -> Set<crate::keys::Hash> {
    if m.contains_key(t) {
        m[t]@
    } else {
        Set::empty()
    }
}

/// The sets of a topic index hold a live statement under a topic exactly
/// where the statement declares the topic.
pub open spec fn topics_match(m: Map<[u8; 32], KeySet>, entries: Map<crate::keys::Hash, Entry>) -> bool {
    forall|t: Topic, h: crate::keys::Hash|
        #[trigger] members(m, t).contains(h) <==> entries.contains_key(h) && has_topic(
            entries[h],
            t,
        )
}

/// The sets of a key index hold a live statement under a decryption key
/// exactly where the statement names the key.
pub open spec fn keys_match(m: Map<[u8; 32], KeySet>, entries: Map<crate::keys::Hash, Entry>) -> bool {
    forall|k: DecryptionKey, h: crate::keys::Hash|
        #[trigger] members(m, k).contains(h) <==> entries.contains_key(h)
            && entries[h].decryption_key == Some(k)
}

/// No statement is live and expired at once.
pub open spec fn disjoint(entries: Map<crate::keys::Hash, Entry>, expired: Map<crate::keys::Hash, u64>) -> bool {
    forall|h: crate::keys::Hash| !(#[trigger] entries.contains_key(h) && expired.contains_key(h))
}

/// Every recorded set is well formed.
pub open spec fn sets_wf(m: Map<[u8; 32], KeySet>) -> bool {
    forall|t: [u8; 32]| #[trigger] m.contains_key(t) ==> m[t].wf()
}

/// Records `h` under `t`.
fn add_member(index: &mut KeyMap<KeySet>, t: [u8; 32], h: crate::keys::Hash)
    requires
        old(index).wf(),
        sets_wf(old(index)@),
    ensures
        final(index).wf(),
        sets_wf(final(index)@),
        forall|t2: [u8; 32], h2: crate::keys::Hash|
            #[trigger] members(final(index)@, t2).contains(h2) == (members(
                old(index)@,
                t2,
            ).contains(h2) || (t2 == t && h2 == h)),
{
    let mut set = match index.remove(&t) {
        Some(s) => s,
        None => KeySet::new(),
    };
    set.insert(h);
    index.insert(t, set);
}

/// Takes `h` out of the members recorded under `t`.
fn drop_member(index: &mut KeyMap<KeySet>, t: Option<[u8; 32]>, h: crate::keys::Hash)
    requires
        old(index).wf(),
        sets_wf(old(index)@),
    ensures
        final(index).wf(),
        sets_wf(final(index)@),
        forall|t2: [u8; 32], h2: crate::keys::Hash|
            #[trigger] members(final(index)@, t2).contains(h2) == (members(
                old(index)@,
                t2,
            ).contains(h2) && !(t == Some(t2) && h2 == h)),
{
    match t {
        Some(t) => {
            match index.remove(&t) {
                Some(mut set) => {
                    set.remove(&h);
                    index.insert(t, set);
                },
                None => {},
            }
        },
        None => {},
    }
}

/// Records `h` under `t` where there is a `t`.
fn add_optional_member(index: &mut KeyMap<KeySet>, t: Option<[u8; 32]>, h: crate::keys::Hash)
    requires
        old(index).wf(),
        sets_wf(old(index)@),
    ensures
        final(index).wf(),
        sets_wf(final(index)@),
        forall|t2: [u8; 32], h2: crate::keys::Hash|
            #[trigger] members(final(index)@, t2).contains(h2) == (members(
                old(index)@,
                t2,
            ).contains(h2) || (t == Some(t2) && h2 == h)),
{
    match t {
        Some(t) => add_member(index, t, h),
        None => {},
    }
}

/// Taking a live statement out of the global queue keeps the queue in step
/// with the live statements.
pub proof fn lemma_queue_remove(
    q: Seq<QueueEntry>,
    q2: Seq<QueueEntry>,
    entries: Map<crate::keys::Hash, Entry>,
    h: crate::keys::Hash,
)
    requires
        queue_matches(q, entries),
        entries.contains_key(h),
        q2.to_set() == q.to_set().remove(global_item(h, entries[h])),
    ensures
        queue_matches(q2, entries.remove(h)),
{
    let after = entries.remove(h);
    assert forall|i: int| 0 <= i < q2.len() implies after.contains_key((#[trigger] q2[i]).key.hash)
        && q2[i] == global_item(q2[i].key.hash, after[q2[i].key.hash]) by {
        assert(q2.contains(q2[i]));
        assert(q2.to_set().contains(q2[i]));
        assert(q.to_set().contains(q2[i]));
        let j = choose|j: int| 0 <= j < q.len() && q[j] == q2[i];
        assert(entries.contains_key(q[j].key.hash));
    }
    assert forall|x: crate::keys::Hash| #[trigger] after.contains_key(x) implies q2.contains(
        global_item(x, after[x]),
    ) by {
        assert(entries.contains_key(x));
        assert(q.contains(global_item(x, entries[x])));
        assert(q.to_set().contains(global_item(x, entries[x])));
        assert(q2.to_set().contains(global_item(x, entries[x])));
    }
}

/// Adding a new live statement to the global queue keeps the queue in step
/// with the live statements.
pub proof fn lemma_queue_insert(
    q: Seq<QueueEntry>,
    q2: Seq<QueueEntry>,
    entries: Map<crate::keys::Hash, Entry>,
    h: crate::keys::Hash,
    e: Entry,
)
    requires
        queue_matches(q, entries),
        !entries.contains_key(h),
        q2.to_set() == q.to_set().insert(global_item(h, e)),
    ensures
        queue_matches(q2, entries.insert(h, e)),
{
    let after = entries.insert(h, e);
    assert forall|i: int| 0 <= i < q2.len() implies after.contains_key((#[trigger] q2[i]).key.hash)
        && q2[i] == global_item(q2[i].key.hash, after[q2[i].key.hash]) by {
        assert(q2.contains(q2[i]));
        assert(q2.to_set().contains(q2[i]));
        if q2[i] != global_item(h, e) {
            assert(q.to_set().contains(q2[i]));
            let j = choose|j: int| 0 <= j < q.len() && q[j] == q2[i];
            assert(entries.contains_key(q[j].key.hash));
        }
    }
    assert forall|x: crate::keys::Hash| #[trigger] after.contains_key(x) implies q2.contains(
        global_item(x, after[x]),
    ) by {
        if x != h {
            assert(entries.contains_key(x));
            assert(q.contains(global_item(x, entries[x])));
            assert(q.to_set().contains(global_item(x, entries[x])));
        }
        assert(q2.to_set().contains(global_item(x, after[x])));
    }
}

/// Taking a live statement out of its account's queue keeps the queue in
/// step with the live statements of the account.
pub proof fn lemma_account_remove(
    a: AccountId,
    q: Seq<QueueEntry>,
    q2: Seq<QueueEntry>,
    entries: Map<crate::keys::Hash, Entry>,
    h: crate::keys::Hash,
)
    requires
        account_matches(a, q, entries),
        entries.contains_key(h),
        entries[h].account == a,
        q2.to_set() == q.to_set().remove(account_item(h, entries[h])),
    ensures
        account_matches(a, q2, entries.remove(h)),
{
    let after = entries.remove(h);
    assert forall|i: int| 0 <= i < q2.len() implies after.contains_key((#[trigger] q2[i]).key.hash)
        && after[q2[i].key.hash].account == a && q2[i] == account_item(
        q2[i].key.hash,
        after[q2[i].key.hash],
    ) by {
        assert(q2.contains(q2[i]));
        assert(q2.to_set().contains(q2[i]));
        assert(q.to_set().contains(q2[i]));
        let j = choose|j: int| 0 <= j < q.len() && q[j] == q2[i];
        assert(entries.contains_key(q[j].key.hash));
    }
    assert forall|x: crate::keys::Hash| #[trigger]
        after.contains_key(x) && after[x].account == a implies q2.contains(
        account_item(x, after[x]),
    ) by {
        assert(entries.contains_key(x));
        assert(q.contains(account_item(x, entries[x])));
        assert(q.to_set().contains(account_item(x, entries[x])));
        assert(q2.to_set().contains(account_item(x, entries[x])));
    }
}

/// Adding a new live statement to its account's queue keeps the queue in
/// step with the live statements of the account.
pub proof fn lemma_account_insert(
    a: AccountId,
    q: Seq<QueueEntry>,
    q2: Seq<QueueEntry>,
    entries: Map<crate::keys::Hash, Entry>,
    h: crate::keys::Hash,
    e: Entry,
)
    requires
        account_matches(a, q, entries),
        !entries.contains_key(h),
        e.account == a,
        q2.to_set() == q.to_set().insert(account_item(h, e)),
    ensures
        account_matches(a, q2, entries.insert(h, e)),
{
    let after = entries.insert(h, e);
    assert forall|i: int| 0 <= i < q2.len() implies after.contains_key((#[trigger] q2[i]).key.hash)
        && after[q2[i].key.hash].account == a && q2[i] == account_item(
        q2[i].key.hash,
        after[q2[i].key.hash],
    ) by {
        assert(q2.contains(q2[i]));
        assert(q2.to_set().contains(q2[i]));
        if q2[i] != account_item(h, e) {
            assert(q.to_set().contains(q2[i]));
            let j = choose|j: int| 0 <= j < q.len() && q[j] == q2[i];
            assert(entries.contains_key(q[j].key.hash));
        }
    }
    assert forall|x: crate::keys::Hash| #[trigger]
        after.contains_key(x) && after[x].account == a implies q2.contains(
        account_item(x, after[x]),
    ) by {
        if x != h {
            assert(entries.contains_key(x));
            assert(q.contains(account_item(x, entries[x])));
            assert(q.to_set().contains(account_item(x, entries[x])));
        }
        assert(q2.to_set().contains(account_item(x, after[x])));
    }
}

/// A change to the live statements of one account leaves the queues of
/// the other accounts in step.
pub proof fn lemma_account_untouched(
    a: AccountId,
    q: Seq<QueueEntry>,
    entries: Map<crate::keys::Hash, Entry>,
    after: Map<crate::keys::Hash, Entry>,
    h: crate::keys::Hash,
)
    requires
        account_matches(a, q, entries),
        entries.contains_key(h) ==> entries[h].account != a,
        after.contains_key(h) ==> after[h].account != a,
        forall|x: crate::keys::Hash|
            x != h ==> (entries.contains_key(x) == after.contains_key(x) && (entries.contains_key(
                x,
            ) ==> entries[x] == after[x])),
    ensures
        account_matches(a, q, after),
{
    assert forall|i: int| 0 <= i < q.len() implies after.contains_key((#[trigger] q[i]).key.hash)
        && after[q[i].key.hash].account == a && q[i] == account_item(
        q[i].key.hash,
        after[q[i].key.hash],
    ) by {
        assert(entries.contains_key(q[i].key.hash));
    }
    assert forall|x: crate::keys::Hash| #[trigger]
        after.contains_key(x) && after[x].account == a implies q.contains(
        account_item(x, after[x]),
    ) by {
        assert(entries.contains_key(x));
    }
}

/// Whether another live statement than `hash` occupies, for the same
/// account, the channel that the record `e` names.
pub open spec fn channel_conflict(
    entries: Map<crate::keys::Hash, Entry>,
    hash: crate::keys::Hash,
    e: Entry,
) -> bool {
    exists|other: crate::keys::Hash|
        #[trigger] entries.contains_key(other) && other != hash && e.channel.is_some()
            && entries[other].account == e.account && entries[other].channel == e.channel
}

/// Outcome of an admission: the statement was inserted and the listed
/// statements were evicted for it, in this order; or it was ignored.
#[derive(Debug, PartialEq, Eq)]
pub enum MaybeInserted {
    Inserted(Vec<crate::keys::Hash>),
    Ignored,
}

/// What the incoming statement with the record `e` asks of a tier with the
/// limits `max_size` and `max_count`.
pub open spec fn demand(hash: crate::keys::Hash, e: Entry, max_size: nat, max_count: nat) -> Demand {
    Demand { hash, priority: e.priority, len: e.len as nat, max_size, max_count }
}

/// The expired statements once the statements `hashes` have expired at the
/// time `now`.
pub open spec fn expired_after(
    expired: Map<crate::keys::Hash, u64>,
    hashes: Seq<crate::keys::Hash>,
    now: u64,
) -> Map<crate::keys::Hash, u64> {
    Map::new(
        |h: crate::keys::Hash| expired.contains_key(h) || hashes.contains(h),
        |h: crate::keys::Hash|
            if hashes.contains(h) {
                now
            } else {
                expired[h]
            },
    )
}

/// Appending an element that a duplicate-free list does not hold keeps the
/// list free of duplicates.
pub proof fn lemma_pushed(before: Seq<crate::keys::Hash>, after: Seq<crate::keys::Hash>, h: crate::keys::Hash)
    requires
        before.no_duplicates(),
        !before.contains(h),
        after == before.push(h),
    ensures
        after.no_duplicates(),
        forall|x: crate::keys::Hash| after.contains(x) <==> before.contains(x) || x == h,
{
    assert forall|x: crate::keys::Hash| after.contains(x) <==> before.contains(x) || x == h by {
        if after.contains(x) {
            let j = choose|j: int| 0 <= j < after.len() && after[j] == x;
            if j < before.len() {
                assert(before[j] == x);
            }
        }
        if before.contains(x) {
            let j = choose|j: int| 0 <= j < before.len() && before[j] == x;
            assert(after[j] == x);
        }
        if x == h {
            assert(after[before.len() as int] == x);
        }
    }
    assert forall|a: int, b: int| 0 <= a < after.len() && 0 <= b < after.len() && a != b implies after[a]
        != after[b] by {
        if a < before.len() && b < before.len() {
            assert(after[a] == before[a] && after[b] == before[b]);
        } else if a < before.len() {
            assert(before.contains(before[a]));
        } else {
            assert(before.contains(before[b]));
        }
    }
}

/// The in-memory index of the store.
pub struct Index {
    by_topic: KeyMap<KeySet>,
    by_dec_key: KeyMap<KeySet>,
    entries: KeyMap<Entry>,
    expired: KeyMap<u64>,
    accounts: KeyMap<StatementsForAccount>,
    by_global_priority: PriorityQueue,
    max_entries: usize,
    max_size: usize,
}

impl Index {
    /// The live statements: the authoritative record of what is held.
    pub closed spec fn entries(&self) -> Map<crate::keys::Hash, Entry> {
        self.entries@
    }

    /// The expired statements, each with the time at which it expired.
    pub closed spec fn expired(&self) -> Map<crate::keys::Hash, u64> {
        self.expired@
    }

    /// The per-account records.
    pub closed spec fn accounts(&self) -> Map<AccountId, StatementsForAccount> {
        self.accounts@
    }

    /// The live statements of all accounts in ascending order of their
    /// global priority.
    pub closed spec fn by_global_priority(&self) -> Seq<QueueEntry> {
        self.by_global_priority@
    }

    /// The sets of live statements by topic.
    pub closed spec fn by_topic(&self) -> Map<[u8; 32], KeySet> {
        self.by_topic@
    }

    /// The sets of live statements by decryption key.
    pub closed spec fn by_dec_key(&self) -> Map<[u8; 32], KeySet> {
        self.by_dec_key@
    }

    /// The live statements that declare the topic `t`.
    pub open spec fn topic_set(&self, t: Topic) -> Set<crate::keys::Hash> {
        members(self.by_topic(), t)
    }

    /// The live statements whose payload the key `k` decrypts.
    pub open spec fn key_set(&self, k: DecryptionKey) -> Set<crate::keys::Hash> {
        members(self.by_dec_key(), k)
    }

    /// Limit on the number of live statements.
    pub closed spec fn max_entries(&self) -> nat {
        self.max_entries as nat
    }

    /// Limit on the sum of the payload lengths of the live statements.
    pub closed spec fn max_size(&self) -> nat {
        self.max_size as nat
    }

    /// Number of live statements.
    pub closed spec fn live_count(&self) -> nat {
        self.entries.count()
    }

    /// Number of expired statements.
    pub closed spec fn expired_count(&self) -> nat {
        self.expired.count()
    }

    /// Number of accounts with a live statement.
    pub closed spec fn accounts_count(&self) -> nat {
        self.accounts.count()
    }

    /// Sum of the payload lengths of the live statements.
    pub open spec fn total_size(&self) -> nat {
        total_len(self.by_global_priority())
    }

    /// Sum of the payload lengths of the live statements of account `a`.
    pub open spec fn account_size(&self, a: AccountId) -> nat {
        if self.accounts().contains_key(a) {
            self.accounts()[a].data_size()
        } else {
            0
        }
    }

    /// Number of live statements of account `a`.
    pub open spec fn account_count(&self, a: AccountId) -> nat {
        if self.accounts().contains_key(a) {
            self.accounts()[a].by_priority().len()
        } else {
            0
        }
    }

    /// The statement of account `a` that occupies the channel `c`.
    pub open spec fn channel_holder(&self, a: AccountId, c: Channel) -> Option<
        crate::account::ChannelEntry,
    > {
        if self.accounts().contains_key(a) && self.accounts()[a].channels().contains_key(c) {
            Some(self.accounts()[a].channels()[c])
        } else {
            None
        }
    }

    /// Whether another statement than `hash` occupies the channel of
    /// account `a`.
    pub open spec fn channel_taken(
        &self,
        a: AccountId,
        channel: Option<Channel>,
        hash: crate::keys::Hash,
    ) -> bool {
        match channel {
            Some(c) => match self.channel_holder(a, c) {
                Some(o) => o.hash != hash,
                None => false,
            },
            None => false,
        }
    }

    /// Whether the record `e` can be loaded for `hash`: its channel is not
    /// taken by another statement.
    pub open spec fn can_load(&self, hash: crate::keys::Hash, e: Entry) -> bool {
        !self.channel_taken(e.account, e.channel, hash)
    }

    /// First step of an admission: the statement that occupies the
    /// incoming statement's channel has to make way, which it does only for
    /// a strictly higher priority and never for a copy of itself.
    pub open spec fn channel_plan(&self, hash: crate::keys::Hash, e: Entry) -> Option<Evictions> {
        match e.channel {
            Some(c) => match self.channel_holder(e.account, c) {
                Some(o) => if e.priority <= o.priority || o.hash == hash {
                    None
                } else {
                    Some(
                        Evictions {
                            hashes: seq![o.hash],
                            freed: self.entries()[o.hash].len as nat,
                        },
                    )
                },
                None => Some(Evictions { hashes: Seq::empty(), freed: 0 }),
            },
            None => Some(Evictions { hashes: Seq::empty(), freed: 0 }),
        }
    }

    /// The queue of the account `a`; empty for an account without live
    /// statements.
    pub open spec fn account_queue(&self, a: AccountId) -> Seq<QueueEntry> {
        if self.accounts().contains_key(a) {
            self.accounts()[a].by_priority()
        } else {
            Seq::empty()
        }
    }

    /// The account tier of an admission: after the channel step, room is
    /// made in the account's queue under the limits the validator gave.
    /// An account without live statements has an empty queue, and the
    /// statement has to fit under the limits all the same.
    pub open spec fn account_plan(
        &self,
        hash: crate::keys::Hash,
        e: Entry,
        v: ValidStatement,
    ) -> Option<Evictions> {
        match self.channel_plan(hash, e) {
            Some(ev) => make_room(
                self.account_queue(e.account),
                0,
                ev,
                self.account_size(e.account),
                demand(hash, e, v.max_size as nat, v.max_count as nat),
            ),
            None => None,
        }
    }

    /// The statements that have to be evicted so that the statement `hash`
    /// with the record `e` can be admitted, in the order of their eviction;
    /// `None` where the statement is not admitted. A statement whose
    /// payload is longer than the validator allows is never admitted. Else
    /// room is made first in the account tier, walking the account's queue
    /// in ascending order of the statements' own priority, and after it in
    /// the global tier, walking the global queue in ascending order of
    /// global priority; both have to succeed. In both tiers only
    /// statements of a strictly lower own priority are evicted.
    pub open spec fn plan(&self, hash: crate::keys::Hash, e: Entry, v: ValidStatement) -> Option<
        Seq<crate::keys::Hash>,
    > {
        if e.len > v.max_size {
            None
        } else {
            match self.account_plan(hash, e, v) {
                Some(ev) => match make_room(
                    self.by_global_priority(),
                    0,
                    ev,
                    self.total_size(),
                    demand(hash, e, self.max_size(), self.max_entries()),
                ) {
                    Some(out) => Some(out.hashes),
                    None => None,
                },
                None => None,
            }
        }
    }

    /// What holds of the evictions `ev` that the account tier of a plan
    /// chose.
    pub open spec fn account_facts(
        &self,
        hash: crate::keys::Hash,
        e: Entry,
        v: ValidStatement,
        ev: Seq<crate::keys::Hash>,
    ) -> bool {
        &&& ev.no_duplicates()
        &&& forall|k: int|
            0 <= k < ev.len() ==> self.entries().contains_key(#[trigger] ev[k]) && ev[k] != hash
                && self.entries()[ev[k]].account == e.account && self.entries()[ev[k]].priority
                < e.priority
        &&& self.account_size(e.account) - freed_sum(self.entries(), ev) + e.len <= v.max_size
        &&& self.account_count(e.account) + 1 - ev.len() <= v.max_count
        &&& forall|c: Channel|
            e.channel == Some(c) && (#[trigger] self.channel_holder(e.account, c)).is_some() ==> {
                &&& ev.len() >= 1
                &&& ev[0] == self.channel_holder(e.account, c).unwrap().hash
                &&& self.entries()[ev[0]].channel == Some(c)
                &&& self.channel_holder(e.account, c).unwrap().priority < e.priority
            }
    }

    /// What holds of the evictions `ev` that a plan chose, of which the
    /// first `n1` were chosen in the account tier.
    pub open spec fn eviction_facts(
        &self,
        hash: crate::keys::Hash,
        e: Entry,
        v: ValidStatement,
        ev: Seq<crate::keys::Hash>,
        n1: int,
    ) -> bool {
        &&& 0 <= n1 <= ev.len()
        &&& ev.no_duplicates()
        &&& forall|k: int|
            0 <= k < ev.len() ==> self.entries().contains_key(#[trigger] ev[k]) && ev[k] != hash
        &&& forall|k: int| 0 <= k < n1 ==> self.entries()[#[trigger] ev[k]].account == e.account
        &&& forall|k: int|
            0 <= k < ev.len() ==> self.entries()[#[trigger] ev[k]].priority < e.priority
        &&& e.len <= v.max_size
        &&& self.account_size(e.account) - freed_sum(self.entries(), ev.subrange(0, n1)) + e.len
            <= v.max_size
        &&& self.account_count(e.account) + 1 - n1 <= v.max_count
        &&& self.total_size() - freed_sum(self.entries(), ev) + e.len <= self.max_size()
        &&& self.live_count() + 1 - ev.len() <= self.max_entries()
        &&& forall|c: Channel|
            e.channel == Some(c) && (#[trigger] self.channel_holder(e.account, c)).is_some() ==> {
                &&& n1 >= 1
                &&& ev[0] == self.channel_holder(e.account, c).unwrap().hash
                &&& self.entries()[ev[0]].channel == Some(c)
                &&& self.channel_holder(e.account, c).unwrap().priority < e.priority
            }
    }

    /// Whether the expired statement `h` is due to be forgotten at `now`.
    pub open spec fn purge_due(&self, h: crate::keys::Hash, now: u64) -> bool {
        self.expired().contains_key(h) && self.expired()[h] + PURGE_AFTER <= now
    }

    /// Whether the live statement `h` declares every topic of `topics` and,
    /// where a key is asked for, names that key.
    pub open spec fn matches(
        &self,
        h: crate::keys::Hash,
        key: Option<DecryptionKey>,
        topics: Seq<Topic>,
    ) -> bool {
        &&& self.entries().contains_key(h)
        &&& forall|i: int| 0 <= i < topics.len() ==> has_topic(self.entries()[h], #[trigger] topics[i])
        &&& key.is_some() ==> self.entries()[h].decryption_key == key
    }

    /// Whether the statement `h` is recorded under every topic of `topics`.
    pub open spec fn in_all(&self, topics: Seq<Topic>, h: crate::keys::Hash) -> bool {
        forall|j: int| 0 <= j < topics.len() ==> self.topic_set(#[trigger] topics[j]).contains(h)
    }

    /// The containers are well formed each by itself.
    pub closed spec fn parts_wf(&self) -> bool {
        &&& self.by_topic.wf()
        &&& self.by_dec_key.wf()
        &&& self.entries.wf()
        &&& self.expired.wf()
        &&& self.accounts.wf()
        &&& self.by_global_priority.wf()
        &&& sets_wf(self.by_topic@)
        &&& sets_wf(self.by_dec_key@)
    }

    /// The invariant of the index: every queue and set holds exactly what
    /// the live statements say it should, and no statement is live and
    /// expired at once.
    pub open spec fn wf(&self) -> bool {
        &&& self.parts_wf()
        &&& disjoint(self.entries(), self.expired())
        &&& self.live_count() == self.by_global_priority().len()
        &&& sorted(self.by_global_priority())
        &&& queue_matches(self.by_global_priority(), self.entries())
        &&& accounts_match(self.accounts(), self.entries())
        &&& topics_match(self.by_topic(), self.entries())
        &&& keys_match(self.by_dec_key(), self.entries())
    }

    /// An empty index with the default limits.
    pub fn new() -> (index: Index)
        ensures
            index.wf(),
            index.entries() == Map::<crate::keys::Hash, Entry>::empty(),
            index.expired() == Map::<crate::keys::Hash, u64>::empty(),
            index.max_entries() == MAX_LIVE_STATEMENTS,
            index.max_size() == MAX_TOTAL_SIZE,
    {
        Index::with_limits(MAX_LIVE_STATEMENTS, MAX_TOTAL_SIZE)
    }

    /// An empty index with the given limits.
    pub fn with_limits(max_entries: usize, max_size: usize) -> (index: Index)
        ensures
            index.wf(),
            index.entries() == Map::<crate::keys::Hash, Entry>::empty(),
            index.expired() == Map::<crate::keys::Hash, u64>::empty(),
            index.max_entries() == max_entries,
            index.max_size() == max_size,
    {
        let index = Index {
            by_topic: KeyMap::new(),
            by_dec_key: KeyMap::new(),
            entries: KeyMap::new(),
            expired: KeyMap::new(),
            accounts: KeyMap::new(),
            by_global_priority: PriorityQueue::new(),
            max_entries,
            max_size,
        };
        proof {
            index.by_global_priority.lemma_wf();
        }
        index
    }

    /// What the index knows of `hash`.
    pub fn query(&self, hash: &crate::keys::Hash) -> (r: crate::types::IndexQuery)
        requires
            self.wf(),
        ensures
            r == (if self.entries().contains_key(*hash) {
                crate::types::IndexQuery::Exists
            } else if self.expired().contains_key(*hash) {
                crate::types::IndexQuery::Expired
            } else {
                crate::types::IndexQuery::Unknown
            }),
    {
        if self.entries.contains_key(hash) {
            return crate::types::IndexQuery::Exists;
        }
        if self.expired.contains_key(hash) {
            return crate::types::IndexQuery::Expired;
        }
        crate::types::IndexQuery::Unknown
    }

    /// Whether `hash` has expired and is not forgotten yet.
    pub fn is_expired(&self, hash: &crate::keys::Hash) -> (r: bool)
        requires
            self.wf(),
        ensures
            r == self.expired().contains_key(*hash),
    {
        self.expired.contains_key(hash)
    }

    /// Records that `hash` expired at `timestamp`, unless the statement is
    /// live: a live statement is never expired at the same time.
    pub fn insert_expired(&mut self, hash: crate::keys::Hash, timestamp: u64)
        requires
            old(self).wf(),
        ensures
            final(self).wf(),
            final(self).entries() == old(self).entries(),
            final(self).expired() == (if old(self).entries().contains_key(hash) {
                old(self).expired()
            } else {
                old(self).expired().insert(hash, timestamp)
            }),
            final(self).max_entries() == old(self).max_entries(),
            final(self).max_size() == old(self).max_size(),
            final(self).by_global_priority() == old(self).by_global_priority(),
            final(self).accounts() == old(self).accounts(),
            final(self).by_topic() == old(self).by_topic(),
            final(self).by_dec_key() == old(self).by_dec_key(),
    {
        if !self.entries.contains_key(&hash) {
            self.expired.insert(hash, timestamp);
        }
    }
    /// The statement that occupies a channel is a live statement of the
    /// account that names the channel, and a channel that no statement
    /// occupies is named by no live statement of the account.
    pub proof fn lemma_channel_holder(&self, a: AccountId, c: Channel)
        requires
            self.wf(),
        ensures
            match self.channel_holder(a, c) {
                Some(o) => {
                    &&& self.entries().contains_key(o.hash)
                    &&& self.entries()[o.hash].account == a
                    &&& self.entries()[o.hash].channel == Some(c)
                    &&& self.entries()[o.hash].priority == o.priority
                },
                None => forall|h: crate::keys::Hash|
                    !(#[trigger] self.entries().contains_key(h) && self.entries()[h].account == a
                        && self.entries()[h].channel == Some(c)),
            },
    {
        let entries = self.entries();
        if self.accounts().contains_key(a) {
            let rec = self.accounts()[a];
            let aq = rec.by_priority();
            rec.lemma_wf();
            if rec.channels().contains_key(c) {
                let i = choose|i: int|
                    0 <= i < aq.len() && (#[trigger] aq[i]).channel == Some(c) && rec.channels()[c]
                        == crate::account::occupant(aq[i]);
                assert(entries.contains_key(aq[i].key.hash));
            } else {
                assert forall|h: crate::keys::Hash|
                    !(#[trigger] entries.contains_key(h) && entries[h].account == a
                        && entries[h].channel == Some(c)) by {
                    if entries.contains_key(h) && entries[h].account == a && entries[h].channel
                        == Some(c) {
                        assert(aq.contains(account_item(h, entries[h])));
                        let i = choose|i: int|
                            0 <= i < aq.len() && aq[i] == account_item(h, entries[h]);
                        assert(aq[i].channel.is_some());
                    }
                }
            }
        } else {
            assert forall|h: crate::keys::Hash|
                !(#[trigger] entries.contains_key(h) && entries[h].account == a
                    && entries[h].channel == Some(c)) by {
                if entries.contains_key(h) {
                    assert(self.accounts().contains_key(entries[h].account));
                }
            }
        }
    }

    /// The index holds as many live statements as the global queue has
    /// entries and as the map of live statements has keys, and as many
    /// expired statements as the map of expired statements has keys.
    pub proof fn law_counts(&self)
        requires
            self.wf(),
        ensures
            self.entries().dom().finite(),
            self.expired().dom().finite(),
            self.accounts().dom().finite(),
            self.live_count() == self.entries().dom().len(),
            self.live_count() == self.by_global_priority().len(),
            self.expired_count() == self.expired().dom().len(),
            self.accounts_count() == self.accounts().dom().len(),
            self.live_count() == 0 ==> self.accounts_count() == 0,
    {
        self.entries.lemma_count();
        self.expired.lemma_count();
        self.accounts.lemma_count();
        if self.live_count() == 0 {
            assert(self.accounts().dom() =~= Set::<AccountId>::empty()) by {
                assert forall|a: AccountId| !self.accounts().dom().contains(a) by {
                    if self.accounts().contains_key(a) {
                        let q = self.accounts()[a].by_priority();
                        let h = q[0].key.hash;
                        assert(self.entries().contains_key(h));
                        assert(self.by_global_priority().contains(
                            global_item(h, self.entries()[h]),
                        ));
                    }
                }
            }
        }
    }

    /// Channel exclusivity: two live statements of one account that name
    /// the same channel are the same statement.
    pub proof fn law_channel_exclusive(&self, h1: crate::keys::Hash, h2: crate::keys::Hash)
        requires
            self.wf(),
            self.entries().contains_key(h1),
            self.entries().contains_key(h2),
            self.entries()[h1].account == self.entries()[h2].account,
            self.entries()[h1].channel.is_some(),
            self.entries()[h1].channel == self.entries()[h2].channel,
        ensures
            h1 == h2,
    {
        let a = self.entries()[h1].account;
        let c = self.entries()[h1].channel.unwrap();
        self.lemma_channel_holder(a, c);
        let entries = self.entries();
        assert(self.accounts().contains_key(a));
        let rec = self.accounts()[a];
        let aq = rec.by_priority();
        assert(aq.contains(account_item(h1, entries[h1])));
        assert(aq.contains(account_item(h2, entries[h2])));
        let i = choose|i: int| 0 <= i < aq.len() && aq[i] == account_item(h1, entries[h1]);
        let j = choose|j: int| 0 <= j < aq.len() && aq[j] == account_item(h2, entries[h2]);
        rec.lemma_channel_exclusive(i, j);
    }

    /// A record can be loaded exactly where no other live statement of
    /// its account names its channel.
    pub proof fn lemma_can_load(&self, hash: crate::keys::Hash, e: Entry)
        requires
            self.wf(),
        ensures
            self.can_load(hash, e) == !channel_conflict(self.entries(), hash, e),
    {
        let entries = self.entries();
        match e.channel {
            Some(c) => {
                self.lemma_channel_holder(e.account, c);
                match self.channel_holder(e.account, c) {
                    Some(o) => {
                        if o.hash != hash {
                            assert(entries.contains_key(o.hash));
                        } else {
                            if channel_conflict(entries, hash, e) {
                                let other = choose|other: crate::keys::Hash|
                                    #[trigger] entries.contains_key(other) && other != hash
                                        && e.channel.is_some() && entries[other].account
                                        == e.account && entries[other].channel == e.channel;
                                self.law_channel_exclusive(other, hash);
                            }
                        }
                    },
                    None => {},
                }
            },
            None => {},
        }
    }

    /// Takes the live statement `hash` out of every queue and set, and hands
    /// back its record.
    fn remove_live(&mut self, hash: &crate::keys::Hash) -> (r: Option<Entry>)
        requires
            old(self).wf(),
        ensures
            final(self).wf(),
            final(self).entries() == old(self).entries().remove(*hash),
            final(self).expired() == old(self).expired(),
            final(self).max_entries() == old(self).max_entries(),
            final(self).max_size() == old(self).max_size(),
            r == (if old(self).entries().contains_key(*hash) {
                Some(old(self).entries()[*hash])
            } else {
                None
            }),
            match r {
                Some(e) => {
                    &&& final(self).total_size() == old(self).total_size() - e.len
                    &&& final(self).live_count() == old(self).live_count() - 1
                    &&& forall|a: AccountId| #[trigger]
                        final(self).account_size(a) == old(self).account_size(a) - (if a
                            == e.account {
                            e.len as int
                        } else {
                            0
                        })
                    &&& forall|a: AccountId| #[trigger]
                        final(self).account_count(a) == old(self).account_count(a) - (if a
                            == e.account {
                            1int
                        } else {
                            0
                        })
                    &&& forall|a: AccountId, c: Channel| #[trigger]
                        final(self).channel_holder(a, c) == (if a == e.account && e.channel
                            == Some(c) {
                            None
                        } else {
                            old(self).channel_holder(a, c)
                        })
                },
                None => *final(self) == *old(self),
            },
    {
        let e: Entry = match self.entries.get(hash) {
            Some(e) => *e,
            None => {
                assert(self.entries@ =~= self.entries@.remove(*hash));
                return None;
            },
        };
        let ghost entries0 = self.entries@;
        let ghost q0 = self.by_global_priority@;
        let ghost accounts0 = self.accounts@;
        let gkey = PriorityKey { hash: *hash, priority: e.global_priority };
        let akey = PriorityKey { hash: *hash, priority: e.priority };
        proof {
            self.by_global_priority.lemma_wf();
            assert(q0.contains(global_item(*hash, e)));
            let k = choose|k: int| 0 <= k < q0.len() && q0[k] == global_item(*hash, e);
            crate::queue::lemma_lookup(q0, k);
            assert(accounts0.contains_key(e.account));
            let aq = accounts0[e.account].by_priority();
            accounts0[e.account].lemma_wf();
            assert(aq.contains(account_item(*hash, e)));
            let m = choose|m: int| 0 <= m < aq.len() && aq[m] == account_item(*hash, e);
            crate::queue::lemma_lookup(aq, m);
        }
        self.entries.remove(hash);
        self.by_global_priority.remove(&gkey);
        drop_member(&mut self.by_topic, e.topics[0], *hash);
        drop_member(&mut self.by_topic, e.topics[1], *hash);
        drop_member(&mut self.by_topic, e.topics[2], *hash);
        drop_member(&mut self.by_topic, e.topics[3], *hash);
        drop_member(&mut self.by_dec_key, e.decryption_key, *hash);
        match self.accounts.remove(&e.account) {
            Some(rec) => {
                let mut rec = rec;
                rec.remove(&akey);
                proof {
                    lemma_account_remove(
                        e.account,
                        accounts0[e.account].by_priority(),
                        rec.by_priority(),
                        entries0,
                        *hash,
                    );
                    rec.lemma_wf();
                    if rec.by_priority().len() == 0 {
                        assert(rec.channels() =~= Map::<Channel, crate::account::ChannelEntry>::empty());
                    }
                }
                if !rec.is_empty() {
                    self.accounts.insert(e.account, rec);
                }
            },
            None => {},
        }
        proof {
            let entries1 = self.entries@;
            let accounts1 = self.accounts@;
            self.by_global_priority.lemma_wf();
            lemma_queue_remove(q0, self.by_global_priority@, entries0, *hash);
            assert forall|a: AccountId| #[trigger] accounts1.contains_key(a) implies accounts1[a].wf()
                && accounts1[a].by_priority().len() > 0 && account_matches(
                a,
                accounts1[a].by_priority(),
                entries1,
            ) by {
                if a != e.account {
                    assert(accounts0.contains_key(a));
                    lemma_account_untouched(a, accounts0[a].by_priority(), entries0, entries1, *hash);
                }
            }
            assert forall|x: crate::keys::Hash| #[trigger]
                entries1.contains_key(x) implies accounts1.contains_key(entries1[x].account) by {
                assert(entries0.contains_key(x));
                if entries0[x].account == e.account {
                    let aq = accounts0[e.account].by_priority();
                    assert(aq.contains(account_item(x, entries0[x])));
                    assert(aq.to_set().contains(account_item(x, entries0[x])));
                }
            }
        }
        Some(e)
    }

    /// Puts a new live statement into every queue and set.
    fn add_entry(&mut self, hash: crate::keys::Hash, e: Entry)
        requires
            old(self).wf(),
            !old(self).entries().contains_key(hash),
            !old(self).expired().contains_key(hash),
            e.channel.is_some() && old(self).accounts().contains_key(e.account) ==> !old(
                self,
            ).accounts()[e.account].channels().contains_key(e.channel.unwrap()),
        ensures
            final(self).wf(),
            final(self).entries() == old(self).entries().insert(hash, e),
            final(self).expired() == old(self).expired(),
            final(self).max_entries() == old(self).max_entries(),
            final(self).max_size() == old(self).max_size(),
            final(self).total_size() == old(self).total_size() + e.len,
            final(self).live_count() == old(self).live_count() + 1,
            forall|a: AccountId| #[trigger]
                final(self).account_size(a) == old(self).account_size(a) + (if a == e.account {
                    e.len as int
                } else {
                    0
                }),
            forall|a: AccountId| #[trigger]
                final(self).account_count(a) == old(self).account_count(a) + (if a == e.account {
                    1int
                } else {
                    0
                }),
            forall|a: AccountId, c: Channel| #[trigger]
                final(self).channel_holder(a, c) == (if a == e.account && e.channel == Some(c) {
                    Some(crate::account::ChannelEntry { hash, priority: e.priority })
                } else {
                    old(self).channel_holder(a, c)
                }),
    {
        let ghost entries0 = self.entries@;
        let ghost q0 = self.by_global_priority@;
        let ghost accounts0 = self.accounts@;
        let gitem = QueueEntry {
            key: PriorityKey { hash, priority: e.global_priority },
            priority: e.priority,
            channel: e.channel,
            len: e.len,
        };
        let aitem = QueueEntry {
            key: PriorityKey { hash, priority: e.priority },
            priority: e.priority,
            channel: e.channel,
            len: e.len,
        };
        proof {
            if has_key(q0, gitem.key) {
                let k = choose|k: int| 0 <= k < q0.len() && (#[trigger] q0[k]).key == gitem.key;
                assert(entries0.contains_key(q0[k].key.hash));
            }
        }
        add_optional_member(&mut self.by_topic, e.topics[0], hash);
        add_optional_member(&mut self.by_topic, e.topics[1], hash);
        add_optional_member(&mut self.by_topic, e.topics[2], hash);
        add_optional_member(&mut self.by_topic, e.topics[3], hash);
        add_optional_member(&mut self.by_dec_key, e.decryption_key, hash);
        self.entries.insert(hash, e);
        self.by_global_priority.insert(gitem);
        let mut rec = match self.accounts.remove(&e.account) {
            Some(rec) => rec,
            None => StatementsForAccount::new(),
        };
        let ghost rec0 = rec;
        proof {
            let aq = rec.by_priority();
            if accounts0.contains_key(e.account) {
                if has_key(aq, aitem.key) {
                    let k = choose|k: int| 0 <= k < aq.len() && (#[trigger] aq[k]).key == aitem.key;
                    assert(entries0.contains_key(aq[k].key.hash));
                }
            } else {
                assert(account_matches(e.account, aq, entries0)) by {
                    assert forall|x: crate::keys::Hash| #[trigger]
                        entries0.contains_key(x) implies entries0[x].account != e.account by {
                        assert(accounts0.contains_key(entries0[x].account));
                    }
                }
            }
        }
        rec.insert(aitem);
        proof {
            lemma_account_insert(e.account, rec0.by_priority(), rec.by_priority(), entries0, hash, e);
        }
        self.accounts.insert(e.account, rec);
        proof {
            let entries1 = self.entries@;
            let accounts1 = self.accounts@;
            self.by_global_priority.lemma_wf();
            lemma_queue_insert(q0, self.by_global_priority@, entries0, hash, e);
            assert forall|a: AccountId| #[trigger] accounts1.contains_key(a) implies accounts1[a].wf()
                && accounts1[a].by_priority().len() > 0 && account_matches(
                a,
                accounts1[a].by_priority(),
                entries1,
            ) by {
                if a != e.account {
                    assert(accounts0.contains_key(a));
                    lemma_account_untouched(a, accounts0[a].by_priority(), entries0, entries1, hash);
                }
            }
            assert forall|x: crate::keys::Hash| #[trigger]
                entries1.contains_key(x) implies accounts1.contains_key(entries1[x].account) by {
                if x != hash {
                    assert(entries0.contains_key(x));
                }
            }
        }
    }

    /// Makes the live statement `hash` expired at `current_time`. The result
    /// says whether the statement was live; where it was not, nothing
    /// changes.
    pub fn make_expired(&mut self, hash: &crate::keys::Hash, current_time: u64) -> (r: bool)
        requires
            old(self).wf(),
        ensures
            final(self).wf(),
            r == old(self).entries().contains_key(*hash),
            final(self).max_entries() == old(self).max_entries(),
            final(self).max_size() == old(self).max_size(),
            r ==> final(self).entries() == old(self).entries().remove(*hash),
            r ==> final(self).expired() == old(self).expired().insert(*hash, current_time),
            r ==> final(self).total_size() == old(self).total_size() - old(
                self,
            ).entries()[*hash].len,
            r ==> final(self).live_count() == old(self).live_count() - 1,
            r ==> forall|a: AccountId| #[trigger]
                final(self).account_size(a) == old(self).account_size(a) - (if a == old(
                    self,
                ).entries()[*hash].account {
                    old(self).entries()[*hash].len as int
                } else {
                    0
                }),
            r ==> forall|a: AccountId| #[trigger]
                final(self).account_count(a) == old(self).account_count(a) - (if a == old(
                    self,
                ).entries()[*hash].account {
                    1int
                } else {
                    0
                }),
            r ==> forall|a: AccountId, c: Channel| #[trigger]
                final(self).channel_holder(a, c) == (if a == old(self).entries()[*hash].account
                    && old(self).entries()[*hash].channel == Some(c) {
                    None
                } else {
                    old(self).channel_holder(a, c)
                }),
            !r ==> *final(self) == *old(self),
    {
        match self.remove_live(hash) {
            Some(e) => {
                let ghost mid = *self;
                self.expired.insert(*hash, current_time);
                proof {
                    assert(self.accounts() == mid.accounts());
                    assert forall|a: AccountId| #[trigger]
                        self.account_size(a) == old(self).account_size(a) - (if a == e.account {
                            e.len as int
                        } else {
                            0
                        }) by {
                        assert(self.account_size(a) == mid.account_size(a));
                    }
                    assert forall|a: AccountId| #[trigger]
                        self.account_count(a) == old(self).account_count(a) - (if a == e.account {
                            1int
                        } else {
                            0
                        }) by {
                        assert(self.account_count(a) == mid.account_count(a));
                    }
                    assert forall|a: AccountId, c: Channel| #[trigger]
                        self.channel_holder(a, c) == (if a == e.account && e.channel == Some(c) {
                            None
                        } else {
                            old(self).channel_holder(a, c)
                        }) by {
                        assert(self.channel_holder(a, c) == mid.channel_holder(a, c));
                    }
                }
                true
            },
            None => false,
        }
    }
    /// The account tier of the plan: the channel step and the walk over
    /// the account's queue.
    fn plan_account(&self, hash: &crate::keys::Hash, e: &Entry, v: &ValidStatement) -> (r: Option<
        (Vec<crate::keys::Hash>, u128),
    >)
        requires
            self.wf(),
        ensures
            match r {
                Some((ev, freed)) => {
                    &&& self.account_plan(*hash, *e, *v) == Some(
                        Evictions { hashes: ev@, freed: freed as nat },
                    )
                    &&& freed == freed_sum(self.entries(), ev@)
                    &&& freed <= ev@.len() * usize::MAX
                    &&& self.account_facts(*hash, *e, *v, ev@)
                },
                None => self.account_plan(*hash, *e, *v).is_none(),
            },
    {
        let ghost entries = self.entries@;
        let mut evicted: Vec<crate::keys::Hash> = Vec::new();
        let mut freed: u128 = 0;
        let rec = match self.accounts.get(&e.account) {
            Some(rec) => rec,
            None => {
                let none = PriorityQueue::new();
                if !walk(
                    &none,
                    &mut evicted,
                    &mut freed,
                    0,
                    e.len,
                    e.priority,
                    hash,
                    v.max_size as usize,
                    v.max_count as usize,
                    Ghost(entries),
                ) {
                    return None;
                }
                proof {
                    if evicted@.len() > 0 {
                        assert(lower_in(none@, evicted@[0], e.priority));
                    }
                }
                return Some((evicted, freed));
            },
        };
        let ghost aq = rec.by_priority();
        proof {
            rec.lemma_wf();
            assert(self.accounts().contains_key(e.account));
            assert(account_matches(e.account, aq, entries));
        }
        match e.channel {
            Some(c) => {
                match rec.channel(&c) {
                    Some(o) => {
                        if e.priority <= o.priority || same_bytes(&o.hash, hash) {
                            return None;
                        }
                        let key = PriorityKey { hash: o.hash, priority: o.priority };
                        proof {
                            let i = choose|i: int|
                                0 <= i < aq.len() && (#[trigger] aq[i]).channel == Some(c)
                                    && rec.channels()[c] == crate::account::occupant(aq[i]);
                            assert(aq[i].key == key);
                            crate::queue::lemma_lookup(aq, i);
                            assert(entries.contains_key(aq[i].key.hash));
                            assert(aq[i] == account_item(o.hash, entries[o.hash]));
                        }
                        match rec.get(&key) {
                            Some(item) => {
                                freed = item.len as u128;
                                evicted.push(o.hash);
                                proof {
                                    assert(evicted@ =~= seq![o.hash]);
                                    assert(evicted@.drop_last() =~= Seq::<
                                        crate::keys::Hash,
                                    >::empty());
                                    assert(freed_sum(entries, evicted@) == freed_sum(
                                        entries,
                                        evicted@.drop_last(),
                                    ) + entries[o.hash].len);
                                }
                            },
                            None => {},
                        }
                    },
                    None => {},
                }
            },
            None => {},
        }
        let ghost start = evicted@;
        proof {
            assert(self.channel_plan(*hash, *e) == Some(
                Evictions { hashes: start, freed: freed as nat },
            ));
            assert(start.len() <= 1);
            assert(forall|k: int|
                0 <= k < start.len() ==> entries.contains_key(#[trigger] start[k]) && start[k]
                    != *hash && entries[start[k]].account == e.account
                    && entries[start[k]].priority < e.priority && entries[start[k]].channel
                    == e.channel);
        }
        if !walk(
            rec.queue(),
            &mut evicted,
            &mut freed,
            rec.size(),
            e.len,
            e.priority,
            hash,
            v.max_size as usize,
            v.max_count as usize,
            Ghost(entries),
        ) {
            return None;
        }
        proof {
            let ev1 = evicted@;
            assert forall|k: int| 0 <= k < ev1.len() implies entries.contains_key(#[trigger] ev1[k])
                && ev1[k] != *hash && entries[ev1[k]].account == e.account
                && entries[ev1[k]].priority < e.priority by {
                if k < start.len() {
                    assert(ev1.subrange(0, start.len() as int)[k] == ev1[k]);
                } else {
                    assert(lower_in(aq, ev1[k], e.priority));
                    let i = choose|i: int|
                        0 <= i < aq.len() && (#[trigger] aq[i]).key.hash == ev1[k]
                            && aq[i].priority < e.priority;
                    assert(entries.contains_key(aq[i].key.hash));
                }
            }
            assert(ev1.no_duplicates()) by {
                assert forall|m: int, k: int|
                    0 <= m < ev1.len() && 0 <= k < ev1.len() && m != k implies ev1[m] != ev1[k] by {
                    assert(start.len() <= 1);
                }
            }
            assert forall|c: Channel|
                e.channel == Some(c) && (#[trigger] self.channel_holder(
                    e.account,
                    c,
                )).is_some() implies ev1.len() >= 1 && ev1[0] == self.channel_holder(
                e.account,
                c,
            ).unwrap().hash && entries[ev1[0]].channel == Some(c) && self.channel_holder(
                e.account,
                c,
            ).unwrap().priority < e.priority by {
                assert(start.len() == 1);
                assert(ev1.subrange(0, start.len() as int)[0] == ev1[0]);
            }
        }
        Some((evicted, freed))
    }

    /// Works out which statements have to be evicted for the statement
    /// `hash` with the record `e`, without changing anything.
    fn plan_evictions(&self, hash: &crate::keys::Hash, e: &Entry, v: &ValidStatement) -> (r: Option<
        (Vec<crate::keys::Hash>, Ghost<int>),
    >)
        requires
            self.wf(),
        ensures
            match r {
                Some((ev, n1)) => self.plan(*hash, *e, *v) == Some(ev@) && self.eviction_facts(
                    *hash,
                    *e,
                    *v,
                    ev@,
                    n1@,
                ),
                None => self.plan(*hash, *e, *v).is_none(),
            },
    {
        if e.len > v.max_size as usize {
            return None;
        }
        let ghost entries = self.entries@;
        let (mut evicted, mut freed) = match self.plan_account(hash, e, v) {
            Some(p) => p,
            None => {
                return None;
            },
        };
        let ghost ev1 = evicted@;
        let ghost gq = self.by_global_priority@;
        proof {
            self.by_global_priority.lemma_wf();
        }
        if !walk(
            &self.by_global_priority,
            &mut evicted,
            &mut freed,
            self.by_global_priority.total(),
            e.len,
            e.priority,
            hash,
            self.max_size,
            self.max_entries,
            Ghost(entries),
        ) {
            return None;
        }
        let ghost n1 = ev1.len() as int;
        proof {
            let ev = evicted@;
            assert(ev.subrange(0, n1) == ev1);
            assert forall|k: int| 0 <= k < ev.len() implies entries.contains_key(#[trigger] ev[k])
                && ev[k] != *hash by {
                if k < n1 {
                    assert(ev.subrange(0, n1)[k] == ev[k]);
                } else {
                    assert(lower_in(gq, ev[k], e.priority));
                    let i = choose|i: int|
                        0 <= i < gq.len() && (#[trigger] gq[i]).key.hash == ev[k]
                            && gq[i].priority < e.priority;
                    assert(entries.contains_key(gq[i].key.hash));
                }
            }
            assert forall|k: int| 0 <= k < n1 implies entries[#[trigger] ev[k]].account
                == e.account by {
                assert(ev.subrange(0, n1)[k] == ev[k]);
            }
            assert forall|k: int| 0 <= k < ev.len() implies entries[#[trigger] ev[k]].priority
                < e.priority by {
                if k < n1 {
                    assert(ev.subrange(0, n1)[k] == ev[k]);
                } else {
                    assert(lower_in(gq, ev[k], e.priority));
                    let i = choose|i: int|
                        0 <= i < gq.len() && (#[trigger] gq[i]).key.hash == ev[k] && gq[i].priority
                            < e.priority;
                    assert(entries.contains_key(gq[i].key.hash));
                }
            }
            assert(ev.no_duplicates()) by {
                assert forall|m: int, k: int|
                    0 <= m < ev.len() && 0 <= k < ev.len() && m != k implies ev[m] != ev[k] by {
                    let lo = if m < k { m } else { k };
                    let hi = if m < k { k } else { m };
                    if hi < n1 {
                        assert(ev.subrange(0, n1)[lo] == ev[lo]);
                        assert(ev.subrange(0, n1)[hi] == ev[hi]);
                    }
                }
            }
            assert forall|c: Channel|
                e.channel == Some(c) && (#[trigger] self.channel_holder(
                    e.account,
                    c,
                )).is_some() implies n1 >= 1 && ev[0] == self.channel_holder(
                e.account,
                c,
            ).unwrap().hash && entries[ev[0]].channel == Some(c) && self.channel_holder(
                e.account,
                c,
            ).unwrap().priority < e.priority by {
                assert(ev.subrange(0, n1)[0] == ev[0]);
            }
        }
        Some((evicted, Ghost(n1)))
    }

    /// Makes the statements `evicted` expired, one after the other.
    fn apply_evictions(
        &mut self,
        evicted: &Vec<crate::keys::Hash>,
        now: u64,
        Ghost(account): Ghost<AccountId>,
        Ghost(n1): Ghost<int>,
    )
        requires
            old(self).wf(),
            evicted@.no_duplicates(),
            forall|k: int|
                0 <= k < evicted@.len() ==> old(self).entries().contains_key(#[trigger] evicted@[k]),
            0 <= n1 <= evicted@.len(),
            forall|k: int|
                0 <= k < n1 ==> old(self).entries()[#[trigger] evicted@[k]].account == account,
        ensures
            final(self).wf(),
            final(self).max_entries() == old(self).max_entries(),
            final(self).max_size() == old(self).max_size(),
            final(self).entries() == old(self).entries().remove_keys(evicted@.to_set()),
            final(self).expired() == expired_after(old(self).expired(), evicted@, now),
            final(self).total_size() == old(self).total_size() - freed_sum(
                old(self).entries(),
                evicted@,
            ),
            final(self).live_count() == old(self).live_count() - evicted@.len(),
            final(self).account_size(account) <= old(self).account_size(account) - freed_sum(
                old(self).entries(),
                evicted@.subrange(0, n1),
            ),
            final(self).account_count(account) <= old(self).account_count(account) - n1,
            forall|a: AccountId, c: Channel|
                (#[trigger] final(self).channel_holder(a, c)).is_some() ==> final(self).channel_holder(a, c) == old(self).channel_holder(a, c),
            forall|k: int, c: Channel|
                0 <= k < evicted@.len() && old(self).entries()[evicted@[k]].channel == Some(c) ==> (
                #[trigger] final(self).channel_holder(
                    old(self).entries()[evicted@[k]].account,
                    c,
                )).is_none(),
    {
        let ghost entries0 = self.entries();
        let ghost expired0 = self.expired();
        let mut k: usize = 0;
        proof {
            assert(evicted@.subrange(0, 0) =~= Seq::<crate::keys::Hash>::empty());
            assert(entries0.remove_keys(evicted@.subrange(0, 0).to_set()) =~= entries0);
            assert(expired_after(expired0, evicted@.subrange(0, 0), now) =~= expired0);
        }
        while k < evicted.len()
            invariant
                k <= evicted@.len(),
                self.wf(),
                entries0 == old(self).entries(),
                expired0 == old(self).expired(),
                evicted@.no_duplicates(),
                forall|j: int|
                    0 <= j < evicted@.len() ==> entries0.contains_key(#[trigger] evicted@[j]),
                0 <= n1 <= evicted@.len(),
                forall|j: int| 0 <= j < n1 ==> entries0[#[trigger] evicted@[j]].account == account,
                self.max_entries() == old(self).max_entries(),
                self.max_size() == old(self).max_size(),
                self.entries() == entries0.remove_keys(evicted@.subrange(0, k as int).to_set()),
                self.expired() == expired_after(expired0, evicted@.subrange(0, k as int), now),
                self.total_size() == old(self).total_size() - freed_sum(
                    entries0,
                    evicted@.subrange(0, k as int),
                ),
                self.live_count() == old(self).live_count() - k,
                self.account_size(account) <= old(self).account_size(account) - freed_sum(
                    entries0,
                    evicted@.subrange(0, if k < n1 { k as int } else { n1 }),
                ),
                self.account_count(account) <= old(self).account_count(account) - (if k < n1 {
                    k as int
                } else {
                    n1
                }),
                forall|a: AccountId, c: Channel|
                    (#[trigger] self.channel_holder(a, c)).is_some() ==> self.channel_holder(a, c)
                        == old(self).channel_holder(a, c),
                forall|j: int, c: Channel|
                    0 <= j < k && entries0[evicted@[j]].channel == Some(c) ==> (
                    #[trigger] self.channel_holder(entries0[evicted@[j]].account, c)).is_none(),
            decreases evicted@.len() - k,
        {
            let ghost before = *self;
            let ghost prefix = evicted@.subrange(0, k as int);
            let ghost h = evicted@[k as int];
            proof {
                assert(!prefix.contains(h)) by {
                    if prefix.contains(h) {
                        let j = choose|j: int| 0 <= j < prefix.len() && prefix[j] == h;
                        assert(evicted@[j] == h);
                    }
                }
                assert(self.entries().contains_key(h));
                assert(self.entries()[h] == entries0[h]);
            }
            self.make_expired(&evicted[k], now);
            proof {
                let next = evicted@.subrange(0, k + 1);
                assert(next.drop_last() =~= prefix);
                assert(next.last() == h);
                assert(next.to_set() =~= prefix.to_set().insert(h)) by {
                    assert forall|x: crate::keys::Hash| next.contains(x) implies prefix.contains(x)
                        || x == h by {
                        let j = choose|j: int| 0 <= j < next.len() && next[j] == x;
                        if j < k {
                            assert(prefix[j] == x);
                        }
                    }
                    assert forall|x: crate::keys::Hash| prefix.contains(x) || x == h implies next.contains(
                        x,
                    ) by {
                        if prefix.contains(x) {
                            let j = choose|j: int| 0 <= j < prefix.len() && prefix[j] == x;
                            assert(next[j] == x);
                        } else {
                            assert(next[k as int] == x);
                        }
                    }
                }
                assert(self.entries() =~= entries0.remove_keys(next.to_set()));
                assert(self.expired() =~= expired_after(expired0, next, now)) by {
                    assert forall|x: crate::keys::Hash| next.contains(x) == (prefix.contains(x) || x
                        == h) by {
                        assert(next.to_set().contains(x) == prefix.to_set().insert(h).contains(x));
                    }
                }
                if k < n1 {
                    assert(evicted@.subrange(0, k + 1) == next);
                    assert(self.account_size(account) == before.account_size(account)
                        - entries0[h].len);
                } else {
                    assert(self.account_size(account) <= before.account_size(account));
                    assert(self.account_count(account) <= before.account_count(account));
                }
                assert forall|a: AccountId, c: Channel|
                    (#[trigger] self.channel_holder(a, c)).is_some() implies self.channel_holder(
                    a,
                    c,
                ) == old(self).channel_holder(a, c) by {
                    assert(self.channel_holder(a, c) == before.channel_holder(a, c));
                }
                assert forall|j: int, c: Channel|
                    0 <= j < k + 1 && entries0[evicted@[j]].channel == Some(c) implies (
                #[trigger] self.channel_holder(entries0[evicted@[j]].account, c)).is_none() by {
                    let a = entries0[evicted@[j]].account;
                    if j < k {
                        assert(before.channel_holder(a, c).is_none());
                        if self.channel_holder(a, c).is_some() {
                            assert(self.channel_holder(a, c) == before.channel_holder(a, c));
                        }
                    }
                }
            }
            k += 1;
        }
        proof {
            assert(evicted@.subrange(0, evicted@.len() as int) =~= evicted@);
        }
    }

    /// Admits the statement `statement` with the content address `hash`
    /// for `account`, under the limits and with the global priority the
    /// validator gave in `validation`, evicting statements of lower
    /// priority where room has to be made.
    ///
    /// The statement is ignored, and nothing changes, where `plan` finds no
    /// way to admit it. Where it is inserted, the evicted statements expire
    /// at `current_time`, in the order in which the result lists them, and the
    /// statement becomes live; an earlier copy of it is replaced, and the
    /// statement is no longer expired. Afterwards the index is within its
    /// limits and the account within the validator's.
    pub fn insert(
        &mut self,
        hash: crate::keys::Hash,
        statement: &Statement,
        account: &AccountId,
        validation: &ValidStatement,
        current_time: u64,
    ) -> (r: MaybeInserted)
        requires
            old(self).wf(),
        ensures
            final(self).wf(),
            final(self).max_entries() == old(self).max_entries(),
            final(self).max_size() == old(self).max_size(),
            match r {
                MaybeInserted::Ignored => {
                    &&& old(self).plan(
                        hash,
                        entry_of(*account, validation.global_priority, statement@),
                        *validation,
                    ).is_none()
                    &&& *final(self) == *old(self)
                },
                MaybeInserted::Inserted(evicted) => {
                    let e = entry_of(*account, validation.global_priority, statement@);
                    &&& old(self).plan(hash, e, *validation) == Some(evicted@)
                    &&& final(self).entries() == old(self).entries().remove_keys(
                        evicted@.to_set(),
                    ).insert(hash, e)
                    &&& final(self).expired() == expired_after(
                        old(self).expired(),
                        evicted@,
                        current_time,
                    ).remove(hash)
                    &&& evicted@.no_duplicates()
                    &&& forall|k: int|
                        0 <= k < evicted@.len() ==> {
                            &&& old(self).entries().contains_key(#[trigger] evicted@[k])
                            &&& evicted@[k] != hash
                            &&& old(self).entries()[evicted@[k]].priority < e.priority
                        }
                    &&& forall|c: Channel|
                        e.channel == Some(c) && (#[trigger] old(self).channel_holder(
                            *account,
                            c,
                        )).is_some() ==> {
                            &&& evicted@.len() >= 1
                            &&& evicted@[0] == old(self).channel_holder(*account, c).unwrap().hash
                            &&& old(self).channel_holder(*account, c).unwrap().priority
                                < e.priority
                        }
                    &&& final(self).total_size() <= final(self).max_size()
                    &&& final(self).live_count() <= final(self).max_entries()
                    &&& final(self).account_size(*account) <= validation.max_size
                    &&& final(self).account_count(*account) <= validation.max_count
                },
            },
    {
        let e = Entry {
            account: *account,
            global_priority: validation.global_priority,
            priority: statement.priority_or_default(),
            channel: statement.channel,
            len: statement.data_len(),
            topics: statement.topics,
            decryption_key: statement.decryption_key,
        };
        let (evicted, Ghost(n1)) = match self.plan_evictions(&hash, &e, validation) {
            Some(p) => p,
            None => {
                return MaybeInserted::Ignored;
            },
        };
        let ghost entries0 = self.entries();
        let ghost ev = evicted@;
        proof {
            assert(old(self).eviction_facts(hash, e, *validation, ev, n1));
        }
        self.apply_evictions(&evicted, current_time, Ghost(*account), Ghost(n1));
        let ghost mid = *self;
        proof {
            // The channel of the incoming statement is free.
            assert forall|c: Channel| e.channel == Some(c) implies mid.channel_holder(
                *account,
                c,
            ).is_none() by {
                if old(self).channel_holder(*account, c).is_some() {
                    assert(entries0[ev[0]].channel == Some(c));
                    assert(entries0[ev[0]].account == *account);
                    assert(mid.channel_holder(entries0[ev[0]].account, c).is_none());
                } else {
                    if mid.channel_holder(*account, c).is_some() {
                        assert(mid.channel_holder(*account, c) == old(self).channel_holder(
                            *account,
                            c,
                        ));
                    }
                }
            }
        }
        self.remove_live(&hash);
        let ghost bare = *self;
        proof {
            assert(bare.account_size(*account) <= mid.account_size(*account));
            assert(bare.account_count(*account) <= mid.account_count(*account));
            assert forall|c: Channel| e.channel == Some(c) implies bare.channel_holder(
                *account,
                c,
            ).is_none() by {
                assert(mid.channel_holder(*account, c).is_none());
            }
        }
        self.expired.remove(&hash);
        let ghost ready = *self;
        proof {
            assert(ready.accounts() == bare.accounts());
            assert(ready.account_size(*account) == bare.account_size(*account));
            assert(ready.account_count(*account) == bare.account_count(*account));
            assert forall|c: Channel| e.channel == Some(c) implies ready.channel_holder(
                *account,
                c,
            ).is_none() by {
                assert(ready.channel_holder(*account, c) == bare.channel_holder(*account, c));
            }
            if e.channel.is_some() {
                assert(ready.channel_holder(*account, e.channel.unwrap()).is_none());
            }
        }
        self.add_entry(hash, e);
        proof {
            assert(self.entries() =~= entries0.remove_keys(ev.to_set()).insert(hash, e));
            assert(self.expired() =~= expired_after(old(self).expired(), ev, current_time).remove(
                hash,
            ));
            assert(self.account_size(*account) == ready.account_size(*account) + e.len);
            assert(self.account_count(*account) == ready.account_count(*account) + 1);
        }
        MaybeInserted::Inserted(evicted)
    }

    /// Loads a statement that was admitted before, with the global priority
    /// it was stored with. An earlier copy of the statement is replaced, and
    /// the statement is no longer expired.
    ///
    /// Nothing is loaded, and nothing changes, where another statement of
    /// the account occupies the statement's channel.
    pub fn insert_new(
        &mut self,
        hash: crate::keys::Hash,
        account: AccountId,
        global_priority: u32,
        statement: &Statement,
    ) -> (loaded: bool)
        requires
            old(self).wf(),
        ensures
            final(self).wf(),
            final(self).max_entries() == old(self).max_entries(),
            final(self).max_size() == old(self).max_size(),
            loaded == !channel_conflict(
                old(self).entries(),
                hash,
                entry_of(account, global_priority, statement@),
            ),
            loaded ==> final(self).entries() == old(self).entries().insert(
                hash,
                entry_of(account, global_priority, statement@),
            ),
            loaded ==> final(self).expired() == old(self).expired().remove(hash),
            !loaded ==> *final(self) == *old(self),
    {
        let e = Entry {
            account,
            global_priority,
            priority: statement.priority_or_default(),
            channel: statement.channel,
            len: statement.data_len(),
            topics: statement.topics,
            decryption_key: statement.decryption_key,
        };
        let ghost entries0 = self.entries();
        proof {
            self.lemma_can_load(hash, e);
        }
        match self.accounts.get(&account) {
            Some(rec) => {
                match e.channel {
                    Some(c) => {
                        match rec.channel(&c) {
                            Some(o) => {
                                if !same_bytes(&o.hash, &hash) {
                                    return false;
                                }
                                proof {
                                    let aq = rec.by_priority();
                                    rec.lemma_wf();
                                    let i = choose|i: int|
                                        0 <= i < aq.len() && (#[trigger] aq[i]).channel == Some(c)
                                            && rec.channels()[c] == crate::account::occupant(aq[i]);
                                    assert(entries0.contains_key(aq[i].key.hash));
                                    assert(entries0[hash].channel == Some(c));
                                    assert(entries0[hash].account == account);
                                }
                            },
                            None => {},
                        }
                    },
                    None => {},
                }
            },
            None => {},
        }
        self.remove_live(&hash);
        let ghost bare = *self;
        proof {
            assert(bare.account_size(account) <= old(self).account_size(account));
            assert forall|c: Channel| e.channel == Some(c) implies bare.channel_holder(
                account,
                c,
            ).is_none() by {
                if old(self).channel_holder(account, c).is_some() {
                    assert(entries0.contains_key(hash));
                }
            }
        }
        self.expired.remove(&hash);
        proof {
            assert(self.accounts() == bare.accounts());
            assert(self.account_size(account) == bare.account_size(account));
            if e.channel.is_some() {
                assert(self.channel_holder(account, e.channel.unwrap()) == bare.channel_holder(
                    account,
                    e.channel.unwrap(),
                ));
            }
        }
        self.add_entry(hash, e);
        proof {
            assert(self.entries() =~= entries0.insert(hash, e));
        }
        true
    }

    /// Forgets the expired statements that expired `PURGE_AFTER` seconds
    /// before `current_time` or earlier, and hands back their hashes, each
    /// once. The live statements are not touched.
    pub fn maintain(&mut self, current_time: u64) -> (purged: Vec<crate::keys::Hash>)
        requires
            old(self).wf(),
        ensures
            final(self).wf(),
            final(self).max_entries() == old(self).max_entries(),
            final(self).max_size() == old(self).max_size(),
            final(self).entries() == old(self).entries(),
            final(self).by_global_priority() == old(self).by_global_priority(),
            final(self).accounts() == old(self).accounts(),
            final(self).by_topic() == old(self).by_topic(),
            final(self).by_dec_key() == old(self).by_dec_key(),
            purged@.no_duplicates(),
            forall|h: crate::keys::Hash|
                #[trigger] purged@.contains(h) <==> old(self).purge_due(h, current_time),
            final(self).expired() == old(self).expired().remove_keys(purged@.to_set()),
    {
        let mut purged: Vec<crate::keys::Hash> = Vec::new();
        let n = self.expired.len();
        let mut i: usize = 0;
        while i < n
            invariant
                i <= n,
                n == self.expired.count(),
                self.expired.wf(),
                *self == *old(self),
                forall|m: int|
                    0 <= m < purged@.len() ==> old(self).purge_due(
                        #[trigger] purged@[m],
                        current_time,
                    ),
                forall|j: int|
                    0 <= j < i && old(self).purge_due(self.expired.key_at(j), current_time)
                        ==> purged@.contains(#[trigger] self.expired.key_at(j)),
                forall|j: int|
                    i <= j < n ==> !purged@.contains(#[trigger] self.expired.key_at(j)),
                purged@.no_duplicates(),
            decreases n - i,
        {
            proof {
                self.expired.lemma_entries();
                assert(self.expired@.contains_key(self.expired.key_at(i as int)));
            }
            let timestamp = *self.expired.value(i);
            if timestamp <= current_time && current_time - timestamp >= PURGE_AFTER {
                let ghost before = purged@;
                purged.push(*self.expired.key(i));
                proof {
                    lemma_pushed(before, purged@, self.expired.key_at(i as int));
                    assert forall|m: int| 0 <= m < purged@.len() implies old(self).purge_due(
                        #[trigger] purged@[m],
                        current_time,
                    ) by {
                        if m < before.len() {
                            assert(purged@[m] == before[m]);
                        }
                    }
                }
            }
            i += 1;
        }
        proof {
            self.expired.lemma_entries();
            assert forall|h: crate::keys::Hash| #[trigger]
                purged@.contains(h) <==> old(self).purge_due(h, current_time) by {
                if purged@.contains(h) {
                    let m = choose|m: int| 0 <= m < purged@.len() && purged@[m] == h;
                    assert(old(self).purge_due(purged@[m], current_time));
                }
                if old(self).purge_due(h, current_time) {
                    assert(self.expired@.contains_key(h));
                    let j = choose|j: int| 0 <= j < n && self.expired.key_at(j) == h;
                    assert(purged@.contains(self.expired.key_at(j)));
                }
            }
            assert(purged@.subrange(0, 0) =~= Seq::<crate::keys::Hash>::empty());
            assert(self.expired() =~= old(self).expired().remove_keys(
                purged@.subrange(0, 0).to_set(),
            ));
        }
        let mut k: usize = 0;
        while k < purged.len()
            invariant
                k <= purged@.len(),
                self.wf(),
                self.max_entries() == old(self).max_entries(),
                self.max_size() == old(self).max_size(),
                self.entries() == old(self).entries(),
                self.by_global_priority() == old(self).by_global_priority(),
                self.accounts() == old(self).accounts(),
                self.by_topic() == old(self).by_topic(),
                self.by_dec_key() == old(self).by_dec_key(),
                self.expired() == old(self).expired().remove_keys(
                    purged@.subrange(0, k as int).to_set(),
                ),
            decreases purged@.len() - k,
        {
            let ghost prefix = purged@.subrange(0, k as int);
            self.expired.remove(&purged[k]);
            proof {
                let next = purged@.subrange(0, k + 1);
                let h = purged@[k as int];
                assert forall|x: crate::keys::Hash| next.contains(x) == (prefix.contains(x) || x
                    == h) by {
                    if next.contains(x) {
                        let j = choose|j: int| 0 <= j < next.len() && next[j] == x;
                        if j < k {
                            assert(prefix[j] == x);
                        }
                    }
                    if prefix.contains(x) {
                        let j = choose|j: int| 0 <= j < prefix.len() && prefix[j] == x;
                        assert(next[j] == x);
                    }
                    if x == h {
                        assert(next[k as int] == x);
                    }
                }
                assert(self.expired() =~= old(self).expired().remove_keys(next.to_set()));
            }
            k += 1;
        }
        proof {
            assert(purged@.subrange(0, purged@.len() as int) =~= purged@);
        }
        purged
    }

    /// Whether the statement `h` is recorded under every topic of `topics`.
    fn in_all_topics(&self, topics: &[Topic], h: &crate::keys::Hash) -> (r: bool)
        requires
            self.wf(),
        ensures
            r == self.in_all(topics@, *h),
    {
        let mut j: usize = 0;
        while j < topics.len()
            invariant
                j <= topics@.len(),
                self.wf(),
                forall|m: int| 0 <= m < j ==> self.topic_set(#[trigger] topics@[m]).contains(*h),
            decreases topics@.len() - j,
        {
            let found = match self.by_topic.get(&topics[j]) {
                Some(set) => set.contains(h),
                None => false,
            };
            if !found {
                assert(!self.topic_set(topics@[j as int]).contains(*h));
                return false;
            }
            j += 1;
        }
        true
    }

    /// For a live statement, being recorded under every topic and under the
    /// key is the same as matching the query.
    proof fn lemma_matches(&self, h: crate::keys::Hash, key: Option<DecryptionKey>, topics: Seq<Topic>)
        requires
            self.wf(),
        ensures
            self.matches(h, key, topics) <==> self.entries().contains_key(h) && self.in_all(
                topics,
                h,
            ) && (key.is_some() ==> self.key_set(key.unwrap()).contains(h)),
    {
        if self.entries().contains_key(h) {
            assert forall|j: int| 0 <= j < topics.len() implies (self.topic_set(
                #[trigger] topics[j],
            ).contains(h) <==> has_topic(self.entries()[h], topics[j])) by {
                assert(members(self.by_topic(), topics[j]).contains(h) <==> has_topic(
                    self.entries()[h],
                    topics[j],
                ));
            }
            if key.is_some() {
                assert(members(self.by_dec_key(), key.unwrap()).contains(h)
                    <==> self.entries()[h].decryption_key == key);
            }
        }
    }

    /// The members of `set` that are recorded under every topic of `topics`,
    /// each once.
    fn filter_set(&self, set: &KeySet, topics: &[Topic]) -> (result: Vec<crate::keys::Hash>)
        requires
            self.wf(),
            set.wf(),
        ensures
            result@.no_duplicates(),
            forall|h: crate::keys::Hash|
                #[trigger] result@.contains(h) <==> set@.contains(h) && self.in_all(topics@, h),
    {
        let mut result: Vec<crate::keys::Hash> = Vec::new();
        let n = set.len();
        let mut i: usize = 0;
        while i < n
            invariant
                i <= n,
                n == set.count(),
                set.wf(),
                self.wf(),
                result@.no_duplicates(),
                forall|m: int|
                    0 <= m < result@.len() ==> set@.contains(#[trigger] result@[m]) && self.in_all(
                        topics@,
                        result@[m],
                    ),
                forall|a: int|
                    0 <= a < i && self.in_all(topics@, set.item_at(a)) ==> result@.contains(
                        #[trigger] set.item_at(a),
                    ),
                forall|a: int| i <= a < n ==> !result@.contains(#[trigger] set.item_at(a)),
            decreases n - i,
        {
            proof {
                set.lemma_items();
                assert(set@.contains(set.item_at(i as int)));
            }
            let item = set.item(i);
            if self.in_all_topics(topics, item) {
                let ghost before = result@;
                result.push(*item);
                proof {
                    lemma_pushed(before, result@, *item);
                    assert forall|m: int| 0 <= m < result@.len() implies set@.contains(
                        #[trigger] result@[m],
                    ) && self.in_all(topics@, result@[m]) by {
                        if m < before.len() {
                            assert(result@[m] == before[m]);
                        }
                    }
                }
            }
            i += 1;
        }
        proof {
            set.lemma_items();
            assert forall|h: crate::keys::Hash| #[trigger]
                result@.contains(h) <==> set@.contains(h) && self.in_all(topics@, h) by {
                if result@.contains(h) {
                    let m = choose|m: int| 0 <= m < result@.len() && result@[m] == h;
                    assert(set@.contains(result@[m]));
                }
                if set@.contains(h) && self.in_all(topics@, h) {
                    let a = choose|a: int| 0 <= a < set.count() && set.item_at(a) == h;
                    assert(result@.contains(set.item_at(a)));
                }
            }
        }
        result
    }

    /// The smallest of the sets recorded for `topics`; `None` where one of
    /// the topics has no set.
    fn smallest_topic_set(&self, topics: &[Topic]) -> (r: Option<&KeySet>)
        requires
            self.wf(),
            topics@.len() > 0,
        ensures
            match r {
                Some(set) => set.wf() && exists|j: int|
                    0 <= j < topics@.len() && set@ == self.topic_set(#[trigger] topics@[j]),
                None => exists|j: int|
                    0 <= j < topics@.len() && self.topic_set(#[trigger] topics@[j])
                        == Set::<crate::keys::Hash>::empty(),
            },
    {
        let mut best: &KeySet = match self.by_topic.get(&topics[0]) {
            Some(set) => set,
            None => {
                assert(self.topic_set(topics@[0]) == Set::<crate::keys::Hash>::empty());
                return None;
            },
        };
        assert(best@ == self.topic_set(topics@[0]));
        let mut j: usize = 1;
        while j < topics.len()
            invariant
                1 <= j <= topics@.len(),
                self.wf(),
                best.wf(),
                exists|m: int| 0 <= m < j && best@ == self.topic_set(#[trigger] topics@[m]),
            decreases topics@.len() - j,
        {
            match self.by_topic.get(&topics[j]) {
                Some(set) => {
                    assert(set@ == self.topic_set(topics@[j as int]));
                    if set.len() < best.len() {
                        best = set;
                    }
                },
                None => {
                    assert(self.topic_set(topics@[j as int]) == Set::<crate::keys::Hash>::empty());
                    return None;
                },
            }
            j += 1;
        }
        Some(best)
    }

    /// The live statements that declare all of `topics` and, where `key` is
    /// given, name that decryption key; each hash once, in no particular
    /// order. Without topics and without a key these are all the live
    /// statements. A statement declares at most four topics, so that more
    /// than four topics match nothing.
    ///
    /// The walk goes over the set of the decryption key where one is given,
    /// else over the smallest of the topics' sets, and keeps what is in all
    /// the sets.
    pub fn iter(&self, key: Option<DecryptionKey>, topics: &[Topic]) -> (r: Vec<crate::keys::Hash>)
        requires
            self.wf(),
        ensures
            r@.no_duplicates(),
            forall|h: crate::keys::Hash|
                #[trigger] r@.contains(h) <==> topics@.len() <= 4 && self.matches(h, key, topics@),
    {
        if topics.len() > 4 {
            return Vec::new();
        }
        proof {
            assert forall|h: crate::keys::Hash|
                self.matches(h, key, topics@) <==> self.entries().contains_key(h) && self.in_all(
                    topics@,
                    h,
                ) && (key.is_some() ==> self.key_set(key.unwrap()).contains(h)) by {
                self.lemma_matches(h, key, topics@);
            }
        }
        match key {
            Some(k) => {
                match self.by_dec_key.get(&k) {
                    Some(set) => {
                        let result = self.filter_set(set, topics);
                        proof {
                            assert forall|h: crate::keys::Hash| #[trigger]
                                result@.contains(h) <==> self.matches(h, key, topics@) by {
                                assert(set@.contains(h) == members(self.by_dec_key(), k).contains(
                                    h,
                                ));
                            }
                        }
                        result
                    },
                    None => Vec::new(),
                }
            },
            None => {
                if topics.len() == 0 {
                    self.all_hashes()
                } else {
                    match self.smallest_topic_set(topics) {
                        Some(set) => {
                            let result = self.filter_set(set, topics);
                            proof {
                                let j = choose|j: int|
                                    0 <= j < topics@.len() && set@ == self.topic_set(
                                        #[trigger] topics@[j],
                                    );
                                assert forall|h: crate::keys::Hash| #[trigger]
                                    result@.contains(h) <==> self.matches(h, key, topics@) by {
                                    if self.in_all(topics@, h) {
                                        assert(self.topic_set(topics@[j]).contains(h));
                                    }
                                    if set@.contains(h) {
                                        assert(members(self.by_topic(), topics@[j]).contains(h));
                                    }
                                }
                            }
                            result
                        },
                        None => {
                            proof {
                                let j = choose|j: int|
                                    0 <= j < topics@.len() && self.topic_set(#[trigger] topics@[j])
                                        == Set::<crate::keys::Hash>::empty();
                                assert forall|h: crate::keys::Hash| !self.matches(
                                    h,
                                    key,
                                    topics@,
                                ) by {
                                    if self.in_all(topics@, h) {
                                        assert(self.topic_set(topics@[j]).contains(h));
                                    }
                                }
                            }
                            Vec::new()
                        },
                    }
                }
            },
        }
    }

    /// The hashes of all live statements, each once.
    fn all_hashes(&self) -> (result: Vec<crate::keys::Hash>)
        requires
            self.wf(),
        ensures
            result@.no_duplicates(),
            forall|h: crate::keys::Hash|
                #[trigger] result@.contains(h) <==> self.entries().contains_key(h),
    {
        let mut result: Vec<crate::keys::Hash> = Vec::new();
        let n = self.entries.len();
        let mut i: usize = 0;
        while i < n
            invariant
                i <= n,
                n == self.entries.count(),
                self.wf(),
                result@.no_duplicates(),
                forall|m: int|
                    0 <= m < result@.len() ==> self.entries().contains_key(#[trigger] result@[m]),
                forall|a: int|
                    0 <= a < i ==> result@.contains(#[trigger] self.entries.key_at(a)),
                forall|a: int| i <= a < n ==> !result@.contains(#[trigger] self.entries.key_at(a)),
            decreases n - i,
        {
            proof {
                self.entries.lemma_entries();
                assert(self.entries@.contains_key(self.entries.key_at(i as int)));
            }
            let ghost before = result@;
            result.push(*self.entries.key(i));
            proof {
                lemma_pushed(before, result@, self.entries.key_at(i as int));
                assert forall|m: int| 0 <= m < result@.len() implies self.entries().contains_key(
                    #[trigger] result@[m],
                ) by {
                    if m < before.len() {
                        assert(result@[m] == before[m]);
                    }
                }
            }
            i += 1;
        }
        proof {
            self.entries.lemma_entries();
            assert forall|h: crate::keys::Hash| #[trigger]
                result@.contains(h) <==> self.entries().contains_key(h) by {
                if result@.contains(h) {
                    let m = choose|m: int| 0 <= m < result@.len() && result@[m] == h;
                    assert(self.entries().contains_key(result@[m]));
                }
                if self.entries().contains_key(h) {
                    let a = choose|a: int|
                        0 <= a < self.entries.count() && self.entries.key_at(a) == h;
                    assert(result@.contains(self.entries.key_at(a)));
                }
            }
        }
        result
    }

    /// Limit on the number of live statements.
    pub fn get_max_entries(&self) -> (n: usize)
        ensures
            n == self.max_entries(),
    {
        self.max_entries
    }

    /// Limit on the sum of the payload lengths of the live statements.
    pub fn get_max_size(&self) -> (n: usize)
        ensures
            n == self.max_size(),
    {
        self.max_size
    }

    /// Sets the limit on the number of live statements. Statements that
    /// are live stay so.
    pub fn set_max_entries(&mut self, max_entries: usize)
        requires
            old(self).wf(),
        ensures
            final(self).wf(),
            final(self).max_entries() == max_entries,
            final(self).max_size() == old(self).max_size(),
            final(self).entries() == old(self).entries(),
            final(self).expired() == old(self).expired(),
            final(self).by_global_priority() == old(self).by_global_priority(),
            final(self).accounts() == old(self).accounts(),
    {
        self.max_entries = max_entries;
    }

    /// Sets the limit on the sum of the payload lengths. Statements that
    /// are live stay so.
    pub fn set_max_size(&mut self, max_size: usize)
        requires
            old(self).wf(),
        ensures
            final(self).wf(),
            final(self).max_size() == max_size,
            final(self).max_entries() == old(self).max_entries(),
            final(self).entries() == old(self).entries(),
            final(self).expired() == old(self).expired(),
            final(self).by_global_priority() == old(self).by_global_priority(),
            final(self).accounts() == old(self).accounts(),
    {
        self.max_size = max_size;
    }

    /// Sum of the payload lengths of the live statements.
    pub fn get_total_size(&self) -> (n: u128)
        requires
            self.wf(),
        ensures
            n == self.total_size(),
    {
        self.by_global_priority.total()
    }

    /// Number of live statements.
    pub fn entries_len(&self) -> (n: usize)
        requires
            self.wf(),
        ensures
            n == self.live_count(),
    {
        self.entries.len()
    }

    /// Number of expired statements.
    pub fn expired_len(&self) -> (n: usize)
        requires
            self.wf(),
        ensures
            n == self.expired_count(),
    {
        self.expired.len()
    }

    /// Number of accounts with a live statement.
    pub fn accounts_len(&self) -> (n: usize)
        requires
            self.wf(),
        ensures
            n == self.accounts_count(),
    {
        self.accounts.len()
    }

    /// Number of entries of the global priority queue.
    pub fn by_global_priority_len(&self) -> (n: usize)
        requires
            self.wf(),
        ensures
            n == self.by_global_priority().len(),
            n == self.live_count(),
    {
        self.by_global_priority.len()
    }

    /// The record of the live statement `hash`.
    pub fn entry(&self, hash: &crate::keys::Hash) -> (r: Option<Entry>)
        requires
            self.wf(),
        ensures
            r == (if self.entries().contains_key(*hash) {
                Some(self.entries()[*hash])
            } else {
                None
            }),
    {
        match self.entries.get(hash) {
            Some(e) => Some(*e),
            None => None,
        }
    }
}

} // verus!
