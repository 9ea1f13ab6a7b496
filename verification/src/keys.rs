//! Fixed-size identifiers and the ordering key of the priority queues.

use vstd::prelude::*;

verus! {

/// Content address of a statement.
pub type Hash = [u8; 32];

/// Application-defined tag used for filtered retrieval.
pub type Topic = [u8; 32];

/// Identifier of the key a statement's payload can be decrypted with.
pub type DecryptionKey = [u8; 32];

/// Hash of a block of the chain.
pub type BlockHash = [u8; 32];

/// Account a statement is attributed to.
pub type AccountId = [u8; 32];

/// Per-account slot that holds at most one live statement.
pub type Channel = [u8; 32];

/// Lexicographic "less than" on two 32-byte strings, looking only at the
/// positions from `from` on.
pub open spec fn bytes_lt_from(a: Seq<u8>, b: Seq<u8>, from: nat) -> bool
    decreases 32 - from,
{
    if from >= 32 {
        false
    } else if a[from as int] != b[from as int] {
        a[from as int] < b[from as int]
    } else {
        bytes_lt_from(a, b, from + 1)
    }
}

/// Lexicographic order of two identifiers.
pub open spec fn bytes_lt(a: [u8; 32], b: [u8; 32]) -> bool {
    bytes_lt_from(a@, b@, 0)
}

pub proof fn lemma_bytes_lt_from_irreflexive(a: Seq<u8>, from: nat)
    ensures
        !bytes_lt_from(a, a, from),
    decreases 32 - from,
{
    if from < 32 {
        lemma_bytes_lt_from_irreflexive(a, from + 1);
    }
}

pub proof fn lemma_bytes_lt_from_transitive(a: Seq<u8>, b: Seq<u8>, c: Seq<u8>, from: nat)
    requires
        bytes_lt_from(a, b, from),
        bytes_lt_from(b, c, from),
    ensures
        bytes_lt_from(a, c, from),
    decreases 32 - from,
{
    if from < 32 {
        if a[from as int] == b[from as int] && b[from as int] == c[from as int] {
            lemma_bytes_lt_from_transitive(a, b, c, from + 1);
        }
    }
}

pub proof fn lemma_bytes_lt_from_total(a: Seq<u8>, b: Seq<u8>, from: nat)
    requires
        !bytes_lt_from(a, b, from),
        !bytes_lt_from(b, a, from),
    ensures
        forall|j: int| from <= j < 32 ==> a[j] == b[j],
    decreases 32 - from,
{
    if from < 32 {
        lemma_bytes_lt_from_total(a, b, from + 1);
    }
}

/// The order on identifiers is irreflexive.
pub proof fn lemma_bytes_lt_irreflexive(a: [u8; 32])
    ensures
        !bytes_lt(a, a),
{
    lemma_bytes_lt_from_irreflexive(a@, 0);
}

/// The order on identifiers is transitive.
pub proof fn lemma_bytes_lt_transitive(a: [u8; 32], b: [u8; 32], c: [u8; 32])
    requires
        bytes_lt(a, b),
        bytes_lt(b, c),
    ensures
        bytes_lt(a, c),
{
    lemma_bytes_lt_from_transitive(a@, b@, c@, 0);
}

/// Two identifiers of which neither comes first are the same.
pub proof fn lemma_bytes_lt_total(a: [u8; 32], b: [u8; 32])
    requires
        !bytes_lt(a, b),
        !bytes_lt(b, a),
    ensures
        a == b,
{
    lemma_bytes_lt_from_total(a@, b@, 0);
    assert(a@ =~= b@);
}

/// Whether two identifiers hold the same bytes.
pub fn same_bytes(a: &[u8; 32], b: &[u8; 32]) -> (r: bool)
    ensures
        r == (*a == *b),
{
    let mut i: usize = 0;
    while i < 32
        invariant
            i <= 32,
            forall|j: int| 0 <= j < i ==> a@[j] == b@[j],
        decreases 32 - i,
    {
        if a[i] != b[i] {
            return false;
        }
        i += 1;
    }
    assert(a@ =~= b@);
    assert(*a =~= *b);
    true
}

/// Whether `a` comes before `b` in lexicographic order.
pub fn bytes_before(a: &[u8; 32], b: &[u8; 32]) -> (r: bool)
    ensures
        r == bytes_lt(*a, *b),
{
    let mut i: usize = 0;
    while i < 32
        invariant
            i <= 32,
            bytes_lt(*a, *b) == bytes_lt_from(a@, b@, i as nat),
        decreases 32 - i,
    {
        if a[i] != b[i] {
            return a[i] < b[i];
        }
        i += 1;
    }
    false
}

/// Ordering key of a priority queue: priority first, ties broken by hash.
/// The lowest key is the first candidate for eviction.
#[derive(Clone, Copy, Debug, PartialEq, Eq)]
pub struct PriorityKey {
    pub hash: Hash,
    pub priority: u32,
}

/// Strict total order on keys: by priority, then by hash.
pub open spec fn key_lt(a: PriorityKey, b: PriorityKey) -> bool {
    a.priority < b.priority || (a.priority == b.priority && bytes_lt(a.hash, b.hash))
}

pub proof fn lemma_key_lt_irreflexive(a: PriorityKey)
    ensures
        !key_lt(a, a),
{
    lemma_bytes_lt_irreflexive(a.hash);
}

pub proof fn lemma_key_lt_transitive(a: PriorityKey, b: PriorityKey, c: PriorityKey)
    requires
        key_lt(a, b),
        key_lt(b, c),
    ensures
        key_lt(a, c),
{
    if a.priority == b.priority && b.priority == c.priority {
        lemma_bytes_lt_transitive(a.hash, b.hash, c.hash);
    }
}

pub proof fn lemma_key_lt_total(a: PriorityKey, b: PriorityKey)
    requires
        !key_lt(a, b),
        !key_lt(b, a),
    ensures
        a == b,
{
    lemma_bytes_lt_total(a.hash, b.hash);
}

impl PriorityKey {
    /// Whether `self` is ordered strictly before `other`.
    pub fn precedes(&self, other: &PriorityKey) -> (r: bool)
        ensures
            r == key_lt(*self, *other),
    {
        if self.priority != other.priority {
            self.priority < other.priority
        } else {
            bytes_before(&self.hash, &other.hash)
        }
    }

    /// Whether `self` and `other` are the same key.
    pub fn same(&self, other: &PriorityKey) -> (r: bool)
        ensures
            r == (*self == *other),
    {
        self.priority == other.priority && same_bytes(&self.hash, &other.hash)
    }
}

} // verus!
