//! Layout of the persisted records.
//!
//! A stored statement is the statement's global priority as four
//! little-endian bytes, followed by the encoding of the statement. An
//! expiry marker is the 32 bytes of the hash followed by the time of expiry
//! as eight little-endian bytes. The schema version is four little-endian
//! bytes. Bytes after a record are not looked at.

use vstd::prelude::*;
use vstd::bytes::{
    spec_u32_from_le_bytes, spec_u32_to_le_bytes, spec_u64_from_le_bytes, spec_u64_to_le_bytes,
    u32_from_le_bytes, u32_to_le_bytes, u64_from_le_bytes, u64_to_le_bytes,
};
use vstd::slice::slice_subrange;
use crate::statement::{decoded, Statement, StatementView};

verus! {

/// Schema version written by this library.
pub const CURRENT_VERSION: u32 = 1;

/// What is stored with a statement besides the statement itself.
#[derive(Clone, Copy, Debug, PartialEq, Eq)]
pub struct StatementMeta {
    pub global_priority: u32,
}

/// A statement as it is stored.
#[derive(Debug, PartialEq, Eq)]
pub struct StatementWithMeta {
    pub meta: StatementMeta,
    pub statement: Statement,
}

/// The key under which the schema version is stored: the ASCII bytes of
/// the word `version`.
pub open spec fn version_key() -> Seq<u8> {
    seq![118u8, 101u8, 114u8, 115u8, 105u8, 111u8, 110u8]
}

/// The stored form of a statement with the encoding `encoded`.
pub open spec fn stored_statement(global_priority: u32, encoded: Seq<u8>) -> Seq<u8> {
    spec_u32_to_le_bytes(global_priority) + encoded
}

/// What a stored record holds: `None` where it is shorter than four bytes
/// or where what follows them is not the encoding of a statement.
pub open spec fn parse_stored(bytes: Seq<u8>) -> Option<(u32, StatementView)> {
    if bytes.len() < 4 {
        None
    } else {
        match decoded(bytes.subrange(4, bytes.len() as int)) {
            Some(s) => Some((spec_u32_from_le_bytes(bytes.subrange(0, 4)), s)),
            None => None,
        }
    }
}

/// The expiry marker of the statement `hash` that expired at `timestamp`.
pub open spec fn expiry_marker(hash: crate::keys::Hash, timestamp: u64) -> Seq<u8> {
    hash@ + spec_u64_to_le_bytes(timestamp)
}

/// Whether `bytes` is long enough to hold an expiry marker.
pub open spec fn is_marker(bytes: Seq<u8>) -> bool {
    bytes.len() >= 40
}

/// The hash that the marker `bytes` names.
pub open spec fn marker_hash(bytes: Seq<u8>) -> Seq<u8> {
    bytes.subrange(0, 32)
}

/// The time of expiry that the marker `bytes` gives.
pub open spec fn marker_time(bytes: Seq<u8>) -> u64 {
    spec_u64_from_le_bytes(bytes.subrange(32, 40))
}

/// A marker that was written is read back as it was.
pub proof fn lemma_marker_round_trip(hash: crate::keys::Hash, timestamp: u64)
    ensures
        is_marker(expiry_marker(hash, timestamp)),
        marker_hash(expiry_marker(hash, timestamp)) == hash@,
        marker_time(expiry_marker(hash, timestamp)) == timestamp,
{
    vstd::bytes::lemma_auto_spec_u64_to_from_le_bytes();
    let m = expiry_marker(hash, timestamp);
    assert(spec_u64_to_le_bytes(timestamp).len() == 8);
    assert(m.subrange(0, 32) =~= hash@);
    assert(m.subrange(32, 40) =~= spec_u64_to_le_bytes(timestamp));
}

/// A stored statement is read back with the global priority it was written
/// with and with whatever its encoding decodes to.
pub proof fn lemma_stored_round_trip(global_priority: u32, encoded: Seq<u8>)
    ensures
        parse_stored(stored_statement(global_priority, encoded)) == (match decoded(encoded) {
            Some(s) => Some((global_priority, s)),
            None => None,
        }),
{
    vstd::bytes::lemma_auto_spec_u32_to_from_le_bytes();
    let b = stored_statement(global_priority, encoded);
    assert(spec_u32_to_le_bytes(global_priority).len() == 4);
    assert(b.subrange(0, 4) =~= spec_u32_to_le_bytes(global_priority));
    assert(b.subrange(4, b.len() as int) =~= encoded);
}

/// The stored form of a statement that came out of decoding is read back
/// as that statement.
pub proof fn lemma_canonical_stored(global_priority: u32, statement: StatementView)
    requires
        statement.canonical(),
    ensures
        parse_stored(stored_statement(global_priority, statement.encoded)) == Some(
            (global_priority, statement),
        ),
{
    lemma_stored_round_trip(global_priority, statement.encoded);
}

/// The bytes of a 32-byte identifier.
pub fn id_to_vec(id: &[u8; 32]) -> (v: Vec<u8>)
    ensures
        v@ == id@,
{
    let mut v: Vec<u8> = Vec::new();
    let mut i: usize = 0;
    while i < 32
        invariant
            i <= 32,
            v@.len() == i,
            forall|j: int| 0 <= j < i ==> v@[j] == id@[j],
        decreases 32 - i,
    {
        v.push(id[i]);
        i += 1;
    }
    assert(v@ =~= id@);
    v
}

/// The identifier made of the first 32 bytes of `bytes`.
pub fn id_from_slice(bytes: &[u8]) -> (id: [u8; 32])
    requires
        bytes@.len() >= 32,
    ensures
        id@ == bytes@.subrange(0, 32),
{
    let mut id: [u8; 32] = [0u8; 32];
    let mut i: usize = 0;
    while i < 32
        invariant
            i <= 32,
            bytes@.len() >= 32,
            forall|j: int| 0 <= j < i ==> id@[j] == bytes@[j],
        decreases 32 - i,
    {
        id[i] = bytes[i];
        i += 1;
    }
    assert(id@ =~= bytes@.subrange(0, 32));
    id
}

/// The key under which the schema version is stored.
pub fn key_version() -> (key: Vec<u8>)
    ensures
        key@ == version_key(),
{
    let mut key: Vec<u8> = Vec::new();
    key.push(118u8);
    key.push(101u8);
    key.push(114u8);
    key.push(115u8);
    key.push(105u8);
    key.push(111u8);
    key.push(110u8);
    assert(key@ =~= version_key());
    key
}

/// The stored form of the schema version `version`.
pub fn encode_version(version: u32) -> (bytes: Vec<u8>)
    ensures
        bytes@ == spec_u32_to_le_bytes(version),
        bytes@.len() == 4,
{
    u32_to_le_bytes(version)
}

/// The schema version that `bytes` holds; `None` unless there are exactly
/// four bytes.
pub fn decode_version(bytes: &[u8]) -> (r: Option<u32>)
    ensures
        r == (if bytes@.len() == 4 {
            Some(spec_u32_from_le_bytes(bytes@))
        } else {
            None
        }),
{
    if bytes.len() == 4 {
        Some(u32_from_le_bytes(bytes))
    } else {
        None
    }
}

/// The stored form of a statement with the encoding `encoded`.
pub fn encode_stored(global_priority: u32, encoded: &[u8]) -> (bytes: Vec<u8>)
    ensures
        bytes@ == stored_statement(global_priority, encoded@),
{
    let mut bytes = u32_to_le_bytes(global_priority);
    bytes.extend_from_slice(encoded);
    bytes
}

/// The identifier with the bytes `bytes`.
pub open spec fn id_of(bytes: Seq<u8>) -> [u8; 32] {
    choose|id: [u8; 32]| id@ == bytes
}

/// An identifier is the one that its bytes name.
pub proof fn lemma_id_of(id: [u8; 32])
    ensures
        id_of(id@) == id,
{
    let other = id_of(id@);
    assert(other@ == id@);
    assert(other@ =~= id@);
    assert(other =~= id);
}

/// Every string of 32 bytes is the bytes of an identifier.
pub proof fn lemma_id_exists(bytes: Seq<u8>)
    requires
        bytes.len() == 32,
    ensures
        id_of(bytes)@ == bytes,
{
    let witness = id_from(bytes);
    assert(witness@ =~= bytes);
}

/// The identifier with the bytes `bytes`, written out.
pub open spec fn id_from(bytes: Seq<u8>) -> [u8; 32] {
    [
        bytes[0],
        bytes[1],
        bytes[2],
        bytes[3],
        bytes[4],
        bytes[5],
        bytes[6],
        bytes[7],
        bytes[8],
        bytes[9],
        bytes[10],
        bytes[11],
        bytes[12],
        bytes[13],
        bytes[14],
        bytes[15],
        bytes[16],
        bytes[17],
        bytes[18],
        bytes[19],
        bytes[20],
        bytes[21],
        bytes[22],
        bytes[23],
        bytes[24],
        bytes[25],
        bytes[26],
        bytes[27],
        bytes[28],
        bytes[29],
        bytes[30],
        bytes[31],
    ]
}

impl StatementWithMeta {
    /// The stored form of the statement.
    pub fn encode(&self) -> (bytes: Vec<u8>)
        ensures
            bytes@ == stored_statement(self.meta.global_priority, self.statement.encoded@),
    {
        encode_stored(self.meta.global_priority, self.statement.encoded.as_slice())
    }

    /// Reads a stored statement.
    pub fn decode(bytes: &[u8]) -> (r: Option<StatementWithMeta>)
        ensures
            match r {
                Some(s) => parse_stored(bytes@) == Some((s.meta.global_priority, s.statement@))
                    && s.statement@.canonical(),
                None => parse_stored(bytes@).is_none(),
            },
    {
        if bytes.len() < 4 {
            return None;
        }
        let global_priority = u32_from_le_bytes(slice_subrange(bytes, 0, 4));
        match Statement::decode(slice_subrange(bytes, 4, bytes.len())) {
            Some(statement) => Some(
                StatementWithMeta { meta: StatementMeta { global_priority }, statement },
            ),
            None => None,
        }
    }
}

/// The expiry marker of the statement `hash` that expired at `timestamp`.
pub fn encode_expiry(hash: &crate::keys::Hash, timestamp: u64) -> (bytes: Vec<u8>)
    ensures
        bytes@ == expiry_marker(*hash, timestamp),
{
    let mut bytes = id_to_vec(hash);
    let time = u64_to_le_bytes(timestamp);
    bytes.extend_from_slice(time.as_slice());
    bytes
}

/// Reads an expiry marker; `None` where `bytes` is shorter than a marker.
pub fn decode_expiry(bytes: &[u8]) -> (r: Option<(crate::keys::Hash, u64)>)
    ensures
        match r {
            Some((hash, timestamp)) => is_marker(bytes@) && hash@ == marker_hash(bytes@)
                && timestamp == marker_time(bytes@),
            None => !is_marker(bytes@),
        },
{
    if bytes.len() < 40 {
        return None;
    }
    let hash = id_from_slice(bytes);
    let timestamp = u64_from_le_bytes(slice_subrange(bytes, 32, 40));
    Some((hash, timestamp))
}

} // verus!
