//! A statement as the store sees it: the values the admission rules read,
//! together with the statement's canonical encoding.

use vstd::prelude::*;
use parity_scale_codec::{Decode, Encode};
use crate::keys::{AccountId, BlockHash, Channel, DecryptionKey, Topic};

verus! {

/// The accessors of a decoded statement, held as plain values.
#[derive(Clone, Debug, PartialEq, Eq)]
pub struct Statement {
    /// Content address of the statement.
    pub hash: crate::keys::Hash,
    /// Account derived from the statement's proof.
    pub account_id: Option<AccountId>,
    /// Block that an on-chain proof refers to.
    pub proof_block: Option<BlockHash>,
    /// Priority among the statements of the same account.
    pub priority: Option<u32>,
    /// Channel the statement occupies.
    pub channel: Option<Channel>,
    /// Declared topics.
    pub topics: [Option<Topic>; 4],
    /// Key the payload can be decrypted with.
    pub decryption_key: Option<DecryptionKey>,
    /// Payload.
    pub data: Option<Vec<u8>>,
    /// Canonical encoding of the whole statement.
    pub encoded: Vec<u8>,
}

/// A statement over plain values.
pub struct StatementView {
    pub hash: crate::keys::Hash,
    pub account_id: Option<AccountId>,
    pub proof_block: Option<BlockHash>,
    pub priority: Option<u32>,
    pub channel: Option<Channel>,
    pub topics: [Option<Topic>; 4],
    pub decryption_key: Option<DecryptionKey>,
    pub data: Option<Seq<u8>>,
    pub encoded: Seq<u8>,
}

impl StatementView {
    /// Length of the payload; 0 without one.
    pub open spec fn data_len(self) -> nat {
        match self.data {
            Some(d) => d.len(),
            None => 0,
        }
    }

    /// The declared priority; 0 without one.
    pub open spec fn priority_or_default(self) -> u32 {
        match self.priority {
            Some(p) => p,
            None => 0,
        }
    }

    /// Whether the statement is what its own encoding decodes to, and its
    /// hash the hash of that encoding. This holds of every statement that
    /// comes out of decoding.
    pub open spec fn canonical(self) -> bool {
        decoded(self.encoded) == Some(self) && self.hash == encoding_hash(self.encoded)
    }
}

impl View for Statement {
    type V = StatementView;

    open spec fn view(&self) -> StatementView {
        StatementView {
            hash: self.hash,
            account_id: self.account_id,
            proof_block: self.proof_block,
            priority: self.priority,
            channel: self.channel,
            topics: self.topics,
            decryption_key: self.decryption_key,
            data: match self.data {
                Some(d) => Some(d@),
                None => None,
            },
            encoded: self.encoded@,
        }
    }
}

/// What decoding the bytes as a statement gives: `None` where they are
/// not the encoding of a statement.
pub uninterp spec fn decoded(bytes: Seq<u8>) -> Option<StatementView>;

/// The content address of the statement with the encoding `encoded`.
pub uninterp spec fn encoding_hash(encoded: Seq<u8>) -> [u8; 32];

/// Decodes the bytes with `sp_statement_store::Statement::decode` and reads
/// the decoded statement with its methods `proof`, `hash`, `account_id`,
/// `priority`, `channel`, `topic`, `decryption_key`, `encode` and
/// `into_data`. Claimed is that the same bytes always give the same
/// result, and of a decoded statement what the source of these methods
/// shows: `hash` hashes what `encode` gives, with `hash_encoded`; and
/// `encode` writes every field that `decode` reads, in the order in which
/// `decode` takes them, so that the encoding decodes to the same statement
/// again.
#[verifier::external_body]
fn decode_outside(bytes: &[u8]) -> (r: Option<Statement>)
    ensures
        match r {
            Some(s) => decoded(bytes@) == Some(s@) && s@.canonical(),
            None => decoded(bytes@).is_none(),
        },
{
    let mut input: &[u8] = bytes;
    let s = sp_statement_store::Statement::decode(&mut input).ok()?;
    let proof_block = match s.proof() {
        Some(sp_statement_store::Proof::OnChain { block_hash, .. }) => Some(*block_hash),
        _ => None,
    };
    let topics = [s.topic(0), s.topic(1), s.topic(2), s.topic(3)];
    let (hash, account_id, priority, channel) = (s.hash(), s.account_id(), s.priority(), s.channel());
    let (decryption_key, encoded, data) = (s.decryption_key(), s.encode(), s.into_data());
    Some(Statement { hash, account_id, proof_block, priority, channel, topics, decryption_key, data, encoded })
}

/// Hashes the bytes with `sp_statement_store::hash_encoded`, the Blake2
/// hash of 256 bits. Claimed is only that the same bytes always give the
/// same hash.
#[verifier::external_body]
fn hash_outside(encoded: &[u8]) -> (hash: [u8; 32])
    ensures
        hash == encoding_hash(encoded@),
{
    sp_statement_store::hash_encoded(encoded)
}

/// The content address of the statement with the encoding `encoded`.
pub fn hash_encoded(encoded: &[u8]) -> (hash: [u8; 32])
    ensures
        hash == encoding_hash(encoded@),
{
    hash_outside(encoded)
}

impl Statement {
    /// Decodes a statement from its encoding.
    pub fn decode(bytes: &[u8]) -> (r: Option<Statement>)
        ensures
            match r {
                Some(s) => decoded(bytes@) == Some(s@) && s@.canonical(),
                None => decoded(bytes@).is_none(),
            },
    {
        decode_outside(bytes)
    }

    /// Length of the payload; 0 without one.
    pub fn data_len(&self) -> (n: usize)
        ensures
            n == self@.data_len(),
    {
        match &self.data {
            Some(d) => d.len(),
            None => 0,
        }
    }

    /// The declared priority; 0 without one.
    pub fn priority_or_default(&self) -> (p: u32)
        ensures
            p == self@.priority_or_default(),
    {
        match self.priority {
            Some(p) => p,
            None => 0,
        }
    }
}

} // verus!
