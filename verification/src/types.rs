//! Values exchanged with the validator and with callers of the store.

use vstd::prelude::*;

verus! {

/// What the validator grants a valid statement.
#[derive(Clone, Copy, Debug, PartialEq, Eq)]
pub struct ValidStatement {
    /// Priority of the statement among those of all accounts.
    pub global_priority: u32,
    /// Largest number of statements the account may hold.
    pub max_count: u32,
    /// Largest total payload length the account may hold.
    pub max_size: u32,
}

/// Why the validator turned a statement down.
#[derive(Clone, Copy, Debug, PartialEq, Eq)]
pub enum InvalidStatement {
    /// The proof did not check out.
    BadProof,
    /// There was no proof.
    NoProof,
    /// Validity could not be established because of an internal error.
    InternalError,
}

/// Where a statement comes from.
#[derive(Clone, Copy, Debug, PartialEq, Eq)]
pub enum StatementSource {
    /// The on-chain worker.
    Chain,
    /// The gossip network.
    Network,
    /// The local interface.
    Local,
}

impl StatementSource {
    /// Whether a statement from this source may be submitted again while
    /// the store still knows it.
    pub open spec fn resubmits(self) -> bool {
        self != StatementSource::Network
    }

    /// Whether a statement from this source may be submitted again while
    /// the store still knows it.
    pub fn can_be_resubmitted(&self) -> (r: bool)
        ensures
            r == self.resubmits(),
    {
        match self {
            StatementSource::Chain => true,
            StatementSource::Local => true,
            StatementSource::Network => false,
        }
    }
}

/// How eagerly an accepted statement should be passed on to peers.
#[derive(Clone, Copy, Debug, PartialEq, Eq)]
pub enum NetworkPriority {
    High,
    Low,
}

/// Failure of the store itself.
#[derive(Clone, Debug, PartialEq, Eq)]
pub enum Error {
    /// The database reported an error.
    Db(String),
    /// The validator could not be reached.
    Runtime,
}

/// Outcome of a submission.
#[derive(Clone, Debug, PartialEq, Eq)]
pub enum SubmitResult {
    /// Accepted as a new statement.
    New(NetworkPriority),
    /// The statement is already held.
    Known,
    /// The statement was held and has expired.
    KnownExpired,
    /// The priority is too low or the payload too large.
    Ignored,
    /// The statement is not valid.
    Bad(&'static str),
    /// The store failed.
    InternalError(Error),
}

/// What the index knows of a hash.
#[derive(Clone, Copy, Debug, PartialEq, Eq)]
pub enum IndexQuery {
    Unknown,
    Exists,
    Expired,
}

} // verus!
