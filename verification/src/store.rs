//! The store: the decisions around the index. Reading and writing the
//! persistent store, asking the validator and reading the clock are left to
//! the caller, who hands in what was read and carries out the changes that
//! are handed back.

use vstd::prelude::*;
use crate::codec::{
    decode_expiry, decode_version, encode_expiry, encode_stored, encode_version, expiry_marker,
    id_of, id_to_vec, is_marker, key_version, marker_hash, marker_time, parse_stored,
    stored_statement, version_key, StatementWithMeta, CURRENT_VERSION,
};
use crate::index::{channel_conflict, entry_of, expired_after, Entry, Index, MaybeInserted, PURGE_AFTER};
use crate::keys::{BlockHash, DecryptionKey, Topic};
use crate::statement::{Statement, StatementView};
use crate::types::{
    Error, IndexQuery, InvalidStatement, NetworkPriority, StatementSource, SubmitResult,
    ValidStatement,
};
use vstd::bytes::{spec_u32_from_le_bytes, spec_u32_to_le_bytes};

verus! {

/// One change to the persistent store: the column, the key, and the new
/// value, or `None` to delete the key.
pub type Change = (u8, Vec<u8>, Option<Vec<u8>>);

/// A change over plain values.
pub type ChangeView = (u8, Seq<u8>, Option<Seq<u8>>);

/// The change `c` over plain values.
pub open spec fn change_view(c: Change) -> ChangeView {
    (
        c.0,
        c.1@,
        match c.2 {
            Some(v) => Some(v@),
            None => None,
        },
    )
}

/// The changes `batch` over plain values.
pub open spec fn batch_view(batch: Seq<Change>) -> Seq<ChangeView> {
    Seq::new(batch.len(), |i: int| change_view(batch[i]))
}

/// Writes the statement `hash` with its global priority.
pub open spec fn put_statement(
    hash: crate::keys::Hash,
    global_priority: u32,
    encoded: Seq<u8>,
) -> ChangeView {
    (crate::col::STATEMENTS, hash@, Some(stored_statement(global_priority, encoded)))
}

/// Deletes the statement `hash`.
pub open spec fn delete_statement(hash: crate::keys::Hash) -> ChangeView {
    (crate::col::STATEMENTS, hash@, None)
}

/// Writes the expiry marker of the statement `hash`.
pub open spec fn put_marker(hash: crate::keys::Hash, timestamp: u64) -> ChangeView {
    (crate::col::EXPIRED, hash@, Some(expiry_marker(hash, timestamp)))
}

/// Deletes the expiry marker of the statement `hash`.
pub open spec fn delete_marker(hash: crate::keys::Hash) -> ChangeView {
    (crate::col::EXPIRED, hash@, None)
}

/// Writes the schema version.
pub open spec fn put_version() -> ChangeView {
    (crate::col::META, version_key(), Some(spec_u32_to_le_bytes(CURRENT_VERSION)))
}

/// For each of `evicted`, in order: delete the statement, write its marker.
pub open spec fn eviction_changes(evicted: Seq<crate::keys::Hash>, now: u64) -> Seq<ChangeView>
    decreases evicted.len(),
{
    if evicted.len() == 0 {
        Seq::empty()
    } else {
        eviction_changes(evicted.drop_last(), now).push(delete_statement(evicted.last())).push(
            put_marker(evicted.last(), now),
        )
    }
}

/// For each of `purged`, in order: delete its marker.
pub open spec fn purge_changes(purged: Seq<crate::keys::Hash>) -> Seq<ChangeView> {
    Seq::new(purged.len(), |i: int| delete_marker(purged[i]))
}

/// The live and the expired statements, as plain values.
pub struct State {
    pub entries: Map<crate::keys::Hash, Entry>,
    pub expired: Map<crate::keys::Hash, u64>,
}

/// Loading one stored statement: a record that cannot be read, a
/// statement without an account, and a statement whose channel another
/// live statement of its account occupies are passed over.
pub open spec fn load_parsed(st: State, row: Option<(u32, StatementView)>) -> State {
    match row {
        Some((global_priority, s)) => match s.account_id {
            Some(a) => {
                let e = entry_of(a, global_priority, s);
                if channel_conflict(st.entries, s.hash, e) {
                    st
                } else {
                    State { entries: st.entries.insert(s.hash, e), expired: st.expired.remove(s.hash) }
                }
            },
            None => st,
        },
        None => st,
    }
}

/// Loading stored statements one after the other.
pub open spec fn load_all(st: State, rows: Seq<Option<(u32, StatementView)>>) -> State
    decreases rows.len(),
{
    if rows.len() == 0 {
        st
    } else {
        load_parsed(load_all(st, rows.drop_last()), rows.last())
    }
}

/// What the stored records hold, each read by itself.
pub open spec fn parsed_rows(rows: Seq<Vec<u8>>) -> Seq<Option<(u32, StatementView)>> {
    Seq::new(rows.len(), |i: int| parse_stored(rows[i]@))
}

/// Loading one expiry marker: a record that is too short and the marker
/// of a live statement are passed over.
pub open spec fn load_marker(st: State, row: Seq<u8>) -> State {
    if is_marker(row) && !st.entries.contains_key(id_of(marker_hash(row))) {
        State {
            entries: st.entries,
            expired: st.expired.insert(id_of(marker_hash(row)), marker_time(row)),
        }
    } else {
        st
    }
}

/// Loading expiry markers one after the other.
pub open spec fn load_markers(st: State, rows: Seq<Vec<u8>>) -> State
    decreases rows.len(),
{
    if rows.len() == 0 {
        st
    } else {
        load_marker(load_markers(st, rows.drop_last()), rows.last()@)
    }
}

/// Whether the statement that expired at `timestamp` is forgotten at `now`.
pub open spec fn due(timestamp: u64, now: u64) -> bool {
    timestamp + PURGE_AFTER <= now
}

/// The expired statements that are left at `now`.
pub open spec fn kept(expired: Map<crate::keys::Hash, u64>, now: u64) -> Map<crate::keys::Hash, u64> {
    Map::new(
        |h: crate::keys::Hash| expired.contains_key(h) && !due(expired[h], now),
        |h: crate::keys::Hash| expired[h],
    )
}

/// Whether `batch` deletes the markers of exactly the statements that are
/// forgotten at `now`, each once.
pub open spec fn purges(batch: Seq<ChangeView>, expired: Map<crate::keys::Hash, u64>, now: u64) -> bool {
    exists|purged: Seq<crate::keys::Hash>|
        {
            &&& purged.no_duplicates()
            &&& forall|h: crate::keys::Hash|
                #[trigger] purged.contains(h) <==> expired.contains_key(h) && due(expired[h], now)
            &&& batch == purge_changes(purged)
        }
}

/// The text of the error for a stored schema version that this library
/// does not read: fixed words, then the version in decimal.
pub open spec fn version_text(version: u32) -> Seq<char> {
    "Unsupported database version: "@ + crate::decimal::decimal(version as nat)
}

/// The changes that a successful submission commits: the statement is
/// written, then each evicted statement is deleted and marked as expired.
pub open spec fn commit_of(
    statement: StatementView,
    v: ValidStatement,
    evicted: Seq<crate::keys::Hash>,
    now: u64,
) -> Seq<ChangeView> {
    seq![put_statement(statement.hash, v.global_priority, statement.encoded)] + eviction_changes(
        evicted,
        now,
    )
}

/// How eagerly a statement with the global priority `global_priority` is
/// passed on.
pub open spec fn network_priority(global_priority: u32) -> NetworkPriority {
    if global_priority > 0 {
        NetworkPriority::High
    } else {
        NetworkPriority::Low
    }
}

/// The statement that a fetched record holds, if it holds one.
pub open spec fn readable(record: Option<Vec<u8>>) -> Option<StatementView> {
    match record {
        Some(bytes) => match parse_stored(bytes@) {
            Some((_, s)) => Some(s),
            None => None,
        },
        None => None,
    }
}

/// The statement that was fetched for the hash `fetched.0`, where the hash
/// is live and the record can be read.
pub open spec fn found(
    entries: Map<crate::keys::Hash, Entry>,
    fetched: (crate::keys::Hash, Option<Vec<u8>>),
) -> Option<StatementView> {
    if entries.contains_key(fetched.0) {
        readable(fetched.1)
    } else {
        None
    }
}

/// The statements found among `fetched`, each with its hash, in order.
pub open spec fn dumped(
    entries: Map<crate::keys::Hash, Entry>,
    fetched: Seq<(crate::keys::Hash, Option<Vec<u8>>)>,
) -> Seq<(crate::keys::Hash, StatementView)>
    decreases fetched.len(),
{
    if fetched.len() == 0 {
        Seq::empty()
    } else {
        let rest = dumped(entries, fetched.drop_last());
        match found(entries, fetched.last()) {
            Some(s) => rest.push((s.hash, s)),
            None => rest,
        }
    }
}

/// The encodings of the statements found among `fetched` that have not
/// expired, each with its hash, in order.
pub open spec fn dumped_encoded(
    entries: Map<crate::keys::Hash, Entry>,
    expired: Map<crate::keys::Hash, u64>,
    fetched: Seq<(crate::keys::Hash, Option<Vec<u8>>)>,
) -> Seq<(crate::keys::Hash, Seq<u8>)>
    decreases fetched.len(),
{
    if fetched.len() == 0 {
        Seq::empty()
    } else {
        let rest = dumped_encoded(entries, expired, fetched.drop_last());
        match found(entries, fetched.last()) {
            Some(s) => if expired.contains_key(s.hash) {
                rest
            } else {
                rest.push((s.hash, s.encoded))
            },
            None => rest,
        }
    }
}

/// The payloads of the statements found among `fetched` that have one, in
/// order.
pub open spec fn collected(
    entries: Map<crate::keys::Hash, Entry>,
    fetched: Seq<(crate::keys::Hash, Option<Vec<u8>>)>,
) -> Seq<Seq<u8>>
    decreases fetched.len(),
{
    if fetched.len() == 0 {
        Seq::empty()
    } else {
        let rest = collected(entries, fetched.drop_last());
        match found(entries, fetched.last()) {
            Some(s) => match s.data {
                Some(d) => rest.push(d),
                None => rest,
            },
            None => rest,
        }
    }
}

/// The views of a list of byte strings.
pub open spec fn views(list: Seq<Vec<u8>>) -> Seq<Seq<u8>> {
    Seq::new(list.len(), |i: int| list[i]@)
}

/// The views of a list of hashes with statements.
pub open spec fn statement_views(list: Seq<(crate::keys::Hash, Statement)>) -> Seq<
    (crate::keys::Hash, StatementView),
> {
    Seq::new(list.len(), |i: int| (list[i].0, list[i].1@))
}

/// The views of a list of hashes with byte strings.
pub open spec fn pair_views(list: Seq<(crate::keys::Hash, Vec<u8>)>) -> Seq<
    (crate::keys::Hash, Seq<u8>),
> {
    Seq::new(list.len(), |i: int| (list[i].0, list[i].1@))
}

/// What a submission has to do next.
#[derive(Debug, PartialEq, Eq)]
pub enum SubmitStep {
    /// The submission is over, with this result.
    Done(SubmitResult),
    /// The validator has to be asked, at the given block or, without one,
    /// at the finalized block.
    Validate { at_block: Option<BlockHash> },
}

/// What a validated submission led to: the result, to be reported once the
/// changes are committed.
#[derive(Debug, PartialEq, Eq)]
pub struct Submitted {
    pub result: SubmitResult,
    pub commit: Vec<Change>,
}

/// The statement store without its persistent half.
pub struct Store {
    /// The in-memory index.
    pub index: Index,
    /// The time that stands in for the clock, if one was set.
    pub time_override: Option<u64>,
}

impl Store {
    /// The time that the store goes by when the clock shows `clock`.
    pub open spec fn spec_timestamp(&self, clock: u64) -> u64 {
        match self.time_override {
            Some(t) => t,
            None => clock,
        }
    }

    /// The index is well formed.
    pub open spec fn wf(&self) -> bool {
        self.index.wf()
    }

    /// The live and the expired statements.
    pub open spec fn state(&self) -> State {
        State { entries: self.index.entries(), expired: self.index.expired() }
    }

    /// What a submission of `statement` from `source` does before the
    /// validator is asked.
    pub open spec fn first_step(&self, statement: StatementView, source: StatementSource) -> SubmitStep {
        if self.index.entries().contains_key(statement.hash) && !source.resubmits() {
            SubmitStep::Done(SubmitResult::Known)
        } else if !self.index.entries().contains_key(statement.hash)
            && self.index.expired().contains_key(statement.hash) && !source.resubmits() {
            SubmitStep::Done(SubmitResult::KnownExpired)
        } else if statement.account_id.is_none() {
            SubmitStep::Done(SubmitResult::Bad("No statement proof"))
        } else {
            SubmitStep::Validate { at_block: statement.proof_block }
        }
    }

    /// Opens a store over a database whose schema version record is
    /// `version`. Without a record the store is new, and the version is to
    /// be written. A record that is not four bytes long, or that holds
    /// another version than `CURRENT_VERSION`, is refused.
    pub fn new(version: Option<Vec<u8>>) -> (r: Result<(Store, Vec<Change>), Error>)
        ensures
            match r {
                Ok((store, commit)) => {
                    &&& store.wf()
                    &&& store.index.entries() == Map::<crate::keys::Hash, Entry>::empty()
                    &&& store.index.expired() == Map::<crate::keys::Hash, u64>::empty()
                    &&& store.index.max_entries() == crate::index::MAX_LIVE_STATEMENTS
                    &&& store.index.max_size() == crate::index::MAX_TOTAL_SIZE
                    &&& store.time_override.is_none()
                    &&& match version {
                        Some(v) => v@.len() == 4 && spec_u32_from_le_bytes(v@) == CURRENT_VERSION
                            && commit@.len() == 0,
                        None => batch_view(commit@) == seq![put_version()],
                    }
                },
                Err(Error::Db(message)) => match version {
                    Some(v) => if v@.len() != 4 {
                        message@ == "Error reading database version"@
                    } else {
                        spec_u32_from_le_bytes(v@) != CURRENT_VERSION && message@ == version_text(
                            spec_u32_from_le_bytes(v@),
                        )
                    },
                    None => false,
                },
                Err(_) => false,
            },
    {
        let mut commit: Vec<Change> = Vec::new();
        match version {
            Some(v) => {
                match decode_version(v.as_slice()) {
                    Some(found) => {
                        if found != CURRENT_VERSION {
                            let mut message = "Unsupported database version: ".to_owned();
                            crate::decimal::push_decimal(&mut message, found);
                            return Err(Error::Db(message));
                        }
                    },
                    None => {
                        return Err(Error::Db("Error reading database version".to_owned()));
                    },
                }
            },
            None => {
                commit.push((crate::col::META, key_version(), Some(encode_version(CURRENT_VERSION))));
                assert(batch_view(commit@) =~= seq![put_version()]);
            },
        }
        Ok((Store { index: Index::new(), time_override: None }, commit))
    }

    /// The time that the store goes by when the clock shows `clock`: the
    /// time set with `set_time`, or else the clock's.
    pub fn timestamp(&self, clock: u64) -> (t: u64)
        ensures
            t == self.spec_timestamp(clock),
    {
        match self.time_override {
            Some(t) => t,
            None => clock,
        }
    }

    /// Makes the store go by `time` from now on, whatever the clock shows.
    pub fn set_time(&mut self, time: u64)
        ensures
            final(self).time_override == Some(time),
            final(self).index == old(self).index,
    {
        self.time_override = Some(time);
    }
    /// Rebuilds the index from what the persistent store holds: first the
    /// records of the statements column, then those of the expired column,
    /// each in the order given. After that the store is maintained once.
    /// The result is what has to be committed: the deletion of the markers
    /// that the maintenance purged.
    pub fn populate(
        &mut self,
        statements: &Vec<Vec<u8>>,
        expired: &Vec<Vec<u8>>,
        clock: u64,
    ) -> (commit: Vec<Change>)
        requires
            old(self).wf(),
        ensures
            final(self).wf(),
            final(self).time_override == old(self).time_override,
            final(self).index.max_entries() == old(self).index.max_entries(),
            final(self).index.max_size() == old(self).index.max_size(),
            ({
                let loaded = load_markers(
                    load_all(old(self).state(), parsed_rows(statements@)),
                    expired@,
                );
                let now = old(self).spec_timestamp(clock);
                &&& final(self).index.entries() == loaded.entries
                &&& final(self).index.expired() == kept(loaded.expired, now)
                &&& purges(batch_view(commit@), loaded.expired, now)
            }),
    {
        let mut i: usize = 0;
        proof {
            assert(parsed_rows(statements@.subrange(0, 0)) =~= Seq::empty());
        }
        while i < statements.len()
            invariant
                i <= statements@.len(),
                self.wf(),
                self.time_override == old(self).time_override,
                self.index.max_entries() == old(self).index.max_entries(),
                self.index.max_size() == old(self).index.max_size(),
                self.state() == load_all(
                    old(self).state(),
                    parsed_rows(statements@.subrange(0, i as int)),
                ),
            decreases statements@.len() - i,
        {
            let ghost before = self.state();
            proof {
                let rows = parsed_rows(statements@.subrange(0, i + 1));
                assert(rows.drop_last() =~= parsed_rows(statements@.subrange(0, i as int)));
                assert(rows.last() == parse_stored(statements@[i as int]@));
            }
            match StatementWithMeta::decode(statements[i].as_slice()) {
                Some(stored) => {
                    match stored.statement.account_id {
                        Some(account) => {
                            self.index.insert_new(
                                stored.statement.hash,
                                account,
                                stored.meta.global_priority,
                                &stored.statement,
                            );
                        },
                        None => {},
                    }
                },
                None => {},
            }
            proof {
                let next = load_parsed(before, parse_stored(statements@[i as int]@));
                assert(self.index.entries() =~= next.entries);
                assert(self.index.expired() =~= next.expired);
            }
            i += 1;
        }
        proof {
            assert(statements@.subrange(0, statements@.len() as int) =~= statements@);
            assert(expired@.subrange(0, 0) =~= Seq::<Vec<u8>>::empty());
        }
        let ghost loaded = self.state();
        let mut j: usize = 0;
        while j < expired.len()
            invariant
                j <= expired@.len(),
                self.wf(),
                self.time_override == old(self).time_override,
                self.index.max_entries() == old(self).index.max_entries(),
                self.index.max_size() == old(self).index.max_size(),
                self.state() == load_markers(loaded, expired@.subrange(0, j as int)),
            decreases expired@.len() - j,
        {
            let ghost before = self.state();
            proof {
                let rows = expired@.subrange(0, j + 1);
                assert(rows.drop_last() =~= expired@.subrange(0, j as int));
                assert(rows.last() == expired@[j as int]);
            }
            match decode_expiry(expired[j].as_slice()) {
                Some((hash, timestamp)) => {
                    proof {
                        crate::codec::lemma_id_of(hash);
                    }
                    self.index.insert_expired(hash, timestamp);
                },
                None => {},
            }
            proof {
                let next = load_marker(before, expired@[j as int]@);
                assert(self.index.entries() =~= next.entries);
                assert(self.index.expired() =~= next.expired);
            }
            j += 1;
        }
        proof {
            assert(expired@.subrange(0, expired@.len() as int) =~= expired@);
        }
        self.maintain(clock)
    }

    /// Forgets the statements that expired long enough ago. The result is
    /// what has to be committed: the deletion of their markers.
    pub fn maintain(&mut self, clock: u64) -> (commit: Vec<Change>)
        requires
            old(self).wf(),
        ensures
            final(self).wf(),
            final(self).time_override == old(self).time_override,
            final(self).index.max_entries() == old(self).index.max_entries(),
            final(self).index.max_size() == old(self).index.max_size(),
            final(self).index.entries() == old(self).index.entries(),
            final(self).index.expired() == kept(
                old(self).index.expired(),
                old(self).spec_timestamp(clock),
            ),
            purges(batch_view(commit@), old(self).index.expired(), old(self).spec_timestamp(clock)),
    {
        let now = self.timestamp(clock);
        let purged = self.index.maintain(now);
        let mut commit: Vec<Change> = Vec::new();
        let mut i: usize = 0;
        while i < purged.len()
            invariant
                i <= purged@.len(),
                batch_view(commit@) == purge_changes(purged@.subrange(0, i as int)),
            decreases purged@.len() - i,
        {
            let ghost before = batch_view(commit@);
            commit.push((crate::col::EXPIRED, id_to_vec(&purged[i]), None));
            proof {
                let h = purged@[i as int];
                assert(batch_view(commit@) =~= before.push(delete_marker(h)));
                assert(purge_changes(purged@.subrange(0, i + 1)) =~= purge_changes(
                    purged@.subrange(0, i as int),
                ).push(delete_marker(h)));
            }
            i += 1;
        }
        proof {
            assert(purged@.subrange(0, purged@.len() as int) =~= purged@);
            assert(self.index.expired() =~= kept(old(self).index.expired(), now));
        }
        commit
    }

    /// First step of a submission. A statement that the store holds, live
    /// or expired, is turned away unless its source may submit it again. A
    /// statement without an account is bad. Else the validator has to be
    /// asked. Nothing changes.
    pub fn submit(&self, statement: &Statement, source: StatementSource) -> (step: SubmitStep)
        requires
            self.wf(),
        ensures
            step == self.first_step(statement@, source),
    {
        match self.index.query(&statement.hash) {
            IndexQuery::Expired => {
                if !source.can_be_resubmitted() {
                    return SubmitStep::Done(SubmitResult::KnownExpired);
                }
            },
            IndexQuery::Exists => {
                if !source.can_be_resubmitted() {
                    return SubmitStep::Done(SubmitResult::Known);
                }
            },
            IndexQuery::Unknown => {},
        }
        if statement.account_id.is_none() {
            return SubmitStep::Done(SubmitResult::Bad("No statement proof"));
        }
        SubmitStep::Validate { at_block: statement.proof_block }
    }

    /// First step of the submission of an encoded statement: bytes that are
    /// not the encoding of a statement are bad; else the statement is handed
    /// back with its first step.
    pub fn submit_encoded(&self, bytes: &[u8], source: StatementSource) -> (r: (
        SubmitStep,
        Option<Statement>,
    ))
        requires
            self.wf(),
        ensures
            match crate::statement::decoded(bytes@) {
                Some(statement) => r.1.is_some() && r.1.unwrap()@ == statement
                    && statement.canonical() && r.0 == self.first_step(statement, source),
                None => r.1.is_none() && r.0 == SubmitStep::Done(
                    SubmitResult::Bad("Bad SCALE encoding"),
                ),
            },
    {
        match Statement::decode(bytes) {
            Some(statement) => {
                let step = self.submit(&statement, source);
                (step, Some(statement))
            },
            None => (SubmitStep::Done(SubmitResult::Bad("Bad SCALE encoding")), None),
        }
    }

    /// Second step of a submission, with the validator's answer. A
    /// statement that the validator turned down is bad, or an internal
    /// error where the validator failed. A valid statement is admitted to
    /// the index under the limits and with the global priority the
    /// validator gave, at the store's time.
    /// Where it is ignored nothing changes. Where it is inserted, the
    /// result is `New`, high where the global priority is above 0, and the
    /// changes to commit are those of `commit_of`.
    pub fn submit_validated(
        &mut self,
        statement: &Statement,
        validation: Result<ValidStatement, InvalidStatement>,
        clock: u64,
    ) -> (r: Submitted)
        requires
            old(self).wf(),
        ensures
            final(self).wf(),
            final(self).time_override == old(self).time_override,
            final(self).index.max_entries() == old(self).index.max_entries(),
            final(self).index.max_size() == old(self).index.max_size(),
            match validation {
                Err(InvalidStatement::BadProof) => r.result == SubmitResult::Bad(
                    "Bad statement proof",
                ) && r.commit@.len() == 0 && final(self).index == old(self).index,
                Err(InvalidStatement::NoProof) => r.result == SubmitResult::Bad(
                    "Missing statement proof",
                ) && r.commit@.len() == 0 && final(self).index == old(self).index,
                Err(InvalidStatement::InternalError) => r.result == SubmitResult::InternalError(
                    Error::Runtime,
                ) && r.commit@.len() == 0 && final(self).index == old(self).index,
                Ok(v) => match statement.account_id {
                    None => r.result == SubmitResult::Bad("No statement proof") && r.commit@.len()
                        == 0 && final(self).index == old(self).index,
                    Some(a) => {
                        let e = entry_of(a, v.global_priority, statement@);
                        let now = old(self).spec_timestamp(clock);
                        match old(self).index.plan(statement.hash, e, v) {
                            None => r.result == SubmitResult::Ignored && r.commit@.len() == 0
                                && final(self).index == old(self).index,
                            Some(evicted) => {
                                &&& r.result == SubmitResult::New(
                                    network_priority(v.global_priority),
                                )
                                &&& batch_view(r.commit@) == commit_of(statement@, v, evicted, now)
                                &&& final(self).index.entries() == old(
                                    self,
                                ).index.entries().remove_keys(evicted.to_set()).insert(
                                    statement.hash,
                                    e,
                                )
                                &&& final(self).index.expired() == expired_after(
                                    old(self).index.expired(),
                                    evicted,
                                    now,
                                ).remove(statement.hash)
                                &&& forall|k: int|
                                    0 <= k < evicted.len() ==> {
                                        &&& old(self).index.entries().contains_key(
                                            #[trigger] evicted[k],
                                        )
                                        &&& evicted[k] != statement.hash
                                        &&& old(self).index.entries()[evicted[k]].priority
                                            < e.priority
                                    }
                                &&& final(self).index.total_size() <= final(self).index.max_size()
                                &&& final(self).index.live_count() <= final(self).index.max_entries()
                                &&& final(self).index.account_size(a) <= v.max_size
                                &&& final(self).index.account_count(a) <= v.max_count
                            },
                        }
                    },
                },
            },
    {
        let v = match validation {
            Ok(v) => v,
            Err(InvalidStatement::BadProof) => {
                return Submitted {
                    result: SubmitResult::Bad("Bad statement proof"),
                    commit: Vec::new(),
                };
            },
            Err(InvalidStatement::NoProof) => {
                return Submitted {
                    result: SubmitResult::Bad("Missing statement proof"),
                    commit: Vec::new(),
                };
            },
            Err(InvalidStatement::InternalError) => {
                return Submitted {
                    result: SubmitResult::InternalError(Error::Runtime),
                    commit: Vec::new(),
                };
            },
        };
        let account = match statement.account_id {
            Some(a) => a,
            None => {
                return Submitted {
                    result: SubmitResult::Bad("No statement proof"),
                    commit: Vec::new(),
                };
            },
        };
        let now = self.timestamp(clock);
        let evicted = match self.index.insert(statement.hash, statement, &account, &v, now) {
            MaybeInserted::Ignored => {
                return Submitted { result: SubmitResult::Ignored, commit: Vec::new() };
            },
            MaybeInserted::Inserted(evicted) => evicted,
        };
        let mut commit: Vec<Change> = Vec::new();
        commit.push(
            (
                crate::col::STATEMENTS,
                id_to_vec(&statement.hash),
                Some(encode_stored(v.global_priority, statement.encoded.as_slice())),
            ),
        );
        let ghost first = seq![put_statement(statement.hash, v.global_priority, statement.encoded@)];
        proof {
            assert(evicted@.subrange(0, 0) =~= Seq::<crate::keys::Hash>::empty());
            assert(batch_view(commit@) =~= first + eviction_changes(evicted@.subrange(0, 0), now));
        }
        let mut i: usize = 0;
        while i < evicted.len()
            invariant
                i <= evicted@.len(),
                first == seq![
                    put_statement(statement.hash, v.global_priority, statement.encoded@),
                ],
                batch_view(commit@) == first + eviction_changes(
                    evicted@.subrange(0, i as int),
                    now,
                ),
            decreases evicted@.len() - i,
        {
            let ghost before = batch_view(commit@);
            commit.push((crate::col::STATEMENTS, id_to_vec(&evicted[i]), None));
            commit.push(
                (crate::col::EXPIRED, id_to_vec(&evicted[i]), Some(encode_expiry(&evicted[i], now))),
            );
            proof {
                let next = evicted@.subrange(0, i + 1);
                assert(next.drop_last() =~= evicted@.subrange(0, i as int));
                assert(next.last() == evicted@[i as int]);
                assert(batch_view(commit@) =~= before.push(delete_statement(evicted@[i as int])).push(
                    put_marker(evicted@[i as int], now),
                ));
                assert(batch_view(commit@) =~= first + eviction_changes(next, now));
            }
            i += 1;
        }
        proof {
            assert(evicted@.subrange(0, evicted@.len() as int) =~= evicted@);
        }
        let result = if v.global_priority > 0 {
            SubmitResult::New(NetworkPriority::High)
        } else {
            SubmitResult::New(NetworkPriority::Low)
        };
        Submitted { result, commit }
    }

    /// Last step of a submission: where the commit failed, with the error
    /// text `failure`, the result is an internal error; else it stands.
    pub fn after_commit(result: SubmitResult, failure: Option<String>) -> (r: SubmitResult)
        ensures
            r == (match failure {
                Some(message) => SubmitResult::InternalError(Error::Db(message)),
                None => result,
            }),
    {
        match failure {
            Some(message) => SubmitResult::InternalError(Error::Db(message)),
            None => result,
        }
    }

    /// Makes the live statement `hash` expired at the store's time. The
    /// result is what has to be committed: the statement is deleted and its
    /// marker written. Where the statement is not live nothing changes and
    /// nothing is to be committed.
    pub fn remove(&mut self, hash: &crate::keys::Hash, clock: u64) -> (commit: Vec<Change>)
        requires
            old(self).wf(),
        ensures
            final(self).wf(),
            final(self).time_override == old(self).time_override,
            final(self).index.max_entries() == old(self).index.max_entries(),
            final(self).index.max_size() == old(self).index.max_size(),
            if old(self).index.entries().contains_key(*hash) {
                let now = old(self).spec_timestamp(clock);
                &&& final(self).index.entries() == old(self).index.entries().remove(*hash)
                &&& final(self).index.expired() == old(self).index.expired().insert(*hash, now)
                &&& batch_view(commit@) == seq![delete_statement(*hash), put_marker(*hash, now)]
            } else {
                final(self).index == old(self).index && commit@.len() == 0
            },
    {
        let now = self.timestamp(clock);
        let mut commit: Vec<Change> = Vec::new();
        if self.index.make_expired(hash, now) {
            commit.push((crate::col::STATEMENTS, id_to_vec(hash), None));
            commit.push((crate::col::EXPIRED, id_to_vec(hash), Some(encode_expiry(hash, now))));
            proof {
                assert(batch_view(commit@) =~= seq![
                    delete_statement(*hash),
                    put_marker(*hash, now),
                ]);
            }
        }
        commit
    }

    /// The statement `hash`, read from the record that was fetched for it:
    /// `None` where the statement is not live, where there is no record,
    /// and where the record cannot be read.
    pub fn statement(&self, hash: &crate::keys::Hash, record: &Option<Vec<u8>>) -> (r: Option<
        Statement,
    >)
        requires
            self.wf(),
        ensures
            match r {
                Some(s) => found(self.index.entries(), (*hash, *record)) == Some(s@)
                    && s@.canonical(),
                None => found(self.index.entries(), (*hash, *record)).is_none(),
            },
    {
        if !matches!(self.index.query(hash), IndexQuery::Exists) {
            return None;
        }
        match record {
            Some(bytes) => match StatementWithMeta::decode(bytes.as_slice()) {
                Some(stored) => Some(stored.statement),
                None => None,
            },
            None => None,
        }
    }

    /// The hashes of all live statements, each once.
    pub fn hashes(&self) -> (r: Vec<crate::keys::Hash>)
        requires
            self.wf(),
        ensures
            r@.no_duplicates(),
            forall|h: crate::keys::Hash|
                #[trigger] r@.contains(h) <==> self.index.entries().contains_key(h),
    {
        let topics: Vec<Topic> = Vec::new();
        let r = self.index.iter(None, topics.as_slice());
        proof {
            assert forall|h: crate::keys::Hash| #[trigger]
                r@.contains(h) <==> self.index.entries().contains_key(h) by {
                assert(self.index.matches(h, None, topics@) <==> self.index.entries().contains_key(
                    h,
                ));
            }
        }
        r
    }

    /// All statements: of the records fetched for the live hashes, those
    /// that can be read, each with the hash of the statement it holds.
    pub fn dump(&self, fetched: &Vec<(crate::keys::Hash, Option<Vec<u8>>)>) -> (r: Vec<
        (crate::keys::Hash, Statement),
    >)
        requires
            self.wf(),
        ensures
            statement_views(r@) == dumped(self.index.entries(), fetched@),
    {
        let mut result: Vec<(crate::keys::Hash, Statement)> = Vec::new();
        let mut i: usize = 0;
        proof {
            assert(fetched@.subrange(0, 0) =~= Seq::empty());
            assert(statement_views(result@) =~= Seq::empty());
        }
        while i < fetched.len()
            invariant
                i <= fetched@.len(),
                self.wf(),
                statement_views(result@) == dumped(
                    self.index.entries(),
                    fetched@.subrange(0, i as int),
                ),
            decreases fetched@.len() - i,
        {
            let ghost before = statement_views(result@);
            proof {
                let next = fetched@.subrange(0, i + 1);
                assert(next.drop_last() =~= fetched@.subrange(0, i as int));
                assert(next.last() == fetched@[i as int]);
            }
            match self.statement(&fetched[i].0, &fetched[i].1) {
                Some(statement) => {
                    let ghost pair = (statement.hash, statement@);
                    result.push((statement.hash, statement));
                    proof {
                        assert(statement_views(result@) =~= before.push(pair));
                    }
                },
                None => {},
            }
            i += 1;
        }
        proof {
            assert(fetched@.subrange(0, fetched@.len() as int) =~= fetched@);
        }
        result
    }

    /// All statements in encoded form: of the records fetched for the live
    /// hashes, those that can be read and whose statement has not expired,
    /// each with the hash of its encoding.
    pub fn dump_encoded(&self, fetched: &Vec<(crate::keys::Hash, Option<Vec<u8>>)>) -> (r: Vec<
        (crate::keys::Hash, Vec<u8>),
    >)
        requires
            self.wf(),
        ensures
            pair_views(r@) == dumped_encoded(
                self.index.entries(),
                self.index.expired(),
                fetched@,
            ),
            forall|i: int|
                0 <= i < r@.len() ==> (#[trigger] r@[i]).0 == crate::statement::encoding_hash(
                    r@[i].1@,
                ),
    {
        let mut result: Vec<(crate::keys::Hash, Vec<u8>)> = Vec::new();
        let mut i: usize = 0;
        proof {
            assert(fetched@.subrange(0, 0) =~= Seq::empty());
            assert(pair_views(result@) =~= Seq::empty());
        }
        while i < fetched.len()
            invariant
                i <= fetched@.len(),
                self.wf(),
                pair_views(result@) == dumped_encoded(
                    self.index.entries(),
                    self.index.expired(),
                    fetched@.subrange(0, i as int),
                ),
                forall|j: int|
                    0 <= j < result@.len() ==> (#[trigger] result@[j]).0
                        == crate::statement::encoding_hash(result@[j].1@),
            decreases fetched@.len() - i,
        {
            let ghost before = pair_views(result@);
            proof {
                let next = fetched@.subrange(0, i + 1);
                assert(next.drop_last() =~= fetched@.subrange(0, i as int));
                assert(next.last() == fetched@[i as int]);
            }
            match self.statement(&fetched[i].0, &fetched[i].1) {
                Some(statement) => {
                    let hash = crate::statement::hash_encoded(statement.encoded.as_slice());
                    if !self.index.is_expired(&hash) {
                        let ghost pair = (statement.hash, statement.encoded@);
                        let ghost held = result@;
                        result.push((hash, statement.encoded));
                        proof {
                            assert(pair_views(result@) =~= before.push(pair));
                            assert forall|j: int| 0 <= j < result@.len() implies (
                            #[trigger] result@[j]).0 == crate::statement::encoding_hash(
                                result@[j].1@,
                            ) by {
                                if j < held.len() {
                                    assert(result@[j] == held[j]);
                                }
                            }
                        }
                    }
                },
                None => {},
            }
            i += 1;
        }
        proof {
            assert(fetched@.subrange(0, fetched@.len() as int) =~= fetched@);
        }
        result
    }

    /// The payloads of the statements among the fetched records: of the
    /// records fetched for the live hashes, those that can be read and
    /// whose statement has a payload. A record that is missing or cannot be
    /// read is passed over.
    pub fn collect_statements(&self, fetched: &Vec<(crate::keys::Hash, Option<Vec<u8>>)>) -> (r:
        Vec<Vec<u8>>)
        requires
            self.wf(),
        ensures
            views(r@) == collected(self.index.entries(), fetched@),
    {
        let mut result: Vec<Vec<u8>> = Vec::new();
        let mut i: usize = 0;
        proof {
            assert(fetched@.subrange(0, 0) =~= Seq::empty());
            assert(views(result@) =~= Seq::empty());
        }
        while i < fetched.len()
            invariant
                i <= fetched@.len(),
                self.wf(),
                views(result@) == collected(self.index.entries(), fetched@.subrange(0, i as int)),
            decreases fetched@.len() - i,
        {
            let ghost before = views(result@);
            proof {
                let next = fetched@.subrange(0, i + 1);
                assert(next.drop_last() =~= fetched@.subrange(0, i as int));
                assert(next.last() == fetched@[i as int]);
            }
            match self.statement(&fetched[i].0, &fetched[i].1) {
                Some(statement) => {
                    match statement.data {
                        Some(data) => {
                            let ghost d = data@;
                            result.push(data);
                            proof {
                                assert(views(result@) =~= before.push(d));
                            }
                        },
                        None => {},
                    }
                },
                None => {},
            }
            i += 1;
        }
        proof {
            assert(fetched@.subrange(0, fetched@.len() as int) =~= fetched@);
        }
        result
    }

    /// The hashes of the live statements that declare all of
    /// `match_all_topics` and name no decryption key; each once. Their
    /// payloads are what `collect_statements` gives for the records fetched
    /// for them.
    pub fn broadcasts(&self, match_all_topics: &[Topic]) -> (r: Vec<crate::keys::Hash>)
        requires
            self.wf(),
        ensures
            r@.no_duplicates(),
            forall|h: crate::keys::Hash|
                #[trigger] r@.contains(h) <==> match_all_topics@.len() <= 4 && self.index.matches(
                    h,
                    None,
                    match_all_topics@,
                ) && self.index.entries()[h].decryption_key.is_none(),
    {
        let all = self.index.iter(None, match_all_topics);
        let mut result: Vec<crate::keys::Hash> = Vec::new();
        let mut i: usize = 0;
        while i < all.len()
            invariant
                i <= all@.len(),
                self.wf(),
                all@.no_duplicates(),
                forall|h: crate::keys::Hash| #[trigger] all@.contains(h) ==> self.index.entries().contains_key(h),
                result@.no_duplicates(),
                forall|m: int|
                    0 <= m < result@.len() ==> all@.contains(#[trigger] result@[m])
                        && self.index.entries()[result@[m]].decryption_key.is_none(),
                forall|a: int|
                    0 <= a < i && self.index.entries()[all@[a]].decryption_key.is_none()
                        ==> result@.contains(#[trigger] all@[a]),
                forall|a: int| i <= a < all@.len() ==> !result@.contains(#[trigger] all@[a]),
            decreases all@.len() - i,
        {
            proof {
                assert(all@.contains(all@[i as int]));
            }
            let keyed = match self.index.entry(&all[i]) {
                Some(e) => e.decryption_key.is_some(),
                None => true,
            };
            if !keyed {
                let ghost before = result@;
                result.push(all[i]);
                proof {
                    crate::index::lemma_pushed(before, result@, all@[i as int]);
                    assert forall|m: int| 0 <= m < result@.len() implies all@.contains(
                        #[trigger] result@[m],
                    ) && self.index.entries()[result@[m]].decryption_key.is_none() by {
                        if m < before.len() {
                            assert(result@[m] == before[m]);
                        }
                    }
                }
            }
            i += 1;
        }
        proof {
            assert forall|h: crate::keys::Hash| #[trigger]
                result@.contains(h) <==> match_all_topics@.len() <= 4 && self.index.matches(
                    h,
                    None,
                    match_all_topics@,
                ) && self.index.entries()[h].decryption_key.is_none() by {
                if result@.contains(h) {
                    let m = choose|m: int| 0 <= m < result@.len() && result@[m] == h;
                    assert(all@.contains(result@[m]));
                }
                if all@.contains(h) && self.index.entries()[h].decryption_key.is_none() {
                    let a = choose|a: int| 0 <= a < all@.len() && all@[a] == h;
                    assert(result@.contains(all@[a]));
                }
            }
        }
        result
    }

    /// The hashes of the live statements that declare all of
    /// `match_all_topics` and name the decryption key `dest`; each once.
    pub fn posted(&self, match_all_topics: &[Topic], dest: DecryptionKey) -> (r: Vec<
        crate::keys::Hash,
    >)
        requires
            self.wf(),
        ensures
            r@.no_duplicates(),
            forall|h: crate::keys::Hash|
                #[trigger] r@.contains(h) <==> match_all_topics@.len() <= 4 && self.index.matches(
                    h,
                    Some(dest),
                    match_all_topics@,
                ),
    {
        self.index.iter(Some(dest), match_all_topics)
    }

    /// As `posted`: the statements are the same, and decrypting their
    /// payloads is left to the caller.
    pub fn posted_clear(&self, match_all_topics: &[Topic], dest: DecryptionKey) -> (r: Vec<
        crate::keys::Hash,
    >)
        requires
            self.wf(),
        ensures
            r@.no_duplicates(),
            forall|h: crate::keys::Hash|
                #[trigger] r@.contains(h) <==> match_all_topics@.len() <= 4 && self.index.matches(
                    h,
                    Some(dest),
                    match_all_topics@,
                ),
    {
        self.index.iter(Some(dest), match_all_topics)
    }
}

} // verus!
