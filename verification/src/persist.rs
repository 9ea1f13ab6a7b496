//! The persistent store as the library sees it: three columns of keys and
//! values, changed by the batches that the store hands out. The laws here
//! say that a database that carries out every batch stays in step with the
//! index.

use vstd::prelude::*;
use crate::codec::{id_of, lemma_id_exists, lemma_id_of, parse_stored, stored_statement};
use crate::index::{entry_of, expired_after, Entry};
use crate::laws::{exclusive, law_reload, row_hash, row_mirrors, rows_mirror};
use crate::statement::StatementView;
use crate::store::{
    commit_of, delete_marker, delete_statement, due, eviction_changes, kept, load_all,
    purge_changes, purges, put_marker, put_statement, ChangeView, State,
};
use crate::types::ValidStatement;

verus! {

/// One column: the values by their keys.
pub type Column = Map<Seq<u8>, Seq<u8>>;

/// What the persistent store holds.
pub struct Db {
    pub meta: Column,
    pub statements: Column,
    pub expired: Column,
}

/// The column after `key` was given the value `value`, or deleted.
pub open spec fn write(column: Column, key: Seq<u8>, value: Option<Seq<u8>>) -> Column {
    match value {
        Some(v) => column.insert(key, v),
        None => column.remove(key),
    }
}

/// The store after one change. A change to a column that does not exist
/// changes nothing.
pub open spec fn apply_change(db: Db, c: ChangeView) -> Db {
    if c.0 == crate::col::META {
        Db { meta: write(db.meta, c.1, c.2), statements: db.statements, expired: db.expired }
    } else if c.0 == crate::col::STATEMENTS {
        Db { meta: db.meta, statements: write(db.statements, c.1, c.2), expired: db.expired }
    } else if c.0 == crate::col::EXPIRED {
        Db { meta: db.meta, statements: db.statements, expired: write(db.expired, c.1, c.2) }
    } else {
        db
    }
}

/// The store after the changes of `batch`, in order.
pub open spec fn apply(db: Db, batch: Seq<ChangeView>) -> Db
    decreases batch.len(),
{
    if batch.len() == 0 {
        db
    } else {
        apply_change(apply(db, batch.drop_last()), batch.last())
    }
}

/// Whether the statements column has a record for each live statement,
/// under its hash, and no other record.
pub open spec fn holds_live(db: Db, entries: Map<crate::keys::Hash, Entry>) -> bool {
    forall|key: Seq<u8>| #[trigger]
        db.statements.contains_key(key) <==> key.len() == 32 && entries.contains_key(id_of(key))
}

/// Whether the expired column has a record for each expired statement,
/// under its hash.
pub open spec fn covers_expired(db: Db, expired: Map<crate::keys::Hash, u64>) -> bool {
    forall|h: crate::keys::Hash| #[trigger] expired.contains_key(h) ==> db.expired.contains_key(h@)
}

/// Whether `key` is the hash of one of `hashes`.
pub open spec fn names(hashes: Seq<crate::keys::Hash>, key: Seq<u8>) -> bool {
    exists|i: int| 0 <= i < hashes.len() && (#[trigger] hashes[i])@ == key
}

/// A key of 32 bytes is the hash of one of `hashes` exactly where the
/// identifier it names is among them.
pub proof fn lemma_names(hashes: Seq<crate::keys::Hash>, key: Seq<u8>)
    requires
        key.len() == 32,
    ensures
        names(hashes, key) <==> hashes.contains(id_of(key)),
{
    lemma_id_exists(key);
    if names(hashes, key) {
        let i = choose|i: int| 0 <= i < hashes.len() && (#[trigger] hashes[i])@ == key;
        lemma_id_of(hashes[i]);
        assert(hashes[i] == id_of(key));
    }
    if hashes.contains(id_of(key)) {
        let i = choose|i: int| 0 <= i < hashes.len() && hashes[i] == id_of(key);
        assert(hashes[i]@ == key);
    }
}

/// What the changes for evicted statements do: the statements leave the
/// statements column and enter the expired column; nothing else changes.
pub proof fn lemma_apply_evictions(
    db: Db,
    first: Seq<ChangeView>,
    evicted: Seq<crate::keys::Hash>,
    now: u64,
)
    ensures
        ({
            let base = apply(db, first);
            let after = apply(db, first + eviction_changes(evicted, now));
            &&& after.meta == base.meta
            &&& forall|key: Seq<u8>| #[trigger]
                after.statements.contains_key(key) <==> base.statements.contains_key(key)
                    && !names(evicted, key)
            &&& forall|key: Seq<u8>| #[trigger]
                after.statements.contains_key(key) ==> after.statements[key]
                    == base.statements[key]
            &&& forall|key: Seq<u8>| #[trigger]
                after.expired.contains_key(key) <==> base.expired.contains_key(key) || names(
                    evicted,
                    key,
                )
        }),
    decreases evicted.len(),
{
    let base = apply(db, first);
    let batch = first + eviction_changes(evicted, now);
    let after = apply(db, batch);
    if evicted.len() == 0 {
        assert(batch =~= first);
    } else {
        let shorter = evicted.drop_last();
        let h = evicted.last();
        let inner = first + eviction_changes(shorter, now);
        lemma_apply_evictions(db, first, shorter, now);
        let before = apply(db, inner);
        let middle = inner.push(delete_statement(h));
        assert(batch =~= middle.push(put_marker(h, now)));
        assert(batch.drop_last() =~= middle);
        assert(middle.drop_last() =~= inner);
        assert(apply(db, middle) == apply_change(before, delete_statement(h)));
        assert(after == apply_change(apply(db, middle), put_marker(h, now)));
        assert forall|key: Seq<u8>| names(evicted, key) <==> names(shorter, key) || key == h@ by {
            if names(evicted, key) {
                let i = choose|i: int| 0 <= i < evicted.len() && (#[trigger] evicted[i])@ == key;
                if i < shorter.len() {
                    assert(shorter[i]@ == key);
                }
            }
            if names(shorter, key) {
                let i = choose|i: int| 0 <= i < shorter.len() && (#[trigger] shorter[i])@ == key;
                assert(evicted[i]@ == key);
            }
            if key == h@ {
                assert(evicted[evicted.len() - 1]@ == key);
            }
        }
    }
}

/// What the changes of a purge do: the markers of the purged statements
/// leave the expired column; nothing else changes.
pub proof fn lemma_apply_purge(db: Db, purged: Seq<crate::keys::Hash>)
    ensures
        ({
            let after = apply(db, purge_changes(purged));
            &&& after.meta == db.meta
            &&& after.statements == db.statements
            &&& forall|key: Seq<u8>| #[trigger]
                after.expired.contains_key(key) <==> db.expired.contains_key(key) && !names(
                    purged,
                    key,
                )
        }),
    decreases purged.len(),
{
    let batch = purge_changes(purged);
    if purged.len() > 0 {
        let shorter = purged.drop_last();
        let h = purged.last();
        lemma_apply_purge(db, shorter);
        assert(batch.drop_last() =~= purge_changes(shorter));
        assert(batch.last() == delete_marker(h));
        assert forall|key: Seq<u8>| names(purged, key) <==> names(shorter, key) || key == h@ by {
            if names(purged, key) {
                let i = choose|i: int| 0 <= i < purged.len() && (#[trigger] purged[i])@ == key;
                if i < shorter.len() {
                    assert(shorter[i]@ == key);
                }
            }
            if names(shorter, key) {
                let i = choose|i: int| 0 <= i < shorter.len() && (#[trigger] shorter[i])@ == key;
                assert(purged[i]@ == key);
            }
            if key == h@ {
                assert(purged[purged.len() - 1]@ == key);
            }
        }
    }
}

/// A database that is in step with the index stays so when it carries out
/// the changes of a successful submission: afterwards the statements
/// column holds the submitted statement in its stored form, and a record
/// for each live statement and no other; the expired column holds a marker
/// for each expired statement.
pub proof fn law_commit_submission(
    db: Db,
    entries: Map<crate::keys::Hash, Entry>,
    expired: Map<crate::keys::Hash, u64>,
    statement: StatementView,
    v: ValidStatement,
    e: Entry,
    evicted: Seq<crate::keys::Hash>,
    now: u64,
)
    requires
        holds_live(db, entries),
        covers_expired(db, expired),
        forall|k: int| 0 <= k < evicted.len() ==> #[trigger] evicted[k] != statement.hash,
    ensures
        ({
            let after = apply(db, commit_of(statement, v, evicted, now));
            &&& after.meta == db.meta
            &&& after.statements.contains_key(statement.hash@)
            &&& after.statements[statement.hash@] == stored_statement(
                v.global_priority,
                statement.encoded,
            )
            &&& holds_live(after, entries.remove_keys(evicted.to_set()).insert(statement.hash, e))
            &&& covers_expired(after, expired_after(expired, evicted, now).remove(statement.hash))
        }),
{
    let put = put_statement(statement.hash, v.global_priority, statement.encoded);
    let first = seq![put];
    let base = apply(db, first);
    let after = apply(db, commit_of(statement, v, evicted, now));
    assert(first.drop_last() =~= Seq::<ChangeView>::empty());
    assert(apply(db, first.drop_last()) == db);
    assert(base == apply_change(db, put));
    lemma_apply_evictions(db, first, evicted, now);
    lemma_id_of(statement.hash);
    assert(!names(evicted, statement.hash@)) by {
        if names(evicted, statement.hash@) {
            let i = choose|i: int|
                0 <= i < evicted.len() && (#[trigger] evicted[i])@ == statement.hash@;
            lemma_id_of(evicted[i]);
        }
    }
    assert(base.statements.contains_key(statement.hash@));
    assert(after.statements.contains_key(statement.hash@));
    let live = entries.remove_keys(evicted.to_set()).insert(statement.hash, e);
    assert forall|key: Seq<u8>| #[trigger]
        after.statements.contains_key(key) <==> key.len() == 32 && live.contains_key(
            id_of(key),
        ) by {
        if key.len() == 32 {
            lemma_names(evicted, key);
            lemma_id_exists(key);
            if id_of(key) == statement.hash {
                assert(key == statement.hash@);
            }
        } else {
            assert(!db.statements.contains_key(key));
            assert(key != statement.hash@);
        }
    }
    let gone = expired_after(expired, evicted, now).remove(statement.hash);
    assert forall|h: crate::keys::Hash| #[trigger] gone.contains_key(h) implies after.expired.contains_key(
        h@,
    ) by {
        if evicted.contains(h) {
            let i = choose|i: int| 0 <= i < evicted.len() && evicted[i] == h;
            assert(evicted[i]@ == h@);
        } else {
            assert(expired.contains_key(h));
        }
    }
}

/// A database that is in step with the index stays so when it carries out
/// the changes of a removal.
pub proof fn law_commit_removal(
    db: Db,
    entries: Map<crate::keys::Hash, Entry>,
    expired: Map<crate::keys::Hash, u64>,
    hash: crate::keys::Hash,
    now: u64,
)
    requires
        holds_live(db, entries),
        covers_expired(db, expired),
    ensures
        ({
            let after = apply(db, seq![delete_statement(hash), put_marker(hash, now)]);
            &&& after.meta == db.meta
            &&& holds_live(after, entries.remove(hash))
            &&& covers_expired(after, expired.insert(hash, now))
        }),
{
    let batch = seq![delete_statement(hash), put_marker(hash, now)];
    let one = seq![delete_statement(hash)];
    assert(batch.drop_last() =~= one);
    assert(one.drop_last() =~= Seq::<ChangeView>::empty());
    assert(apply(db, one.drop_last()) == db);
    assert(apply(db, one) == apply_change(db, delete_statement(hash)));
    let after = apply(db, batch);
    assert(after == apply_change(apply(db, one), put_marker(hash, now)));
    lemma_id_of(hash);
    assert forall|key: Seq<u8>| #[trigger]
        after.statements.contains_key(key) <==> key.len() == 32 && entries.remove(
            hash,
        ).contains_key(id_of(key)) by {
        if key.len() == 32 {
            lemma_id_exists(key);
            if id_of(key) == hash {
                assert(key == hash@);
            }
        } else {
            assert(!db.statements.contains_key(key));
        }
    }
}

/// A database that is in step with the index stays so when it carries out
/// the changes of a maintenance: the live statements are untouched, and
/// the expired column still holds a marker for each statement that is
/// left among the expired ones.
pub proof fn law_commit_purge(
    db: Db,
    entries: Map<crate::keys::Hash, Entry>,
    expired: Map<crate::keys::Hash, u64>,
    batch: Seq<ChangeView>,
    now: u64,
)
    requires
        holds_live(db, entries),
        covers_expired(db, expired),
        purges(batch, expired, now),
    ensures
        ({
            let after = apply(db, batch);
            &&& after.meta == db.meta
            &&& after.statements == db.statements
            &&& holds_live(after, entries)
            &&& covers_expired(after, kept(expired, now))
        }),
{
    let purged = choose|purged: Seq<crate::keys::Hash>|
        {
            &&& purged.no_duplicates()
            &&& forall|h: crate::keys::Hash|
                #[trigger] purged.contains(h) <==> expired.contains_key(h) && due(expired[h], now)
            &&& batch == purge_changes(purged)
        };
    lemma_apply_purge(db, purged);
    let after = apply(db, batch);
    assert forall|h: crate::keys::Hash| #[trigger]
        kept(expired, now).contains_key(h) implies after.expired.contains_key(h@) by {
        assert(expired.contains_key(h));
        lemma_id_of(h);
        lemma_names(purged, h@);
        assert(!purged.contains(h));
    }
}

/// Whether the record under the hash of each live statement holds that
/// statement as the index records it.
pub open spec fn records_mirror(db: Db, entries: Map<crate::keys::Hash, Entry>) -> bool {
    forall|h: crate::keys::Hash| #[trigger]
        entries.contains_key(h) ==> db.statements.contains_key(h@) && row_mirrors(
            entries,
            parse_stored(db.statements[h@]),
            h,
        )
}

/// A database whose records hold the live statements still does so when it
/// has carried out the changes of a successful submission of a statement
/// that came out of decoding.
pub proof fn law_commit_keeps_records(
    db: Db,
    entries: Map<crate::keys::Hash, Entry>,
    statement: StatementView,
    v: ValidStatement,
    account: crate::keys::AccountId,
    evicted: Seq<crate::keys::Hash>,
    now: u64,
)
    requires
        records_mirror(db, entries),
        forall|k: int| 0 <= k < evicted.len() ==> #[trigger] evicted[k] != statement.hash,
        statement.account_id == Some(account),
        statement.canonical(),
    ensures
        records_mirror(
            apply(db, commit_of(statement, v, evicted, now)),
            entries.remove_keys(evicted.to_set()).insert(
                statement.hash,
                entry_of(account, v.global_priority, statement),
            ),
        ),
{
    crate::codec::lemma_canonical_stored(v.global_priority, statement);
    let put = put_statement(statement.hash, v.global_priority, statement.encoded);
    let first = seq![put];
    let base = apply(db, first);
    let after = apply(db, commit_of(statement, v, evicted, now));
    let e = entry_of(account, v.global_priority, statement);
    let live = entries.remove_keys(evicted.to_set()).insert(statement.hash, e);
    assert(first.drop_last() =~= Seq::<ChangeView>::empty());
    assert(apply(db, first.drop_last()) == db);
    assert(base == apply_change(db, put));
    lemma_apply_evictions(db, first, evicted, now);
    assert forall|h: crate::keys::Hash| #[trigger] live.contains_key(h) implies after.statements.contains_key(
        h@,
    ) && row_mirrors(live, parse_stored(after.statements[h@]), h) by {
        lemma_id_of(h);
        assert(!names(evicted, h@)) by {
            if names(evicted, h@) {
                let i = choose|i: int| 0 <= i < evicted.len() && (#[trigger] evicted[i])@ == h@;
                lemma_id_of(evicted[i]);
                assert(evicted[i] == h);
                assert(evicted.contains(h));
                assert(evicted.to_set().contains(h));
            }
        }
        if h == statement.hash {
            assert(base.statements.contains_key(h@));
            assert(after.statements.contains_key(h@));
            assert(after.statements[h@] == stored_statement(
                v.global_priority,
                statement.encoded,
            ));
            assert(live[h] == e);
        } else {
            assert(entries.contains_key(h));
            assert(!evicted.to_set().contains(h)) by {
                if evicted.contains(h) {
                    let i = choose|i: int| 0 <= i < evicted.len() && evicted[i] == h;
                    assert(evicted[i]@ == h@);
                }
            }
            lemma_id_of(statement.hash);
            assert(h@ != statement.hash@);
            assert(db.statements.contains_key(h@));
            assert(base.statements.contains_key(h@));
            assert(base.statements[h@] == db.statements[h@]);
            assert(after.statements.contains_key(h@));
            assert(after.statements[h@] == db.statements[h@]);
            assert(live[h] == entries[h]);
            assert(row_mirrors(entries, parse_stored(db.statements[h@]), h));
        }
    }
}

/// A database whose records hold the live statements still does so when it
/// has carried out the changes of a removal.
pub proof fn law_removal_keeps_records(
    db: Db,
    entries: Map<crate::keys::Hash, Entry>,
    hash: crate::keys::Hash,
    now: u64,
)
    requires
        records_mirror(db, entries),
    ensures
        records_mirror(
            apply(db, seq![delete_statement(hash), put_marker(hash, now)]),
            entries.remove(hash),
        ),
{
    let batch = seq![delete_statement(hash), put_marker(hash, now)];
    let one = seq![delete_statement(hash)];
    assert(batch.drop_last() =~= one);
    assert(one.drop_last() =~= Seq::<ChangeView>::empty());
    assert(apply(db, one.drop_last()) == db);
    assert(apply(db, one) == apply_change(db, delete_statement(hash)));
    let after = apply(db, batch);
    assert(after == apply_change(apply(db, one), put_marker(hash, now)));
    let live = entries.remove(hash);
    assert forall|h: crate::keys::Hash| #[trigger] live.contains_key(h) implies after.statements.contains_key(
        h@,
    ) && row_mirrors(live, parse_stored(after.statements[h@]), h) by {
        assert(entries.contains_key(h));
        lemma_id_of(h);
        lemma_id_of(hash);
        assert(h@ != hash@);
        assert(after.statements[h@] == db.statements[h@]);
        assert(live[h] == entries[h]);
        assert(row_mirrors(entries, parse_stored(db.statements[h@]), h));
    }
}

/// Round trip: where the statements column has a record for each live
/// statement and no other, and each record holds its statement, rebuilding
/// the store from the records of the column, in whatever order `keys` they
/// are read, gives the same live statements with the same records.
pub proof fn law_round_trip(
    db: Db,
    entries: Map<crate::keys::Hash, Entry>,
    keys: Seq<crate::keys::Hash>,
)
    requires
        records_mirror(db, entries),
        exclusive(entries),
        keys.no_duplicates(),
        forall|h: crate::keys::Hash| #[trigger] keys.contains(h) <==> entries.contains_key(h),
    ensures
        ({
            let rows = Seq::new(keys.len(), |i: int| parse_stored(db.statements[keys[i]@]));
            let empty = State { entries: Map::empty(), expired: Map::empty() };
            let loaded = load_all(empty, rows);
            &&& loaded.entries == entries
            &&& loaded.expired == Map::<crate::keys::Hash, u64>::empty()
        }),
{
    let rows = Seq::new(keys.len(), |i: int| parse_stored(db.statements[keys[i]@]));
    assert forall|i: int| 0 <= i < rows.len() implies row_hash(#[trigger] rows[i]) == Some(
        keys[i],
    ) && row_mirrors(entries, rows[i], keys[i]) by {
        assert(keys.contains(keys[i]));
        assert(entries.contains_key(keys[i]));
    }
    assert forall|h: crate::keys::Hash| #[trigger]
        entries.contains_key(h) implies crate::laws::some_row_holds(rows, h) by {
        assert(keys.contains(h));
        let i = choose|i: int| 0 <= i < keys.len() && keys[i] == h;
        assert(row_hash(rows[i]) == Some(h));
    }
    assert(rows_mirror(entries, rows));
    law_reload(entries, rows);
}

} // verus!
