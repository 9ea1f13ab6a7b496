//! What holds of the store as a whole: laws that relate several of its
//! operations, stated over the plain values that the operations speak of.

use vstd::prelude::*;
use crate::codec::{id_of, is_marker, lemma_id_exists, marker_hash};
use crate::index::{channel_conflict, entry_of, Entry};
use crate::statement::StatementView;
use crate::store::{
    due, kept, load_all, load_marker, load_markers, load_parsed, State, Store, SubmitStep,
};
use crate::types::{StatementSource, SubmitResult};

verus! {

/// Idempotent resubmission: a live statement that comes in again from a
/// source that may not resubmit is known, and the first step of a
/// submission changes nothing, as it only reads the store.
pub proof fn law_known_resubmission(store: Store, statement: StatementView, source: StatementSource)
    requires
        store.wf(),
        store.index.entries().contains_key(statement.hash),
        !source.resubmits(),
    ensures
        store.first_step(statement, source) == SubmitStep::Done(SubmitResult::Known),
{
}

/// A statement that has expired and is not live is reported as such to a
/// source that may not resubmit.
pub proof fn law_known_expired(store: Store, statement: StatementView, source: StatementSource)
    requires
        store.wf(),
        !store.index.entries().contains_key(statement.hash),
        store.index.expired().contains_key(statement.hash),
        !source.resubmits(),
    ensures
        store.first_step(statement, source) == SubmitStep::Done(SubmitResult::KnownExpired),
{
}

/// Expiry and purge: a statement that expired at `now` stays among the
/// expired statements as long as `PURGE_AFTER` seconds have not passed, and
/// is forgotten by the first maintenance after that.
pub proof fn law_expiry_lifecycle(
    expired: Map<crate::keys::Hash, u64>,
    hash: crate::keys::Hash,
    now: u64,
    later: u64,
)
    ensures
        !due(now, later) ==> kept(expired.insert(hash, now), later).contains_key(hash) && kept(
            expired.insert(hash, now),
            later,
        )[hash] == now,
        due(now, later) ==> !kept(expired.insert(hash, now), later).contains_key(hash),
        due(now, later) <==> now + crate::index::PURGE_AFTER <= later,
{
}

/// The hash of the statement that the record `row` holds, if it holds one
/// that can be loaded.
pub open spec fn row_hash(row: Option<(u32, StatementView)>) -> Option<crate::keys::Hash> {
    match row {
        Some((_, s)) => if s.account_id.is_some() {
            Some(s.hash)
        } else {
            None
        },
        None => None,
    }
}

/// Whether one of the records holds the statement `h`.
pub open spec fn some_row_holds(rows: Seq<Option<(u32, StatementView)>>, h: crate::keys::Hash) -> bool {
    exists|i: int| 0 <= i < rows.len() && row_hash(#[trigger] rows[i]) == Some(h)
}

/// Whether one of the records is the expiry marker of the statement `h`.
pub open spec fn some_marker_names(rows: Seq<Vec<u8>>, h: crate::keys::Hash) -> bool {
    exists|i: int|
        0 <= i < rows.len() && is_marker((#[trigger] rows[i])@) && marker_hash(rows[i]@) == h@
}

/// Loading makes no statement live that no record holds.
pub proof fn law_load_only_rows(st: State, rows: Seq<Option<(u32, StatementView)>>, h: crate::keys::Hash)
    requires
        load_all(st, rows).entries.contains_key(h),
    ensures
        st.entries.contains_key(h) || some_row_holds(rows, h),
    decreases rows.len(),
{
    if rows.len() > 0 {
        let before = load_all(st, rows.drop_last());
        if before.entries.contains_key(h) {
            law_load_only_rows(st, rows.drop_last(), h);
            if some_row_holds(rows.drop_last(), h) {
                let i = choose|i: int|
                    0 <= i < rows.drop_last().len() && row_hash(#[trigger] rows.drop_last()[i])
                        == Some(h);
                assert(row_hash(rows[i]) == Some(h));
            }
        } else {
            assert(row_hash(rows[rows.len() - 1]) == Some(h));
        }
    }
}

/// Loading statements adds no expired statement.
pub proof fn law_load_adds_no_expired(
    st: State,
    rows: Seq<Option<(u32, StatementView)>>,
    h: crate::keys::Hash,
)
    requires
        load_all(st, rows).expired.contains_key(h),
    ensures
        st.expired.contains_key(h),
    decreases rows.len(),
{
    if rows.len() > 0 {
        law_load_adds_no_expired(st, rows.drop_last(), h);
    }
}

/// Loading markers changes no live statement and adds no expired
/// statement that no marker names.
pub proof fn law_markers_only_rows(st: State, rows: Seq<Vec<u8>>, h: crate::keys::Hash)
    ensures
        load_markers(st, rows).entries == st.entries,
        load_markers(st, rows).expired.contains_key(h) ==> st.expired.contains_key(h)
            || some_marker_names(rows, h),
    decreases rows.len(),
{
    if rows.len() > 0 {
        let before = load_markers(st, rows.drop_last());
        law_markers_only_rows(st, rows.drop_last(), h);
        if load_markers(st, rows).expired.contains_key(h) {
            if before.expired.contains_key(h) {
                if some_marker_names(rows.drop_last(), h) {
                    let i = choose|i: int|
                        0 <= i < rows.drop_last().len() && is_marker(
                            (#[trigger] rows.drop_last()[i])@,
                        ) && marker_hash(rows.drop_last()[i]@) == h@;
                    assert(is_marker(rows[i]@) && marker_hash(rows[i]@) == h@);
                }
            } else {
                let last = rows[rows.len() - 1];
                assert(is_marker(last@));
                assert(id_of(marker_hash(last@)) == h);
                assert(id_of(marker_hash(last@))@ == marker_hash(last@)) by {
                    let bytes = marker_hash(last@);
                    assert(bytes.len() == 32);
                    lemma_id_exists(bytes);
                }
            }
        }
    }
}

/// No resurrection: a store that is rebuilt from records of which none
/// holds the statement `h`, and of which none is a marker of `h`, knows
/// nothing of `h`.
pub proof fn law_reload_forgets(
    rows: Seq<Option<(u32, StatementView)>>,
    markers: Seq<Vec<u8>>,
    h: crate::keys::Hash,
    now: u64,
)
    requires
        !some_row_holds(rows, h),
        !some_marker_names(markers, h),
    ensures
        ({
            let empty = State { entries: Map::empty(), expired: Map::empty() };
            let loaded = load_markers(load_all(empty, rows), markers);
            !loaded.entries.contains_key(h) && !kept(loaded.expired, now).contains_key(h)
        }),
{
    let empty = State {
        entries: Map::<crate::keys::Hash, Entry>::empty(),
        expired: Map::<crate::keys::Hash, u64>::empty(),
    };
    let first = load_all(empty, rows);
    law_markers_only_rows(first, markers, h);
    if first.entries.contains_key(h) {
        law_load_only_rows(empty, rows, h);
    }
    if first.expired.contains_key(h) {
        law_load_adds_no_expired(empty, rows, h);
    }
}

/// No two live statements of one account name the same channel.
pub open spec fn exclusive(entries: Map<crate::keys::Hash, Entry>) -> bool {
    forall|h1: crate::keys::Hash, h2: crate::keys::Hash|
        #![trigger entries.contains_key(h1), entries.contains_key(h2)]
        entries.contains_key(h1) && entries.contains_key(h2) && entries[h1].account
            == entries[h2].account && entries[h1].channel.is_some() && entries[h1].channel
            == entries[h2].channel ==> h1 == h2
}

/// Whether the record `row` holds the live statement `h` as the index
/// records it, global priority included.
pub open spec fn row_mirrors(
    entries: Map<crate::keys::Hash, Entry>,
    row: Option<(u32, StatementView)>,
    h: crate::keys::Hash,
) -> bool {
    match row {
        Some((gp, s)) => match s.account_id {
            Some(a) => {
                &&& s.hash == h
                &&& entries.contains_key(h)
                &&& entry_of(a, gp, s) == entries[h]
            },
            None => false,
        },
        None => false,
    }
}

/// Whether the records hold exactly the live statements, each in one
/// record.
pub open spec fn rows_mirror(
    entries: Map<crate::keys::Hash, Entry>,
    rows: Seq<Option<(u32, StatementView)>>,
) -> bool {
    &&& forall|i: int|
        0 <= i < rows.len() ==> row_hash(#[trigger] rows[i]).is_some() && row_mirrors(
            entries,
            rows[i],
            row_hash(rows[i]).unwrap(),
        )
    &&& forall|i: int, j: int|
        0 <= i < rows.len() && 0 <= j < rows.len() && i != j ==> row_hash(#[trigger] rows[i])
            != row_hash(#[trigger] rows[j])
    &&& forall|h: crate::keys::Hash| #[trigger]
        entries.contains_key(h) ==> some_row_holds(rows, h)
}

/// The record that a loaded row stands for.
pub open spec fn row_entry(row: Option<(u32, StatementView)>) -> Entry {
    entry_of(row.unwrap().1.account_id.unwrap(), row.unwrap().0, row.unwrap().1)
}

/// Loading the first `n` of records that mirror the live statements makes
/// live exactly the statements of those records.
proof fn lemma_reload_prefix(
    entries: Map<crate::keys::Hash, Entry>,
    rows: Seq<Option<(u32, StatementView)>>,
    n: int,
)
    requires
        exclusive(entries),
        rows_mirror(entries, rows),
        0 <= n <= rows.len(),
    ensures
        ({
            let empty = State { entries: Map::empty(), expired: Map::empty() };
            let loaded = load_all(empty, rows.subrange(0, n));
            &&& loaded.expired == Map::<crate::keys::Hash, u64>::empty()
            &&& forall|h: crate::keys::Hash| #[trigger]
                loaded.entries.contains_key(h) <==> some_row_holds(rows.subrange(0, n), h)
            &&& forall|i: int|
                0 <= i < n ==> loaded.entries[row_hash(#[trigger] rows[i]).unwrap()] == row_entry(
                    rows[i],
                )
        }),
    decreases n,
{
    let empty = State {
        entries: Map::<crate::keys::Hash, Entry>::empty(),
        expired: Map::<crate::keys::Hash, u64>::empty(),
    };
    let prefix = rows.subrange(0, n);
    if n == 0 {
        assert(load_all(empty, prefix) == empty);
    } else {
        lemma_reload_prefix(entries, rows, n - 1);
        let shorter = rows.subrange(0, n - 1);
        assert(prefix.drop_last() =~= shorter);
        let before = load_all(empty, shorter);
        let row = rows[n - 1];
        assert(prefix.last() == row);
        let s = row.unwrap().1;
        let e = row_entry(row);
        assert(row_hash(row).is_some() && row_mirrors(entries, row, row_hash(row).unwrap()));
        assert(!channel_conflict(before.entries, s.hash, e)) by {
            if channel_conflict(before.entries, s.hash, e) {
                let other = choose|other: crate::keys::Hash|
                    #[trigger] before.entries.contains_key(other) && other != s.hash
                        && e.channel.is_some() && before.entries[other].account == e.account
                        && before.entries[other].channel == e.channel;
                assert(some_row_holds(shorter, other));
                let i = choose|i: int|
                    0 <= i < shorter.len() && row_hash(#[trigger] shorter[i]) == Some(other);
                assert(shorter[i] == rows[i]);
                assert(row_hash(rows[i]).is_some() && row_mirrors(
                    entries,
                    rows[i],
                    row_hash(rows[i]).unwrap(),
                ));
                assert(before.entries[other] == row_entry(rows[i]));
                assert(entries.contains_key(other) && entries.contains_key(s.hash));
            }
        }
        let after = load_all(empty, prefix);
        assert(after == load_parsed(before, row));
        assert(after.expired =~= Map::<crate::keys::Hash, u64>::empty());
        assert forall|h: crate::keys::Hash| #[trigger]
            after.entries.contains_key(h) <==> some_row_holds(prefix, h) by {
            if after.entries.contains_key(h) {
                if h == s.hash {
                    assert(row_hash(prefix[n - 1]) == Some(h));
                } else {
                    assert(some_row_holds(shorter, h));
                    let i = choose|i: int|
                        0 <= i < shorter.len() && row_hash(#[trigger] shorter[i]) == Some(h);
                    assert(row_hash(prefix[i]) == Some(h));
                }
            }
            if some_row_holds(prefix, h) {
                let i = choose|i: int|
                    0 <= i < prefix.len() && row_hash(#[trigger] prefix[i]) == Some(h);
                if i < n - 1 {
                    assert(row_hash(shorter[i]) == Some(h));
                }
            }
        }
        assert forall|i: int| 0 <= i < n implies after.entries[row_hash(
            #[trigger] rows[i],
        ).unwrap()] == row_entry(rows[i]) by {
            if i < n - 1 {
                assert(row_hash(rows[i]) != row_hash(rows[n - 1]));
            }
        }
    }
}

/// Round trip: where the stored records hold exactly the live statements,
/// rebuilding the store from them gives the same live statements with the
/// same records, and none expired.
pub proof fn law_reload(entries: Map<crate::keys::Hash, Entry>, rows: Seq<Option<(u32, StatementView)>>)
    requires
        exclusive(entries),
        rows_mirror(entries, rows),
    ensures
        ({
            let empty = State { entries: Map::empty(), expired: Map::empty() };
            let loaded = load_all(empty, rows);
            &&& loaded.entries == entries
            &&& loaded.expired == Map::<crate::keys::Hash, u64>::empty()
        }),
{
    let empty = State {
        entries: Map::<crate::keys::Hash, Entry>::empty(),
        expired: Map::<crate::keys::Hash, u64>::empty(),
    };
    lemma_reload_prefix(entries, rows, rows.len() as int);
    assert(rows.subrange(0, rows.len() as int) =~= rows);
    let loaded = load_all(empty, rows);
    assert forall|h: crate::keys::Hash| loaded.entries.contains_key(h) <==> entries.contains_key(
        h,
    ) by {
        if loaded.entries.contains_key(h) {
            assert(some_row_holds(rows, h));
            let i = choose|i: int| 0 <= i < rows.len() && row_hash(#[trigger] rows[i]) == Some(h);
            assert(row_mirrors(entries, rows[i], row_hash(rows[i]).unwrap()));
        }
    }
    assert(loaded.entries.dom() =~= entries.dom());
    assert forall|h: crate::keys::Hash| loaded.entries.contains_key(h) implies loaded.entries[h]
        == entries[h] by {
        assert(some_row_holds(rows, h));
        let i = choose|i: int| 0 <= i < rows.len() && row_hash(#[trigger] rows[i]) == Some(h);
        assert(row_mirrors(entries, rows[i], row_hash(rows[i]).unwrap()));
        assert(loaded.entries[row_hash(rows[i]).unwrap()] == row_entry(rows[i]));
    }
    assert(loaded.entries =~= entries);
}

/// The live statements of a well-formed store are exclusive in their
/// channels.
pub proof fn law_store_exclusive(store: Store)
    requires
        store.wf(),
    ensures
        exclusive(store.index.entries()),
{
    let entries = store.index.entries();
    assert forall|h1: crate::keys::Hash, h2: crate::keys::Hash|
        #![trigger entries.contains_key(h1), entries.contains_key(h2)]
        entries.contains_key(h1) && entries.contains_key(h2) && entries[h1].account
            == entries[h2].account && entries[h1].channel.is_some() && entries[h1].channel
            == entries[h2].channel implies h1 == h2 by {
        store.index.law_channel_exclusive(h1, h2);
    }
}

} // verus!
