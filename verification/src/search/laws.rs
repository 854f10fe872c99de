//! Laws of the search index: it never runs ahead of the store, and no
//! conversation has two entries.

use crate::db::store::{stored, ConversationRecordView, StoreRows};
use crate::search::index::{indexed, rebuilt, unindexed, within_store, IndexRows, SearchEntryView};
use crate::table::{
    distinct_keys, has_key, lemma_position_from, lemma_remove, lemma_upsert, position_of,
    remove_rows, value_of,
};
use vstd::prelude::*;

verus! {

/// One change to the store or to the index.
pub enum CatalogOp {
    /// A record is written to the store.
    Store(ConversationRecordView),
    /// A conversation is indexed.
    Index { id: Seq<char>, entry: SearchEntryView },
    /// A conversation is taken out of the index.
    Remove { id: Seq<char> },
    /// The index is rebuilt from the store.
    Rebuild,
    /// The index is cleared.
    Clear,
}

/// The store and the index after one change.
pub open spec fn applied(store: StoreRows, index: IndexRows, op: CatalogOp) -> (
    StoreRows,
    IndexRows,
) {
    match op {
        CatalogOp::Store(record) => (stored(store, record), index),
        CatalogOp::Index { id, entry } => (store, indexed(store, index, id, entry)),
        CatalogOp::Remove { id } => (store, unindexed(store, index, id)),
        CatalogOp::Rebuild => (store, rebuilt(store)),
        CatalogOp::Clear => (store, Seq::empty()),
    }
}

/// The store and the index after a sequence of changes.
pub open spec fn applied_all(store: StoreRows, index: IndexRows, ops: Seq<CatalogOp>) -> (
    StoreRows,
    IndexRows,
)
    decreases ops.len(),
{
    if ops.len() == 0 {
        (store, index)
    } else {
        let before = applied_all(store, index, ops.drop_last());
        applied(before.0, before.1, ops.last())
    }
}

/// Every row of a table is found under its own key.
pub proof fn lemma_row_has_key<W>(rows: Seq<(Seq<char>, W)>, i: int)
    requires
        0 <= i < rows.len(),
    ensures
        has_key(rows, rows[i].0),
{
    lemma_position_from(rows, rows[i].0, 0);
}

/// Every row that is left after a removal was there before.
pub proof fn lemma_removed_rows_were_there<W>(rows: Seq<(Seq<char>, W)>, key: Seq<char>, i: int)
    requires
        0 <= i < remove_rows(rows, key).len(),
    ensures
        exists|j: int| 0 <= j < rows.len() && rows[j] == remove_rows(rows, key)[i],
{
    lemma_position_from(rows, key, 0);
    match position_of(rows, key) {
        Some(at) => {
            if i < at {
                assert(rows[i] == remove_rows(rows, key)[i]);
            } else {
                assert(rows[i + 1] == remove_rows(rows, key)[i]);
            }
        },
        None => {
            assert(rows[i] == remove_rows(rows, key)[i]);
        },
    }
}

/// One change never puts the index ahead of the store: if every entry
/// belonged to a stored conversation before, every entry does after.
pub proof fn lemma_change_keeps_index_within_store(
    store: StoreRows,
    index: IndexRows,
    op: CatalogOp,
)
    requires
        within_store(index, store),
    ensures
        within_store(applied(store, index, op).1, applied(store, index, op).0),
{
    let after = applied(store, index, op);
    match op {
        CatalogOp::Store(record) => {
            assert forall|i: int| 0 <= i < index.len() implies has_key(
                after.0,
                (#[trigger] index[i]).0,
            ) by {
                let row = crate::db::store::StoredConversationView {
                    record,
                    bookmarked: match value_of(store, record.id) {
                        Some(old) => old.bookmarked,
                        None => false,
                    },
                };
                lemma_upsert(store, record.id, row, index[i].0);
                assert(has_key(store, index[i].0));
            }
        },
        CatalogOp::Index { id, entry } => {
            if has_key(store, id) {
                let rest = remove_rows(index, id);
                assert forall|i: int| 0 <= i < after.1.len() implies has_key(
                    store,
                    (#[trigger] after.1[i]).0,
                ) by {
                    if i < rest.len() {
                        lemma_removed_rows_were_there(index, id, i);
                        let j = choose|j: int| 0 <= j < index.len() && index[j] == rest[i];
                        assert(has_key(store, index[j].0));
                    }
                }
            }
        },
        CatalogOp::Remove { id } => {
            if has_key(store, id) {
                let rest = remove_rows(index, id);
                assert forall|i: int| 0 <= i < rest.len() implies has_key(
                    store,
                    (#[trigger] rest[i]).0,
                ) by {
                    lemma_removed_rows_were_there(index, id, i);
                    let j = choose|j: int| 0 <= j < index.len() && index[j] == rest[i];
                    assert(has_key(store, index[j].0));
                }
            }
        },
        CatalogOp::Rebuild => {
            assert forall|i: int| 0 <= i < after.1.len() implies has_key(
                store,
                (#[trigger] after.1[i]).0,
            ) by {
                lemma_row_has_key(store, i);
            }
        },
        CatalogOp::Clear => {},
    }
}

/// After any sequence of store writes, index updates, removals, rebuilds
/// and clears, every entry of the index belongs to a conversation of the
/// store, provided that this held at the start (as it does for an empty
/// index).
pub proof fn lemma_index_stays_within_store(store: StoreRows, index: IndexRows, ops: Seq<CatalogOp>)
    requires
        within_store(index, store),
    ensures
        within_store(applied_all(store, index, ops).1, applied_all(store, index, ops).0),
    decreases ops.len(),
{
    if ops.len() > 0 {
        lemma_index_stays_within_store(store, index, ops.drop_last());
        let before = applied_all(store, index, ops.drop_last());
        lemma_change_keeps_index_within_store(before.0, before.1, ops.last());
    }
}

/// One change never gives a conversation a second entry, nor an identifier
/// a second row.
pub proof fn lemma_change_keeps_entries_distinct(store: StoreRows, index: IndexRows, op: CatalogOp)
    requires
        distinct_keys(store),
        distinct_keys(index),
    ensures
        distinct_keys(applied(store, index, op).0),
        distinct_keys(applied(store, index, op).1),
{
    let after = applied(store, index, op);
    match op {
        CatalogOp::Store(record) => {
            let row = crate::db::store::StoredConversationView {
                record,
                bookmarked: match value_of(store, record.id) {
                    Some(old) => old.bookmarked,
                    None => false,
                },
            };
            lemma_upsert(store, record.id, row, record.id);
        },
        CatalogOp::Index { id, entry } => {
            if has_key(store, id) {
                lemma_remove(index, id, id);
                let rest = remove_rows(index, id);
                lemma_position_from(rest, id, 0);
                assert forall|i: int, j: int| 0 <= i < j < after.1.len() implies (
                #[trigger] after.1[i]).0 != (#[trigger] after.1[j]).0 by {
                    if j < rest.len() {
                        assert(after.1[i] == rest[i] && after.1[j] == rest[j]);
                    } else {
                        assert(after.1[i] == rest[i]);
                    }
                }
            }
        },
        CatalogOp::Remove { id } => {
            lemma_remove(index, id, id);
        },
        CatalogOp::Rebuild => {
            assert forall|i: int, j: int| 0 <= i < j < after.1.len() implies (
            #[trigger] after.1[i]).0 != (#[trigger] after.1[j]).0 by {
                assert(store[i].0 != store[j].0);
            }
        },
        CatalogOp::Clear => {},
    }
}

/// After any sequence of changes every conversation has at most one entry.
pub proof fn lemma_entries_stay_distinct(store: StoreRows, index: IndexRows, ops: Seq<CatalogOp>)
    requires
        distinct_keys(store),
        distinct_keys(index),
    ensures
        distinct_keys(applied_all(store, index, ops).0),
        distinct_keys(applied_all(store, index, ops).1),
    decreases ops.len(),
{
    if ops.len() > 0 {
        lemma_entries_stay_distinct(store, index, ops.drop_last());
        let before = applied_all(store, index, ops.drop_last());
        lemma_change_keeps_entries_distinct(before.0, before.1, ops.last());
    }
}

} // verus!
