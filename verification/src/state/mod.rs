//! The application state: the tables and the read cache of conversation
//! summaries.

use crate::db::metadata::{Ledger, LedgerRows};
use crate::db::sqlite::DbError;
use crate::db::store::{latest_first, ConversationStore, StoreRows};
use crate::models::{ConversationSummary, ConversationSummaryView};
use crate::search::index::{IndexRows, SearchIndex};
use vstd::prelude::*;

verus! {

/// The tables of the application.
pub struct Database {
    /// The primary store of conversations.
    pub conversations: ConversationStore,
    /// The search index over the conversations.
    pub search_index: SearchIndex,
    /// The ledger of processed files.
    pub file_metadata: Ledger,
}

/// Mathematical model of a [`Database`].
pub struct DatabaseView {
    pub conversations: StoreRows,
    pub search_index: IndexRows,
    pub file_metadata: LedgerRows,
}

impl Database {
    /// The rows of the three tables.
    pub open spec fn view(&self) -> DatabaseView {
        DatabaseView {
            conversations: self.conversations@,
            search_index: self.search_index@,
            file_metadata: self.file_metadata@,
        }
    }

    /// Empty tables.
    pub fn new() -> (db: Self)
        ensures
            db@.conversations.len() == 0,
            db@.search_index.len() == 0,
            db@.file_metadata.len() == 0,
    {
        Database {
            conversations: ConversationStore::new(),
            search_index: SearchIndex::new(),
            file_metadata: Ledger::new(),
        }
    }
}

/// The tables together with the cache of conversation summaries. The cache
/// is a projection of the store at one point in time: it is replaced as a
/// whole and never changed entry by entry.
pub struct AppState {
    db: Database,
    cache: Vec<ConversationSummary>,
}

fn copy_summary(summary: &ConversationSummary) -> (copy: ConversationSummary)
    ensures
        copy.deep_view() == summary.deep_view(),
{
    ConversationSummary {
        id: summary.id.clone(),
        project_name: summary.project_name.clone(),
        start_time: summary.start_time.clone(),
        last_time: summary.last_time.clone(),
        preview: summary.preview.clone(),
        message_count: summary.message_count,
        bookmarked: summary.bookmarked,
    }
}

impl AppState {
    /// The cached summaries.
    pub closed spec fn cached(&self) -> Seq<ConversationSummaryView> {
        self.cache.deep_view()
    }

    /// The tables.
    pub closed spec fn tables(&self) -> Database {
        self.db
    }

    /// A state with empty tables and an empty cache.
    pub fn new() -> (state: Self)
        ensures
            state.cached() == Seq::<ConversationSummaryView>::empty(),
            state.tables()@.conversations.len() == 0,
            state.tables()@.search_index.len() == 0,
            state.tables()@.file_metadata.len() == 0,
    {
        AppState::with_database(Database::new())
    }

    /// A state over the given tables, with an empty cache.
    pub fn with_database(db: Database) -> (state: Self)
        ensures
            state.tables() == db,
            state.cached() == Seq::<ConversationSummaryView>::empty(),
    {
        let state = AppState { db, cache: Vec::new() };
        assert(state.cache.deep_view() =~= Seq::empty());
        state
    }

    /// The tables.
    pub fn db(&self) -> (db: &Database)
        ensures
            *db == self.tables(),
    {
        &self.db
    }

    /// The tables, for writing. The cache is not touched.
    pub fn db_mut(&mut self) -> (db: &mut Database)
        ensures
            *db == old(self).tables(),
            final(self).tables() == *final(db),
            final(self).cached() == old(self).cached(),
    {
        &mut self.db
    }

    /// A copy of the cached summaries.
    pub fn get_cached_conversations(&self) -> (summaries: Vec<ConversationSummary>)
        ensures
            summaries.deep_view() == self.cached(),
    {
        let mut summaries: Vec<ConversationSummary> = Vec::new();
        let mut i: usize = 0;
        while i < self.cache.len()
            invariant
                i <= self.cache.len(),
                summaries.len() == i,
                forall|j: int|
                    0 <= j < i ==> (#[trigger] summaries@[j]).deep_view()
                        == self.cache@[j].deep_view(),
            decreases self.cache.len() - i,
        {
            summaries.push(copy_summary(&self.cache[i]));
            i += 1;
        }
        assert(summaries.deep_view() =~= self.cache.deep_view());
        summaries
    }

    /// Replaces the cache.
    pub fn set_cached_conversations(&mut self, conversations: Vec<ConversationSummary>)
        ensures
            final(self).cached() == conversations.deep_view(),
            final(self).tables() == old(self).tables(),
    {
        self.cache = conversations;
    }

    /// Replaces the cache by the summaries of the store, latest activity
    /// first.
    pub fn refresh_conversations_cache(&mut self) -> (result: Result<(), DbError>)
        ensures
            result is Ok,
            final(self).cached() == latest_first(old(self).tables()@.conversations),
            final(self).tables() == old(self).tables(),
    {
        let summaries = self.db.conversations.summaries();
        self.cache = summaries;
        Ok(())
    }

    /// Empties the cache.
    pub fn clear_cache(&mut self)
        ensures
            final(self).cached() == Seq::<ConversationSummaryView>::empty(),
            final(self).tables() == old(self).tables(),
    {
        self.cache = Vec::new();
        assert(self.cache.deep_view() =~= Seq::empty());
    }

    /// Number of cached summaries.
    pub fn cache_size(&self) -> (size: usize)
        ensures
            size == self.cached().len(),
    {
        self.cache.len()
    }

    /// Whether the cache holds no summary.
    pub fn is_cache_empty(&self) -> (empty: bool)
        ensures
            empty == (self.cached().len() == 0),
    {
        self.cache.len() == 0
    }
}

} // verus!
