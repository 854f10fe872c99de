//! The primary store: one row for each conversation, keyed by its
//! identifier.

use crate::models::{ConversationSummary, ConversationSummaryView};
use crate::stable_sort::{key_fn, sort_stable, stable_sort, SortKey};
use crate::table::{has_key, upsert_rows, value_of, Table};
use crate::text::chars_of;
use vstd::prelude::*;

verus! {

/// What is stored of a conversation when its file is processed.
#[derive(Debug, Clone, PartialEq, Eq)]
pub struct ConversationRecord {
    pub id: String,
    pub project_path: String,
    pub project_name: String,
    pub start_time: String,
    pub last_time: String,
    pub preview: String,
    pub message_count: usize,
    pub total_input_tokens: i64,
    pub total_output_tokens: i64,
    pub file_path: String,
    pub file_modified_at: String,
}

/// Mathematical model of a [`ConversationRecord`].
pub struct ConversationRecordView {
    pub id: Seq<char>,
    pub project_path: Seq<char>,
    pub project_name: Seq<char>,
    pub start_time: Seq<char>,
    pub last_time: Seq<char>,
    pub preview: Seq<char>,
    pub message_count: usize,
    pub total_input_tokens: i64,
    pub total_output_tokens: i64,
    pub file_path: Seq<char>,
    pub file_modified_at: Seq<char>,
}

impl DeepView for ConversationRecord {
    type V = ConversationRecordView;

    open spec fn deep_view(&self) -> ConversationRecordView {
        ConversationRecordView {
            id: self.id@,
            project_path: self.project_path@,
            project_name: self.project_name@,
            start_time: self.start_time@,
            last_time: self.last_time@,
            preview: self.preview@,
            message_count: self.message_count,
            total_input_tokens: self.total_input_tokens,
            total_output_tokens: self.total_output_tokens,
            file_path: self.file_path@,
            file_modified_at: self.file_modified_at@,
        }
    }
}

/// A row of the store: the record of a conversation and its bookmark.
#[derive(Debug, Clone, PartialEq, Eq)]
pub struct StoredConversation {
    pub record: ConversationRecord,
    pub bookmarked: bool,
}

/// Mathematical model of a [`StoredConversation`].
pub struct StoredConversationView {
    pub record: ConversationRecordView,
    pub bookmarked: bool,
}

impl DeepView for StoredConversation {
    type V = StoredConversationView;

    open spec fn deep_view(&self) -> StoredConversationView {
        StoredConversationView { record: self.record.deep_view(), bookmarked: self.bookmarked }
    }
}

/// The rows of a store: identifiers with what is stored under them.
pub type StoreRows = Seq<(Seq<char>, StoredConversationView)>;

/// The store after a record is written: the record takes the place of the
/// one with the same identifier, whose bookmark it keeps, or becomes a new
/// row without a bookmark.
pub open spec fn stored(rows: StoreRows, record: ConversationRecordView) -> StoreRows {
    upsert_rows(
        rows,
        record.id,
        StoredConversationView {
            record,
            bookmarked: match value_of(rows, record.id) {
                Some(row) => row.bookmarked,
                None => false,
            },
        },
    )
}

/// The store after the bookmark of a conversation is set; unchanged if it
/// has no such conversation.
pub open spec fn bookmark_set(rows: StoreRows, id: Seq<char>, bookmarked: bool) -> StoreRows {
    match value_of(rows, id) {
        Some(row) => upsert_rows(
            rows,
            id,
            StoredConversationView { record: row.record, bookmarked },
        ),
        None => rows,
    }
}

/// The largest message count that a summary shows.
pub open spec fn shown_count(count: usize) -> i32 {
    if count > i32::MAX {
        i32::MAX
    } else {
        count as i32
    }
}

/// The summary of a stored conversation.
pub open spec fn summary_of(row: StoredConversationView) -> ConversationSummaryView {
    ConversationSummaryView {
        id: row.record.id,
        project_name: row.record.project_name,
        start_time: row.record.start_time,
        last_time: row.record.last_time,
        preview: row.record.preview,
        message_count: shown_count(row.record.message_count),
        bookmarked: row.bookmarked,
    }
}

/// The summaries of the rows, in the order of the rows.
pub open spec fn row_summaries(rows: StoreRows) -> Seq<ConversationSummaryView> {
    Seq::new(rows.len(), |i: int| summary_of(rows[i].1))
}

impl SortKey for ConversationSummary {
    open spec fn key_of(v: ConversationSummaryView) -> Seq<char> {
        v.last_time
    }

    fn sort_key(&self) -> (key: Vec<char>) {
        chars_of(self.last_time.as_str())
    }
}

/// The summaries of all rows, the conversation with the latest activity
/// first; conversations with the same last timestamp keep the order of
/// their rows.
pub open spec fn latest_first(rows: StoreRows) -> Seq<ConversationSummaryView> {
    stable_sort(row_summaries(rows), key_fn::<ConversationSummary>(), false)
}

/// The primary store of conversations.
pub struct ConversationStore {
    rows: Table<StoredConversation>,
}

fn copy_record(record: &ConversationRecord) -> (copy: ConversationRecord)
    ensures
        copy.deep_view() == record.deep_view(),
{
    ConversationRecord {
        id: record.id.clone(),
        project_path: record.project_path.clone(),
        project_name: record.project_name.clone(),
        start_time: record.start_time.clone(),
        last_time: record.last_time.clone(),
        preview: record.preview.clone(),
        message_count: record.message_count,
        total_input_tokens: record.total_input_tokens,
        total_output_tokens: record.total_output_tokens,
        file_path: record.file_path.clone(),
        file_modified_at: record.file_modified_at.clone(),
    }
}

fn summarize(row: &StoredConversation) -> (summary: ConversationSummary)
    ensures
        summary.deep_view() == summary_of(row.deep_view()),
{
    let count: i32 = if row.record.message_count > 2147483647 {
        2147483647
    } else {
        row.record.message_count as i32
    };
    ConversationSummary {
        id: row.record.id.clone(),
        project_name: row.record.project_name.clone(),
        start_time: row.record.start_time.clone(),
        last_time: row.record.last_time.clone(),
        preview: row.record.preview.clone(),
        message_count: count,
        bookmarked: row.bookmarked,
    }
}

impl ConversationStore {
    /// The rows of the store, in the order in which the identifiers were
    /// first stored.
    pub closed spec fn view(&self) -> StoreRows {
        self.rows@
    }

    /// A store without rows.
    pub fn new() -> (store: Self)
        ensures
            store@ == StoreRows::empty(),
    {
        ConversationStore { rows: Table::new() }
    }

    /// Recalls that no identifier has two rows. Does nothing when run.
    pub fn rows_are_distinct(&self)
        ensures
            crate::table::distinct_keys(self@),
    {
        self.rows.keys_are_distinct();
    }

    /// Number of conversations.
    pub fn len(&self) -> (n: usize)
        ensures
            n == self@.len(),
    {
        self.rows.len()
    }

    /// Whether a conversation is stored under `id`.
    pub fn contains(&self, id: &str) -> (found: bool)
        ensures
            found == has_key(self@, id@),
    {
        self.rows.contains_key(id)
    }

    /// The row stored under `id`.
    pub fn get(&self, id: &str) -> (row: Option<&StoredConversation>)
        ensures
            row.deep_view() == value_of(self@, id@),
    {
        self.rows.get(id)
    }

    /// The row at position `at`.
    pub fn row_at(&self, at: usize) -> (row: &StoredConversation)
        requires
            at < self@.len(),
        ensures
            row.deep_view() == self@[at as int].1,
    {
        self.rows.value_at(at)
    }

    /// The identifier of the row at position `at`.
    pub fn id_at(&self, at: usize) -> (id: &Vec<char>)
        requires
            at < self@.len(),
        ensures
            id@ == self@[at as int].0,
    {
        self.rows.key_at(at)
    }

    /// Writes a record: it replaces the row with the same identifier,
    /// keeping its bookmark, or becomes a new row.
    pub fn upsert(&mut self, record: ConversationRecord)
        ensures
            final(self)@ == stored(old(self)@, record.deep_view()),
    {
        let bookmarked = match self.rows.get(record.id.as_str()) {
            Some(row) => row.bookmarked,
            None => false,
        };
        let id = record.id.clone();
        self.rows.upsert(id.as_str(), StoredConversation { record, bookmarked });
    }

    /// Sets the bookmark of the conversation stored under `id`; tells
    /// whether there is such a conversation.
    pub fn set_bookmarked(&mut self, id: &str, bookmarked: bool) -> (found: bool)
        ensures
            final(self)@ == bookmark_set(old(self)@, id@, bookmarked),
            found == has_key(old(self)@, id@),
    {
        let record = match self.rows.get(id) {
            Some(row) => copy_record(&row.record),
            None => {
                return false;
            },
        };
        self.rows.upsert(id, StoredConversation { record, bookmarked });
        true
    }

    /// The summaries of all conversations, latest activity first.
    pub fn summaries(&self) -> (list: Vec<ConversationSummary>)
        ensures
            list.deep_view() == latest_first(self@),
    {
        let mut list: Vec<ConversationSummary> = Vec::new();
        let count = self.rows.len();
        let mut i: usize = 0;
        while i < count
            invariant
                i <= count,
                count == self@.len(),
                list.len() == i,
                forall|j: int|
                    0 <= j < i ==> (#[trigger] list@[j]).deep_view() == summary_of(self@[j].1),
            decreases count - i,
        {
            list.push(summarize(self.rows.value_at(i)));
            i += 1;
        }
        assert(list.deep_view() =~= row_summaries(self@));
        sort_stable(&mut list, false);
        list
    }
}

} // verus!
