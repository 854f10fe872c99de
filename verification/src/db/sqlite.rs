//! The persisted store: its tables and its faults.

use vstd::prelude::*;

verus! {

/// The table of conversations, keyed by identifier, with its indexes.
pub const CONVERSATIONS_SCHEMA: &'static str =
    "CREATE TABLE IF NOT EXISTS conversations (id TEXT PRIMARY KEY NOT NULL, project_path \
     TEXT NOT NULL, project_name TEXT NOT NULL, start_time TEXT NOT NULL, last_time TEXT \
     NOT NULL, preview TEXT NOT NULL DEFAULT '', message_count INTEGER NOT NULL DEFAULT \
     0, total_input_tokens INTEGER NOT NULL DEFAULT 0, total_output_tokens INTEGER NOT \
     NULL DEFAULT 0, file_path TEXT NOT NULL, file_modified_at TEXT NOT NULL); CREATE \
     INDEX IF NOT EXISTS idx_conversations_project_name ON conversations(project_name); \
     CREATE INDEX IF NOT EXISTS idx_conversations_start_time ON \
     conversations(start_time); CREATE INDEX IF NOT EXISTS idx_conversations_last_time ON \
     conversations(last_time); CREATE INDEX IF NOT EXISTS idx_conversations_file_path ON \
     conversations(file_path);";

/// The ledger of processed files, keyed by path.
pub const FILE_METADATA_SCHEMA: &'static str =
    "CREATE TABLE IF NOT EXISTS file_metadata (file_path TEXT PRIMARY KEY NOT NULL, \
     modified_at TEXT NOT NULL, parsed_at TEXT NOT NULL);";

/// The full-text index, keyed by the row of the conversation; it keeps no
/// copy of the text.
pub const SEARCH_INDEX_SCHEMA: &'static str =
    "CREATE VIRTUAL TABLE IF NOT EXISTS conversations_fts USING fts5(content, \
     project_name, content='', contentless_delete=1);";

/// The bookmarks, one for each bookmarked conversation.
pub const BOOKMARKS_SCHEMA: &'static str =
    "CREATE TABLE IF NOT EXISTS bookmarks (conversation_id TEXT PRIMARY KEY NOT NULL, \
     created_at TEXT NOT NULL, FOREIGN KEY (conversation_id) REFERENCES conversations(id) \
     ON DELETE CASCADE); CREATE INDEX IF NOT EXISTS idx_bookmarks_conversation_id ON \
     bookmarks(conversation_id);";

/// The tags of the conversations.
pub const TAGS_SCHEMA: &'static str =
    "CREATE TABLE IF NOT EXISTS conversation_tags (conversation_id TEXT NOT NULL, tag \
     TEXT NOT NULL, created_at TEXT NOT NULL, PRIMARY KEY (conversation_id, tag), FOREIGN \
     KEY (conversation_id) REFERENCES conversations(id) ON DELETE CASCADE); CREATE INDEX \
     IF NOT EXISTS idx_conversation_tags_conversation_id ON \
     conversation_tags(conversation_id); CREATE INDEX IF NOT EXISTS \
     idx_conversation_tags_tag ON conversation_tags(tag);";

/// What went wrong in the store.
#[derive(Debug, Clone, PartialEq, Eq)]
pub enum DbError {
    /// The directory for application data is unknown.
    AppDataNotFound,
    /// The store rejected an operation; the text says why.
    Sqlite(String),
    /// The store is locked; the text says by what.
    Locked(String),
    /// The file of the store could not be read or written.
    Io(String),
}

/// Mathematical model of a [`DbError`].
pub enum DbErrorView {
    AppDataNotFound,
    Sqlite(Seq<char>),
    Locked(Seq<char>),
    Io(Seq<char>),
}

impl DeepView for DbError {
    type V = DbErrorView;

    open spec fn deep_view(&self) -> DbErrorView {
        match self {
            DbError::AppDataNotFound => DbErrorView::AppDataNotFound,
            DbError::Sqlite(text) => DbErrorView::Sqlite(text@),
            DbError::Locked(text) => DbErrorView::Locked(text@),
            DbError::Io(text) => DbErrorView::Io(text@),
        }
    }
}

/// The fault of a lookup that finds no row.
pub open spec fn no_rows() -> DbErrorView {
    DbErrorView::Sqlite("Query returned no rows"@)
}

/// The fault of a lookup that finds no row.
pub fn no_rows_error() -> (fault: DbError)
    ensures
        fault.deep_view() == no_rows(),
{
    DbError::Sqlite("Query returned no rows".to_owned())
}

} // verus!
