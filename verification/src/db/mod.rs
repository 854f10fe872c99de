//! In-memory models of the persisted tables: the change-detection ledger and
//! the primary store of conversations.

pub mod metadata;
pub mod sqlite;
pub mod store;

pub use metadata::{
    clear_all_metadata, get_all_file_metadata, get_modified_files, is_metadata_empty,
    remove_stale_metadata, update_file_metadata, update_file_metadata_batch, DiscoveredFile,
    FileMetadata, Ledger, ModifiedFile,
};
pub use store::{ConversationRecord, ConversationStore, StoredConversation};
pub use sqlite::DbError;
