//! Maintenance of the full-text search index.

pub mod index;
pub mod laws;

pub use index::{
    build_search_index, clear_search_index, extract_searchable_content, get_index_count,
    index_conversation, index_conversation_content, rebuild_search_index, remove_from_index,
    SearchEntry, SearchIndex,
};
