//! Verified core of a conversation-history service: transcript parsing,
//! content-block extraction, change detection, search-index maintenance and
//! debounce coordination.

pub mod commands;
pub mod db;
pub mod json;
pub mod models;
pub mod parser;
pub mod pattern;
pub mod search;
pub mod stable_sort;
pub mod state;
pub mod table;
pub mod text;
pub mod watcher;
