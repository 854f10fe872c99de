//! Coordination of live file events: debouncing and batch processing.

pub mod debounce;
pub mod fs;

pub use debounce::{
    Debouncer, EventPath, FileEvent, FileEventKind, WatcherState, DEBOUNCE_MILLIS,
};
pub use fs::{
    files_to_process, generate_preview, process_changed_files, process_single_file, BatchFile,
    ConversationsUpdatedPayload, WatcherError,
};
