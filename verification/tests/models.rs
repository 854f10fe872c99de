use chat_history::commands::PaginationParams;
use chat_history::models::{ConversationFilters, TokenCount};
use chat_history::parser::jsonl::RawTokenCount;

#[test]
fn test_filters_default() {
    let filters = ConversationFilters::default();
    assert!(filters.project.is_none());
    assert!(filters.date_start.is_none());
    assert!(filters.date_end.is_none());
}

#[test]
fn filters_default_has_no_bookmark_or_tag_filter() {
    let filters = ConversationFilters::default();
    assert!(filters.bookmarked.is_none());
    assert!(filters.tags.is_none());
}

#[test]
fn token_counts_default_to_zero() {
    assert_eq!(TokenCount::default(), TokenCount { input: 0, output: 0 });
    assert_eq!(RawTokenCount::default(), RawTokenCount { input: 0, output: 0 });
}

#[test]
fn pagination_defaults_to_one_hundred_from_the_start() {
    assert_eq!(PaginationParams::default(), PaginationParams { limit: 100, offset: 0 });
}
