use chat_history::db::store::ConversationRecord;
use chat_history::models::ConversationSummary;
use chat_history::state::{AppState, Database};

fn setup_test_state() -> AppState {
    AppState::with_database(Database::new())
}

fn record(id: &str, project: &str, start: &str, last: &str, preview: &str, count: usize) -> ConversationRecord {
    ConversationRecord {
        id: id.to_string(),
        project_path: format!("/path/{}", project),
        project_name: project.to_string(),
        start_time: start.to_string(),
        last_time: last.to_string(),
        preview: preview.to_string(),
        message_count: count,
        total_input_tokens: 100,
        total_output_tokens: 200,
        file_path: "/test/file.jsonl".to_string(),
        file_modified_at: start.to_string(),
    }
}

#[test]
fn test_new_state_empty_cache() {
    let state = setup_test_state();
    assert!(state.is_cache_empty());
    assert_eq!(state.cache_size(), 0);
}

#[test]
fn test_set_and_get_cache() {
    let mut state = setup_test_state();

    let conversations = vec![
        ConversationSummary {
            id: "conv1".to_string(),
            project_name: "project-a".to_string(),
            start_time: "2025-01-01T00:00:00Z".to_string(),
            last_time: "2025-01-01T01:00:00Z".to_string(),
            preview: "Hello world".to_string(),
            message_count: 5,
            bookmarked: false,
        },
        ConversationSummary {
            id: "conv2".to_string(),
            project_name: "project-b".to_string(),
            start_time: "2025-01-02T00:00:00Z".to_string(),
            last_time: "2025-01-02T01:00:00Z".to_string(),
            preview: "Another conversation".to_string(),
            message_count: 10,
            bookmarked: true,
        },
    ];

    state.set_cached_conversations(conversations);

    assert_eq!(state.cache_size(), 2);
    assert!(!state.is_cache_empty());

    let cached = state.get_cached_conversations();
    assert_eq!(cached.len(), 2);
    assert_eq!(cached[0].id, "conv1");
    assert_eq!(cached[1].id, "conv2");
}

#[test]
fn test_clear_cache() {
    let mut state = setup_test_state();

    let conversations = vec![ConversationSummary {
        id: "conv1".to_string(),
        project_name: "project".to_string(),
        start_time: "2025-01-01T00:00:00Z".to_string(),
        last_time: "2025-01-01T01:00:00Z".to_string(),
        preview: "Test".to_string(),
        message_count: 1,
        bookmarked: false,
    }];

    state.set_cached_conversations(conversations);
    assert_eq!(state.cache_size(), 1);

    state.clear_cache();
    assert!(state.is_cache_empty());
}

#[test]
fn test_refresh_cache_empty_db() {
    let mut state = setup_test_state();

    // Refresh from empty database should succeed
    let result = state.refresh_conversations_cache();
    assert!(result.is_ok());
    assert!(state.is_cache_empty());
}

#[test]
fn test_refresh_cache_with_data() {
    let mut state = setup_test_state();

    // Insert test data directly into database
    state.db_mut().conversations.upsert(record(
        "conv1",
        "project-a",
        "2025-01-01T00:00:00Z",
        "2025-01-01T01:00:00Z",
        "Test preview",
        5,
    ));
    state.db_mut().conversations.upsert(record(
        "conv2",
        "project-b",
        "2025-01-02T00:00:00Z",
        "2025-01-02T01:00:00Z",
        "Another preview",
        10,
    ));

    // Refresh cache
    let result = state.refresh_conversations_cache();
    assert!(result.is_ok());

    assert_eq!(state.cache_size(), 2);

    // Cache should be sorted by last_time desc
    let cached = state.get_cached_conversations();
    assert_eq!(cached[0].id, "conv2"); // More recent
    assert_eq!(cached[1].id, "conv1");
    assert_eq!(cached[0].message_count, 10);
    assert_eq!(cached[0].preview, "Another preview");
    assert!(!cached[0].bookmarked);
}

#[test]
fn test_db_access() {
    let state = setup_test_state();
    let db = state.db();

    // Should be able to use the database
    assert_eq!(db.conversations.len(), 0);
}

#[test]
fn cache_is_a_snapshot_until_refreshed() {
    let mut state = setup_test_state();
    state.db_mut().conversations.upsert(record("a", "p", "t0", "t1", "one", 1));
    assert!(state.is_cache_empty());
    state.refresh_conversations_cache().unwrap();
    assert_eq!(state.cache_size(), 1);
    state.db_mut().conversations.upsert(record("b", "p", "t0", "t2", "two", 2));
    assert_eq!(state.cache_size(), 1);
    state.refresh_conversations_cache().unwrap();
    let ids: Vec<String> = state.get_cached_conversations().into_iter().map(|s| s.id).collect();
    assert_eq!(ids, vec!["b".to_string(), "a".to_string()]);
}

#[test]
fn summaries_with_equal_times_keep_row_order() {
    let mut state = setup_test_state();
    for id in ["x", "y", "z"] {
        state.db_mut().conversations.upsert(record(id, "p", "t0", "same", id, 1));
    }
    state.db_mut().conversations.upsert(record("w", "p", "t0", "t", "w", 1));
    state.refresh_conversations_cache().unwrap();
    let ids: Vec<String> = state.get_cached_conversations().into_iter().map(|s| s.id).collect();
    assert_eq!(ids, vec!["w", "x", "y", "z"]);
}

#[test]
fn huge_message_count_is_capped_in_the_summary() {
    let mut state = setup_test_state();
    state.db_mut().conversations.upsert(record("a", "p", "t0", "t1", "one", usize::MAX));
    state.refresh_conversations_cache().unwrap();
    assert_eq!(state.get_cached_conversations()[0].message_count, i32::MAX);
}
