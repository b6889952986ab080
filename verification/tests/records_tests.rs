use agent_memory_rs::models::ModelType;
use agent_memory_rs::records::{
    episode_vector_key, is_empty_vec, is_zero, join_path, needs_schema_row, LearnResponse, MemoryStats,
    WorkspaceManager, SCHEMA_VERSION,
};

#[test]
fn stats_from_counts() {
    let s = MemoryStats::from_counts(3, 1, 7);
    assert_eq!(s, MemoryStats { active_episodes: 3, archived_episodes: 1, knowledge_count: 7 });
}

#[test]
fn learn_response_reports_success() {
    let r = LearnResponse::success(42);
    assert_eq!(r.memory_id, 42);
    assert_eq!(r.status, "success");
}

#[test]
fn serialization_skip_predicates() {
    assert!(is_zero(&0));
    assert!(!is_zero(&-1));
    assert!(is_empty_vec(&[]));
    assert!(!is_empty_vec(&[3]));
    let v: Vec<i64> = vec![];
    assert!(is_empty_vec(&v));
}

#[test]
fn paths_join_like_pathbuf() {
    for (base, name) in [("/tmp/ws", "a"), ("/tmp/ws/", "a"), ("", "a"), ("/tmp", "/abs"), ("rel", "b/c"), ("/", "x")] {
        let expected = std::path::Path::new(base).join(name);
        assert_eq!(join_path(base, name), expected.to_str().unwrap(), "{:?} + {:?}", base, name);
    }
}

#[test]
fn workspace_paths_live_under_the_base() {
    let m = WorkspaceManager::with_base_dir("/home/u/.memory-rs/workspaces".to_string(), ModelType::MiniLM);
    assert_eq!(m.workspace_path("test-ws"), "/home/u/.memory-rs/workspaces/test-ws");
    assert_eq!(m.base_dir(), "/home/u/.memory-rs/workspaces");
    assert_eq!(m.model_type(), ModelType::MiniLM);
}

#[test]
fn episode_embedding_keys_are_negated_ids() {
    assert_eq!(episode_vector_key(7), -7);
    assert_eq!(episode_vector_key(1), -1);
    assert!(episode_vector_key(i64::MAX) < 0);
}

#[test]
fn schema_row_needed_below_current_version() {
    assert_eq!(SCHEMA_VERSION, 1);
    assert!(needs_schema_row(0));
    assert!(needs_schema_row(-5));
    assert!(!needs_schema_row(1));
    assert!(!needs_schema_row(2));
}
