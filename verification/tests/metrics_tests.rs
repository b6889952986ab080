use agent_memory_rs::metrics::{
    evidence_found_in_top_k, extract_dia_id, first_relevant_rank, is_session_key, turn_memory_text,
    turn_tags,
};

fn v(words: &[&str]) -> Vec<String> {
    words.iter().map(|s| s.to_string()).collect()
}

#[test]
fn dialog_ids() {
    assert_eq!(extract_dia_id("[D1:3] Speaker: text"), Some("D1:3".to_string()));
    assert_eq!(extract_dia_id("x [A] [D12:40] y ]"), Some("D12:40".to_string()));
    assert_eq!(extract_dia_id("[D1:3 no close"), None);
    assert_eq!(extract_dia_id("no id here"), None);
    assert_eq!(extract_dia_id("[D]"), Some("D".to_string()));
    assert_eq!(extract_dia_id("[d1:2]"), None);
    assert_eq!(extract_dia_id("é[D9:1]"), Some("D9:1".to_string()));
}

#[test]
fn recall_at_k() {
    let retrieved = v(&["D1:1", "D1:2", "D1:3"]);
    assert!(evidence_found_in_top_k(&retrieved, &v(&["D1:2"]), 2));
    assert!(!evidence_found_in_top_k(&retrieved, &v(&["D1:3"]), 2));
    assert!(evidence_found_in_top_k(&retrieved, &v(&["D1:3"]), 10));
    assert!(!evidence_found_in_top_k(&retrieved, &v(&[]), 10));
    assert!(!evidence_found_in_top_k(&retrieved, &v(&["D1:2"]), 0));
}

#[test]
fn reciprocal_rank() {
    let retrieved = v(&["D1:1", "D1:2", "D1:3"]);
    assert_eq!(first_relevant_rank(&retrieved, &v(&["D1:3", "D1:2"])), Some(2));
    assert_eq!(first_relevant_rank(&retrieved, &v(&["D1:1"])), Some(1));
    assert_eq!(first_relevant_rank(&retrieved, &v(&["D2:1"])), None);
    assert_eq!(first_relevant_rank(&retrieved, &v(&[])), None);
    let mrr = first_relevant_rank(&retrieved, &v(&["D1:3"])).map_or(0.0, |r| 1.0 / r as f64);
    assert!((mrr - 1.0 / 3.0).abs() < 1e-12);
}

#[test]
fn loaded_turns_give_their_ids_back() {
    let text = turn_memory_text("D1:3", "Alice", "See you [soon]");
    assert_eq!(text, "[D1:3] Alice: See you [soon]");
    assert_eq!(extract_dia_id(&text), Some("D1:3".to_string()));
    assert_eq!(turn_tags("conv-26", "2", "D2:7"), "locomo,conv-26,session_2,D2:7");
}

#[test]
fn session_keys() {
    assert!(is_session_key("session_1"));
    assert!(is_session_key("session_12"));
    assert!(is_session_key("session_"));
    assert!(!is_session_key("session_1_date_time"));
    assert!(!is_session_key("speaker_a"));
    assert!(!is_session_key("sess"));
    assert!(is_session_key("session_date"));
}
