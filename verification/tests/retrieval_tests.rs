use agent_memory_rs::retrieval::{
    usable_vector_results, access_table, episode_search_text, keyword_match_counts, search_kind, similarity_query,
    FilterPresence, QueryParam, SearchKind, SIMILARITY_SELECT,
};

#[test]
fn search_kinds() {
    assert_eq!(search_kind("semantic"), SearchKind::Semantic);
    assert_eq!(search_kind("episodic"), SearchKind::Episodic);
    assert_eq!(search_kind("procedural"), SearchKind::Procedural);
    assert_eq!(search_kind("all"), SearchKind::Hybrid);
    assert_eq!(access_table("episodic"), "episodes");
    assert_eq!(access_table("semantic"), "memories");
}

#[test]
fn keyword_counts_ignore_case() {
    let kws = vec!["Rust".to_string(), "MEMORY".to_string(), "go".to_string()];
    assert_eq!(keyword_match_counts("rust memory in RUST, Memory", &kws), Some(vec![2, 2, 0]));
    assert_eq!(keyword_match_counts("anything", &Vec::new()), Some(Vec::new()));
    assert_eq!(keyword_match_counts("ab", &vec![String::new()]), Some(vec![3]));
}

#[test]
fn episode_texts() {
    assert_eq!(episode_search_text("chat", Some("ok"), "{\"text\":\"hi\"}"), "chat ok {\"text\":\"hi\"}");
    assert_eq!(episode_search_text("chat", None, "ctx"), "chat  ctx");
}

#[test]
fn similarity_query_shape() {
    let none = FilterPresence {
        workspace: false,
        agent: false,
        min_importance: false,
        max_importance: false,
        conversation: false,
        created_after: false,
        created_before: false,
    };
    let (sql, params) = similarity_query(&none);
    assert_eq!(sql, format!("{} ORDER BY distance ASC LIMIT ?", SIMILARITY_SELECT));
    assert_eq!(params, vec![QueryParam::Embedding, QueryParam::Limit]);
    let some = FilterPresence {
        workspace: true,
        agent: false,
        min_importance: true,
        max_importance: false,
        conversation: true,
        created_after: false,
        created_before: false,
    };
    let (sql, params) = similarity_query(&some);
    assert_eq!(
        sql,
        format!(
            "{} AND m.workspace_id = ? AND m.importance_score >= ? AND m.conversation_id = ? ORDER BY distance ASC LIMIT ?",
            SIMILARITY_SELECT
        )
    );
    assert_eq!(
        params,
        vec![QueryParam::Embedding, QueryParam::WorkspaceId, QueryParam::MinImportance, QueryParam::ConversationId, QueryParam::Limit]
    );
    assert_eq!(sql.matches('?').count(), params.len());
}

#[test]
fn date_range_filters() {
    let dates = FilterPresence {
        workspace: true,
        agent: false,
        min_importance: false,
        max_importance: false,
        conversation: false,
        created_after: true,
        created_before: true,
    };
    let (sql, params) = similarity_query(&dates);
    assert_eq!(
        sql,
        format!(
            "{} AND m.workspace_id = ? AND m.created_at >= ? AND m.created_at <= ? ORDER BY distance ASC LIMIT ?",
            SIMILARITY_SELECT
        )
    );
    assert_eq!(
        params,
        vec![QueryParam::Embedding, QueryParam::WorkspaceId, QueryParam::CreatedAfter, QueryParam::CreatedBefore, QueryParam::Limit]
    );
    let before_only = FilterPresence { created_after: false, ..dates };
    let (sql, params) = similarity_query(&before_only);
    assert!(sql.ends_with(" AND m.created_at <= ? ORDER BY distance ASC LIMIT ?"));
    assert!(!sql.contains(">= ? AND m.created_at"));
    assert_eq!(params.len(), 4);
}

#[test]
fn episode_search_falls_back_without_vector_rows() {
    assert_eq!(usable_vector_results(Some(vec![1, 2])), Some(vec![1, 2]));
    assert_eq!(usable_vector_results::<i32>(Some(vec![])), None);
    assert_eq!(usable_vector_results::<i32>(None), None);
}
