use agent_memory_rs::patterns::{
    cluster_by_event_type, extract_recurring_patterns, extract_successful_workflows,
    extract_user_preferences, qualifies_as_knowledge, Confidence, EpisodeFacts, Pattern, PatternKind,
};

fn ep(id: i64, event_type: &str, conv: Option<&str>, outcome: Option<&str>, ts: &str, valence: Option<f64>) -> EpisodeFacts {
    EpisodeFacts {
        id: Some(id),
        event_type: event_type.to_string(),
        conversation_id: conv.map(String::from),
        outcome: outcome.map(String::from),
        timestamp: ts.to_string(),
        strongly_positive: valence.map_or(false, |v| v > 0.5),
        positive: valence.map_or(false, |v| v > 0.0),
    }
}

#[test]
fn recurring_events_need_two_occurrences() {
    let eps = vec![
        ep(1, "search", None, None, "t1", None),
        ep(2, "learn", None, None, "t2", None),
        ep(3, "search", None, None, "t3", None),
        ep(4, "search", None, None, "t4", None),
    ];
    let out = extract_recurring_patterns(&eps);
    assert_eq!(out.len(), 1);
    let p = &out[0];
    assert_eq!(p.kind, PatternKind::RecurringEvent);
    assert_eq!(p.kind.label(), "recurring_event");
    assert_eq!(p.description, "Recurring event: search");
    assert_eq!(p.frequency, 3);
    assert_eq!(p.confidence, Confidence { num: 3, den: 4 });
    assert_eq!(p.source_episodes, vec![1, 3, 4]);
    assert!(qualifies_as_knowledge(p));
}

#[test]
fn recurring_confidence_never_exceeds_one() {
    let eps = vec![ep(1, "a", None, None, "t", None), ep(2, "a", None, None, "t", None)];
    let out = extract_recurring_patterns(&eps);
    assert_eq!(out[0].confidence, Confidence { num: 2, den: 2 });
    assert!(out[0].confidence.num <= out[0].confidence.den);
    assert!(extract_recurring_patterns(&Vec::new()).is_empty());
}

#[test]
fn missing_ids_count_as_zero() {
    let mut a = ep(1, "x", None, None, "t", None);
    a.id = None;
    let b = ep(5, "x", None, None, "t", None);
    let out = extract_recurring_patterns(&vec![a, b]);
    assert_eq!(out[0].source_episodes, vec![0, 5]);
}

#[test]
fn user_preferences_from_strongly_positive_outcomes() {
    let eps = vec![
        ep(1, "e", None, Some("fast"), "t", Some(0.9)),
        ep(2, "e", None, Some("fast"), "t", Some(0.6)),
        ep(3, "e", None, Some("fast"), "t", Some(0.5)),
        ep(4, "e", None, Some("slow"), "t", Some(0.8)),
        ep(5, "e", None, None, "t", Some(0.9)),
    ];
    let out = extract_user_preferences(&eps);
    assert_eq!(out.len(), 1);
    assert_eq!(out[0].kind.label(), "user_preference");
    assert_eq!(out[0].description, "Preferred outcome: fast");
    assert_eq!(out[0].frequency, 2);
    assert_eq!(out[0].confidence, Confidence { num: 7, den: 10 });
    assert!(out[0].source_episodes.is_empty());
    assert!(qualifies_as_knowledge(&out[0]));
}

#[test]
fn workflows_follow_timestamps_within_a_conversation() {
    let eps = vec![
        ep(1, "answer", Some("c1"), None, "2024-01-01T10:00:02", None),
        ep(2, "ask", Some("c1"), None, "2024-01-01T10:00:01", None),
        ep(3, "ask", Some("c2"), None, "2024-01-01T11:00:01", None),
        ep(4, "answer", Some("c2"), None, "2024-01-01T11:00:02", None),
        ep(5, "ask", None, None, "2024-01-01T12:00:00", None),
    ];
    let out = extract_successful_workflows(&eps);
    assert_eq!(out.len(), 1);
    assert_eq!(out[0].kind.label(), "workflow");
    assert_eq!(out[0].description, "Common workflow: ask -> answer");
    assert_eq!(out[0].frequency, 2);
    assert_eq!(out[0].confidence, Confidence { num: 6, den: 10 });
    // Confidence 0.6 does not exceed the knowledge threshold.
    assert!(!qualifies_as_knowledge(&out[0]));
}

#[test]
fn clusters_need_three_members() {
    let ids = vec![1i64, 2, 3, 4, 5];
    let types: Vec<String> = ["a", "b", "a", "a", "b"].iter().map(|s| s.to_string()).collect();
    let out = cluster_by_event_type(&ids, &types);
    assert_eq!(out.len(), 1);
    assert_eq!(out[0].kind.label(), "cluster");
    assert_eq!(out[0].description, "Event cluster: a");
    assert_eq!(out[0].frequency, 3);
    assert_eq!(out[0].confidence, Confidence { num: 8, den: 10 });
    assert_eq!(out[0].source_episodes, vec![1, 3, 4]);
}

#[test]
fn knowledge_threshold_is_strict() {
    let mk = |num, den| Pattern {
        kind: PatternKind::Cluster,
        description: String::new(),
        frequency: 0,
        confidence: Confidence { num, den },
        source_episodes: Vec::new(),
    };
    assert!(!qualifies_as_knowledge(&mk(6, 10)));
    assert!(qualifies_as_knowledge(&mk(61, 100)));
    assert!(!qualifies_as_knowledge(&mk(3, 5)));
    assert_eq!(PatternKind::Workflow.label(), "workflow");
}
