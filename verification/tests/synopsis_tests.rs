use agent_memory_rs::patterns::EpisodeFacts;
use agent_memory_rs::synopsis::{
    count_distinct, daily_counts, extract_top_insights, format_synopsis, generate_summary,
    synopsis_content, synopsis_memory, DailyCounts,
};

fn ep(id: i64, event_type: &str, conv: Option<&str>, outcome: Option<&str>, valence: Option<f64>) -> EpisodeFacts {
    EpisodeFacts {
        id: Some(id),
        event_type: event_type.to_string(),
        conversation_id: conv.map(String::from),
        outcome: outcome.map(String::from),
        timestamp: "2024-01-01 10:00:00".to_string(),
        strongly_positive: valence.map_or(false, |v| v > 0.5),
        positive: valence.map_or(false, |v| v > 0.0),
    }
}

fn day() -> Vec<EpisodeFacts> {
    vec![
        ep(1, "search", Some("c1"), Some("ok"), Some(0.9)),
        ep(2, "search", Some("c1"), None, Some(0.7)),
        ep(3, "learn", None, Some("ok"), Some(0.2)),
        ep(4, "learn", Some("c2"), None, Some(0.8)),
    ]
}

#[test]
fn summary_counts_conversations_and_event_types() {
    // Context keys: c1, c1, learn, c2 -> 3 groups; event types: 2.
    assert_eq!(
        generate_summary(&day()),
        "Processed 4 episodes across 3 conversations. Event types: 2. "
    );
    assert_eq!(generate_summary(&Vec::new()), "Processed 0 episodes across 0 conversations. Event types: 0. ");
}

#[test]
fn distinct_keys() {
    let keys: Vec<String> = ["a", "b", "a", "c", "b"].iter().map(|s| s.to_string()).collect();
    assert_eq!(count_distinct(&keys), 3);
    assert_eq!(count_distinct(&Vec::new()), 0);
}

#[test]
fn daily_counts_by_outcome_and_valence() {
    assert_eq!(
        daily_counts(&day()),
        DailyCounts { total_episodes: 4, with_outcome: 2, positive_valence: 4, strongly_positive: 3 }
    );
}

#[test]
fn top_insights_with_success_rate() {
    let insights = extract_top_insights(&day(), 5);
    assert_eq!(
        insights,
        vec![
            "Recurring event: search".to_string(),
            "Recurring event: learn".to_string(),
            "High success rate: 75% positive outcomes".to_string(),
        ]
    );
    let limited = extract_top_insights(&day(), 1);
    assert_eq!(limited, vec!["Recurring event: search".to_string(), "High success rate: 75% positive outcomes".to_string()]);
    // Exactly half strongly positive: no success line.
    let half = vec![ep(1, "a", None, None, Some(0.9)), ep(2, "b", None, None, None)];
    assert!(extract_top_insights(&half, 5).is_empty());
    assert!(extract_top_insights(&Vec::new(), 5).is_empty());
}

#[test]
fn synopsis_content_and_texts() {
    let c = synopsis_content(&day());
    assert_eq!(c.summary, generate_summary(&day()));
    assert_eq!(c.key_insights, extract_top_insights(&day(), 5));
    let insights = vec!["first".to_string(), "second".to_string()];
    assert_eq!(
        synopsis_memory("2024-01-01", "Busy day.", &insights),
        "Daily Synopsis (2024-01-01): Busy day. Key insights: first, second"
    );
    assert_eq!(
        format_synopsis("2024-01-01", "Busy day.", &insights),
        "\n## Daily Synopsis (2024-01-01)\nBusy day.\n\nKey Insights:\n1. first\n2. second\n\n"
    );
    assert_eq!(
        format_synopsis("d", "s", &Vec::new()),
        "\n## Daily Synopsis (d)\ns\n\nKey Insights:\n\n\n"
    );
}
