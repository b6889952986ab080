use agent_memory_rs::context::{context_budgets, estimate_tokens, plan_context, ContextBudgets, ContextItem};

#[test]
fn token_estimate_rounds_up_bytes_over_four() {
    assert_eq!(estimate_tokens(""), 0);
    assert_eq!(estimate_tokens("abcd"), 1);
    assert_eq!(estimate_tokens("abcde"), 2);
    assert_eq!(estimate_tokens("é"), 1);
}

#[test]
fn budget_split() {
    assert_eq!(
        context_budgets(2000),
        ContextBudgets { synopsis: 500, semantic: 800, episodic: 500, procedural: 200, other: 200 }
    );
    assert_eq!(
        context_budgets(7),
        ContextBudgets { synopsis: 1, semantic: 2, episodic: 1, procedural: 0, other: 0 }
    );
}

#[test]
fn plan_takes_items_within_budget_and_type_allowance() {
    let items = vec![
        ContextItem { memory_type: "semantic".to_string(), tokens: 300 },
        ContextItem { memory_type: "episodic".to_string(), tokens: 600 },
        ContextItem { memory_type: "procedural".to_string(), tokens: 100 },
        ContextItem { memory_type: "semantic".to_string(), tokens: 700 },
        ContextItem { memory_type: "semantic".to_string(), tokens: 200 },
    ];
    let plan = plan_context(2000, Some(400), &items);
    assert!(plan.take_synopsis);
    // 400 + 300 = 700; episodic 600 > 500 allowance; +100 = 800; +700 = 1500; +200 = 1700.
    assert_eq!(plan.taken, vec![true, false, true, true, true]);
    assert_eq!(plan.tokens_used, 1700);
    assert!(plan.tokens_used <= 2000);
}

#[test]
fn plan_skips_a_synopsis_over_its_quarter_and_stops_at_budget() {
    let items = vec![
        ContextItem { memory_type: "semantic".to_string(), tokens: 40 },
        ContextItem { memory_type: "semantic".to_string(), tokens: 40 },
        ContextItem { memory_type: "other".to_string(), tokens: 10 },
    ];
    let plan = plan_context(100, Some(26), &items);
    assert!(!plan.take_synopsis);
    assert_eq!(plan.taken, vec![true, true, true]);
    assert_eq!(plan.tokens_used, 90);
    let none = plan_context(100, None, &Vec::new());
    assert!(!none.take_synopsis);
    assert_eq!(none.tokens_used, 0);
}
