use agent_memory_rs::models::ModelType;
use agent_memory_rs::tools::{
    capped_limit, default_event_type, default_limit, model_from_name, resolve_model,
    resolve_workspace, route_method, route_tool, validate_learn, validate_search,
    ConsolidationCounter, CwdInfo, InitGate, Method, ToolError, ToolRoute,
    DEFAULT_CONSOLIDATION_THRESHOLD,
};

#[test]
fn routing() {
    assert_eq!(route_method("learn"), Method::Learn);
    assert_eq!(route_method("search"), Method::Search);
    assert_eq!(route_method("initialize"), Method::Initialize);
    assert_eq!(route_method("tools/list"), Method::ToolsList);
    assert_eq!(route_method("tools/call"), Method::ToolsCall);
    assert_eq!(route_method("Learn"), Method::Unknown);
    assert_eq!(route_tool("learn"), ToolRoute::Learn);
    assert_eq!(route_tool("search"), ToolRoute::Search);
    assert_eq!(route_tool("forget"), ToolRoute::Unknown);
}

#[test]
fn validation() {
    assert_eq!(validate_learn("remember this"), Ok(()));
    assert_eq!(validate_learn("  \n"), Err(ToolError::EmptyText));
    assert_eq!(validate_search("q", 10), Ok(()));
    assert_eq!(validate_search("q", 100), Ok(()));
    assert_eq!(validate_search("q", 0), Err(ToolError::LimitOutOfRange));
    assert_eq!(validate_search("q", 101), Err(ToolError::LimitOutOfRange));
    assert_eq!(validate_search(" ", 0), Err(ToolError::EmptyQuery));
    assert_eq!(ToolError::EmptyText.message(), "Text cannot be empty");
    assert_eq!(ToolError::EmptyQuery.message(), "Query cannot be empty");
    assert_eq!(ToolError::LimitOutOfRange.message(), "Limit must be between 1 and 100");
}

#[test]
fn defaults_and_caps() {
    assert_eq!(default_event_type(), "user_input");
    assert_eq!(default_limit(), 10);
    assert_eq!(capped_limit(5), 5);
    assert_eq!(capped_limit(100), 100);
    assert_eq!(capped_limit(1000), 100);
}

#[test]
fn consolidation_fires_every_threshold_messages() {
    let mut c = ConsolidationCounter::new(DEFAULT_CONSOLIDATION_THRESHOLD);
    let mut fired = Vec::new();
    for n in 1..=60 {
        if c.record_message() {
            fired.push(n);
        }
        assert_eq!(c.count(), n % 20);
    }
    assert_eq!(fired, vec![20, 40, 60]);
    let mut every = ConsolidationCounter::new(1);
    assert!(every.record_message());
    assert!(every.record_message());
    let mut zero = ConsolidationCounter::new(0);
    assert!(zero.record_message());
    assert_eq!(zero.count(), 0);
}

#[test]
fn init_gate_opens_once() {
    let mut g = InitGate::new();
    assert!(g.begin());
    assert!(!g.begin());
    assert!(!g.begin());
}

#[test]
fn failed_model_load_is_retried() {
    let mut g = InitGate::new();
    assert!(g.begin());
    g.fail();
    assert!(g.begin());
    assert!(!g.begin());
}

#[test]
fn workspace_resolution() {
    assert_eq!(resolve_workspace(Some("given".to_string()), None), "given");
    let cwd = CwdInfo { path_hash: 0x1f, dir_name: Some("proj".to_string()) };
    assert_eq!(resolve_workspace(None, Some(cwd)), "0000001f-proj");
    let root = CwdInfo { path_hash: 0xdead_beef_0000_0001, dir_name: None };
    assert_eq!(resolve_workspace(None, Some(root)), "deadbeef00000001-root");
    assert_eq!(resolve_workspace(None, None), "default");
}

#[test]
fn model_resolution() {
    assert_eq!(model_from_name("MiniLM"), Some(ModelType::MiniLM));
    assert_eq!(model_from_name("NOMIC"), Some(ModelType::Nomic));
    assert_eq!(model_from_name("bge"), Some(ModelType::BgeSmall));
    assert_eq!(model_from_name("BGE-Small"), Some(ModelType::BgeSmall));
    assert_eq!(model_from_name("gpt"), None);
    assert_eq!(resolve_model(Some("nomic".to_string())), ModelType::Nomic);
    assert_eq!(resolve_model(Some("unknown".to_string())), ModelType::BgeSmall);
    assert_eq!(resolve_model(None), ModelType::BgeSmall);
}

#[test]
fn test_learn_validation() {
    // A learn request with empty text is refused, with a message about emptiness.
    assert_eq!(route_method("learn"), Method::Learn);
    let result = validate_learn("");
    assert!(result.is_err());
    assert!(result.unwrap_err().message().contains("empty"));
}

#[test]
fn test_search_validation() {
    // An empty query fails, and so does a limit of 200.
    assert_eq!(route_method("search"), Method::Search);
    assert!(validate_search("", 10).is_err());
    assert!(validate_search("test", 200).is_err());
    assert!(validate_search("test", 10).is_ok());
}
