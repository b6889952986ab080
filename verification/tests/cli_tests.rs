use agent_memory_rs::cli_args::{collect_query_text, find_flag_value, parse_command_line, CliCommand, MissingArg};

fn args(words: &[&str]) -> Vec<String> {
    words.iter().map(|s| s.to_string()).collect()
}

#[test]
fn usage_without_a_command() {
    assert!(matches!(parse_command_line(&args(&["cli"])), Ok(CliCommand::Usage)));
    assert!(matches!(parse_command_line(&args(&[])), Ok(CliCommand::Usage)));
}

#[test]
fn workspace_commands() {
    match parse_command_line(&args(&["cli", "workspace", "create", "--path", "/p", "--name", "w"])) {
        Ok(CliCommand::CreateWorkspace { name, path }) => {
            assert_eq!(name, "w");
            assert_eq!(path, "/p");
        }
        _ => panic!("expected a create command"),
    }
    assert!(matches!(parse_command_line(&args(&["cli", "workspace", "list"])), Ok(CliCommand::ListWorkspaces)));
    assert!(matches!(
        parse_command_line(&args(&["cli", "workspace", "delete", "--id", "-3"])),
        Ok(CliCommand::DeleteWorkspace { id: -3 })
    ));
    assert_eq!(parse_command_line(&args(&["cli", "workspace", "delete", "--id", "x"])).err(), Some(MissingArg::Id));
    assert_eq!(parse_command_line(&args(&["cli", "workspace"])).err(), Some(MissingArg::WorkspaceSubcommand));
    assert_eq!(parse_command_line(&args(&["cli", "workspace", "create", "--name"])).err(), Some(MissingArg::Name));
    assert_eq!(parse_command_line(&args(&["cli", "workspace", "create", "--name", "n"])).err(), Some(MissingArg::Path));
    match parse_command_line(&args(&["cli", "workspace", "rename"])) {
        Ok(CliCommand::UnknownWorkspaceSubcommand { name }) => assert_eq!(name, "rename"),
        _ => panic!("expected an unknown subcommand"),
    }
}

#[test]
fn store_command() {
    match parse_command_line(&args(&["cli", "store", "--workspace", "1", "--type", "chat", "--context", "hi", "--valence", "0.5"])) {
        Ok(CliCommand::Store { workspace_id, event_type, context, outcome, valence }) => {
            assert_eq!(workspace_id, 1);
            assert_eq!(event_type, "chat");
            assert_eq!(context, "hi");
            assert_eq!(outcome, None);
            assert_eq!(valence, Some("0.5".to_string()));
        }
        _ => panic!("expected a store command"),
    }
    assert_eq!(parse_command_line(&args(&["cli", "store", "--type", "t"])).err(), Some(MissingArg::Workspace));
    assert_eq!(parse_command_line(&args(&["cli", "store", "--workspace", "1"])).err(), Some(MissingArg::EventType));
    assert_eq!(parse_command_line(&args(&["cli", "store", "--workspace", "1", "--type", "t"])).err(), Some(MissingArg::Context));
    assert_eq!(MissingArg::Context.message(), "--context required");
}

#[test]
fn query_and_stats_commands() {
    match parse_command_line(&args(&["cli", "query", "--workspace", "2", "rust", "memory", "--limit", "5"])) {
        Ok(CliCommand::Query { workspace_id, text, limit }) => {
            assert_eq!(workspace_id, 2);
            assert_eq!(text, "rust memory");
            assert_eq!(limit, 5);
        }
        _ => panic!("expected a query"),
    }
    match parse_command_line(&args(&["cli", "query", "--workspace", "2", "x", "--limit", "many"])) {
        Ok(CliCommand::Query { limit, .. }) => assert_eq!(limit, 10),
        _ => panic!("expected a query"),
    }
    assert!(matches!(
        parse_command_line(&args(&["cli", "query", "--workspace", "2"])),
        Ok(CliCommand::MissingQueryText)
    ));
    assert!(matches!(
        parse_command_line(&args(&["cli", "stats", "--workspace", "9"])),
        Ok(CliCommand::Stats { workspace_id: 9 })
    ));
    match parse_command_line(&args(&["cli", "frobnicate"])) {
        Ok(CliCommand::UnknownCommand { name }) => assert_eq!(name, "frobnicate"),
        _ => panic!("expected an unknown command"),
    }
}

#[test]
fn flags_and_query_text() {
    let a = args(&["cli", "query", "--workspace", "1", "a", "b", "--limit"]);
    assert_eq!(find_flag_value(&a, "--workspace"), Some("1".to_string()));
    assert_eq!(find_flag_value(&a, "--limit"), None);
    assert_eq!(find_flag_value(&a, "--other"), None);
    assert_eq!(collect_query_text(&a), "a b");
    assert_eq!(collect_query_text(&args(&["cli", "query"])), "");
}
