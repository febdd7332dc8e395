use mcp_registry::command::add_result;
use mcp_registry::foreign::{
    add_outcome, foreign_servers, has_request, import_outcomes, import_request,
    missing_command_outcome, request_text, servers_in, summarize_import,
};
use mcp_registry::json::{parse_json, Json};
use mcp_registry::model::{AddServerResult, ImportResult, ImportServerResult};

fn added_for(name: &str) -> AddServerResult {
    add_result(Ok(format!("Added {}\n", name)), name)
}

fn import_all(content: &str) -> ImportResult {
    let servers = foreign_servers("Some Desktop", content).unwrap();
    let added: Vec<Option<AddServerResult>> = servers
        .iter()
        .map(|(name, server)| if has_request(server) { Some(added_for(name)) } else { None })
        .collect();
    import_outcomes(&servers, &added).unwrap()
}

#[test]
fn three_valid_entries_and_one_without_command() {
    let content = r#"{"mcpServers": {
        "one": {"command": "node", "args": ["a.js"]},
        "two": {"args": ["orphan"]},
        "three": {"command": "python", "env": {"K": "V"}},
        "four": {"command": "deno"}
    }}"#;
    let result = import_all(content);
    assert_eq!(result.imported_count, 3);
    assert_eq!(result.failed_count, 1);
    assert_eq!(
        result.servers,
        vec![
            ImportServerResult { name: "one".to_string(), success: true, error: None },
            ImportServerResult {
                name: "two".to_string(),
                success: false,
                error: Some("Missing command field".to_string()),
            },
            ImportServerResult { name: "three".to_string(), success: true, error: None },
            ImportServerResult { name: "four".to_string(), success: true, error: None },
        ]
    );
}

#[test]
fn a_request_holds_type_command_args_and_env() {
    let server = parse_json(r#"{"command": "node", "args": ["a", "b"], "env": {"K": "V"}, "extra": 1}"#).unwrap();
    let request = import_request(&server).unwrap();
    assert_eq!(
        request_text("x", &request),
        Ok(r#"{"type":"stdio","command":"node","args":["a","b"],"env":{"K":"V"}}"#.to_string())
    );
}

#[test]
fn missing_args_and_env_are_empty() {
    let server = parse_json(r#"{"command": "node"}"#).unwrap();
    let request = import_request(&server).unwrap();
    assert_eq!(
        request,
        Json::Object(vec![
            ("type".to_string(), Json::Str("stdio".to_string())),
            ("command".to_string(), Json::Str("node".to_string())),
            ("args".to_string(), Json::Array(vec![])),
            ("env".to_string(), Json::Object(vec![])),
        ])
    );
    let server = parse_json(r#"{"command": "node", "args": "no list", "env": ["no object"]}"#).unwrap();
    assert_eq!(
        request_text("x", &import_request(&server).unwrap()),
        Ok(r#"{"type":"stdio","command":"node","args":[],"env":{}}"#.to_string())
    );
}

#[test]
fn a_server_without_a_command_string_has_no_request() {
    for text in [r#"{}"#, r#"{"command": 1}"#, r#"{"command": null}"#, r#"["command"]"#, r#""command""#] {
        assert_eq!(import_request(&parse_json(text).unwrap()), None, "{}", text);
    }
}

#[test]
fn a_foreign_text_that_is_no_json_is_refused() {
    let detail = parse_json("{").unwrap_err();
    assert_eq!(
        foreign_servers("Some Desktop", "{"),
        Err(format!("Failed to parse Some Desktop config: {}", detail))
    );
    assert_eq!(foreign_servers("", "{"), Err(format!("Failed to parse  config: {}", detail)));
}

#[test]
fn a_foreign_text_without_servers_is_refused() {
    let refused = Err("No MCP servers found in Some Desktop config".to_string());
    assert_eq!(foreign_servers("Some Desktop", "{}"), refused);
    assert_eq!(foreign_servers("Some Desktop", r#"{"mcpServers": []}"#), refused);
    assert_eq!(foreign_servers("Some Desktop", "[]"), refused);
    assert_eq!(servers_in("Some Desktop", &Json::Null), refused);
    assert_eq!(
        servers_in("Other", &Json::Null),
        Err("No MCP servers found in Other config".to_string())
    );
    assert_eq!(foreign_servers("Some Desktop", r#"{"mcpServers": {}}"#), Ok(vec![]));
}

#[test]
fn servers_come_in_the_order_of_the_text() {
    let servers =
        foreign_servers("Some Desktop", r#"{"mcpServers": {"z": 1, "a": {"command": "c"}, "m": null}}"#)
            .unwrap();
    let names: Vec<&str> = servers.iter().map(|(n, _)| n.as_str()).collect();
    assert_eq!(names, vec!["z", "a", "m"]);
    assert_eq!(servers[2].1, Json::Null);
}

#[test]
fn a_failed_add_is_recorded_with_its_message() {
    let failed = AddServerResult { success: false, message: "Command failed: boom".to_string(), server_name: None };
    let ok = AddServerResult { success: true, message: "Added".to_string(), server_name: Some("a".to_string()) };
    assert_eq!(
        add_outcome("a", &failed),
        ImportServerResult { name: "a".to_string(), success: false, error: Some("Command failed: boom".to_string()) }
    );
    assert_eq!(add_outcome("a", &ok), ImportServerResult { name: "a".to_string(), success: true, error: None });
    assert_eq!(
        missing_command_outcome("a"),
        ImportServerResult { name: "a".to_string(), success: false, error: Some("Missing command field".to_string()) }
    );
}

#[test]
fn the_summary_counts_successes_and_failures() {
    let outcome = |name: &str, success| ImportServerResult {
        name: name.to_string(),
        success,
        error: if success { None } else { Some("e".to_string()) },
    };
    let outcomes = vec![outcome("a", false), outcome("b", true), outcome("c", false), outcome("d", false)];
    let result = summarize_import(outcomes.clone());
    assert_eq!(result, ImportResult { imported_count: 1, failed_count: 3, servers: outcomes });
    assert_eq!(summarize_import(vec![]), ImportResult { imported_count: 0, failed_count: 0, servers: vec![] });
}

#[test]
fn a_failed_server_stops_no_other() {
    let content = r#"{"mcpServers": {"a": {"command": "x"}, "b": {}, "c": {"command": "y"}, "d": {"command": "z"}}}"#;
    let servers = foreign_servers("Some Desktop", content).unwrap();
    let failed = AddServerResult { success: false, message: "Command failed: no".to_string(), server_name: None };
    let added = vec![Some(failed), None, Some(added_for("c")), Some(added_for("d"))];
    let result = import_outcomes(&servers, &added).unwrap();
    assert_eq!(result.imported_count, 2);
    assert_eq!(result.failed_count, 2);
    assert_eq!(
        result.servers,
        vec![
            ImportServerResult {
                name: "a".to_string(),
                success: false,
                error: Some("Command failed: no".to_string()),
            },
            ImportServerResult {
                name: "b".to_string(),
                success: false,
                error: Some("Missing command field".to_string()),
            },
            ImportServerResult { name: "c".to_string(), success: true, error: None },
            ImportServerResult { name: "d".to_string(), success: true, error: None },
        ]
    );
}

#[test]
fn a_result_in_the_place_of_a_server_without_command_is_not_read() {
    let servers = foreign_servers("Some Desktop", r#"{"mcpServers": {"b": {}}}"#).unwrap();
    let result = import_outcomes(&servers, &vec![Some(added_for("b"))]).unwrap();
    assert_eq!(result.servers, vec![missing_command_outcome("b")]);
    assert_eq!((result.imported_count, result.failed_count), (0, 1));
}

#[test]
fn an_import_needs_the_result_of_each_request() {
    let servers =
        foreign_servers("Some Desktop", r#"{"mcpServers": {"a": {"command": "x"}, "b": {}}}"#).unwrap();
    assert_eq!(import_outcomes(&servers, &vec![None, None]), None);
    assert_eq!(import_outcomes(&servers, &vec![Some(added_for("a"))]), None);
    assert_eq!(import_outcomes(&servers, &vec![]), None);
    assert_eq!(
        import_outcomes(&servers, &vec![Some(added_for("a")), None, None]),
        None
    );
    assert!(import_outcomes(&servers, &vec![Some(added_for("a")), None]).is_some());
    assert_eq!(
        import_outcomes(&vec![], &vec![]),
        Some(ImportResult { imported_count: 0, failed_count: 0, servers: vec![] })
    );
}

#[test]
fn a_server_has_a_request_where_it_has_a_command_string() {
    assert!(has_request(&parse_json(r#"{"command": "node"}"#).unwrap()));
    assert!(has_request(&parse_json(r#"{"command": ""}"#).unwrap()));
    assert!(!has_request(&parse_json(r#"{"command": 1}"#).unwrap()));
    assert!(!has_request(&parse_json(r#"{}"#).unwrap()));
    assert!(!has_request(&Json::Null));
}
