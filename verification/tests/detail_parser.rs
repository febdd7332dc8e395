use mcp_registry::detail::{parse_server_details, read_details, scope_for};
use mcp_registry::model::{MCPProjectConfig, MCPServerConfig, ServerStatus};

fn no_config() -> MCPProjectConfig {
    MCPProjectConfig { mcp_servers: vec![] }
}

#[test]
fn user_scope_and_command_are_read() {
    let text = "foo:\n  Scope: User config\n  Command: node index.js\n";
    let server = parse_server_details("foo".to_string(), text, &no_config());
    assert_eq!(server.scope, "user");
    assert_eq!(server.command.as_deref(), Some("node index.js"));
    assert_eq!(server.name, "foo");
    assert_eq!(server.transport, "stdio");
    assert_eq!(server.args, Vec::<String>::new());
    assert_eq!(server.env, vec![]);
    assert_eq!(server.url, None);
    assert!(!server.is_active);
    assert!(!server.disabled);
    assert_eq!(server.status, ServerStatus { running: false, error: None, last_checked: None });
}

#[test]
fn every_field_is_read() {
    let text = "Scope: Project config (shared via .mcp.json)\nType: sse\nCommand: npx\nArgs:  -y   @scope/pkg  --flag \nURL: https://example.com/sse\nEnvironment:\n  KEY=value\n";
    let details = read_details(text);
    assert_eq!(details.scope, "project");
    assert_eq!(details.transport, "sse");
    assert_eq!(details.command.as_deref(), Some("npx"));
    assert_eq!(details.args, vec!["-y", "@scope/pkg", "--flag"]);
    assert_eq!(details.url.as_deref(), Some("https://example.com/sse"));
}

#[test]
fn missing_fields_keep_their_defaults() {
    let details = read_details("nothing of interest\nStatus: connected\n");
    assert_eq!(details.scope, "local");
    assert_eq!(details.transport, "stdio");
    assert_eq!(details.command, None);
    assert_eq!(details.args, Vec::<String>::new());
    assert_eq!(details.url, None);
    let details = read_details("");
    assert_eq!(details.scope, "local");
}

#[test]
fn scope_is_matched_without_regard_to_case() {
    assert_eq!(read_details("Scope: LOCAL config").scope, "local");
    assert_eq!(read_details("Scope: PROJECT").scope, "project");
    assert_eq!(read_details("Scope: USER").scope, "user");
    assert_eq!(read_details("Scope: Global settings").scope, "user");
}

#[test]
fn scope_words_are_tried_in_order() {
    assert_eq!(scope_for("user config in local project", "x".to_string()), "local");
    assert_eq!(scope_for("user project", "x".to_string()), "project");
    assert_eq!(scope_for("global", "x".to_string()), "user");
    assert_eq!(scope_for("user", "x".to_string()), "user");
}

#[test]
fn an_unknown_scope_keeps_the_current_one() {
    assert_eq!(scope_for("somewhere", "project".to_string()), "project");
    assert_eq!(read_details("Scope: somewhere").scope, "local");
    assert_eq!(read_details("Scope: Project\nScope: elsewhere").scope, "project");
}

#[test]
fn an_empty_args_line_leaves_the_arguments() {
    assert_eq!(read_details("Args: a b\nArgs:   ").args, vec!["a", "b"]);
    assert_eq!(read_details("Args:").args, Vec::<String>::new());
}

#[test]
fn only_the_prefix_is_stripped() {
    let details = read_details("Command: echo Command: again");
    assert_eq!(details.command.as_deref(), Some("echo Command: again"));
}

#[test]
fn a_prefix_must_begin_the_trimmed_line() {
    let details = read_details("The Command: x\n   URL:   http://h  ");
    assert_eq!(details.command, None);
    assert_eq!(details.url.as_deref(), Some("http://h"));
}

#[test]
fn later_lines_replace_earlier_ones() {
    let details = read_details("Command: one\nCommand: two\nType: a\nType: b");
    assert_eq!(details.command.as_deref(), Some("two"));
    assert_eq!(details.transport, "b");
}

#[test]
fn disabled_flag_of_details_comes_from_the_config() {
    let config = MCPProjectConfig {
        mcp_servers: vec![(
            "foo".to_string(),
            MCPServerConfig { command: "x".to_string(), args: vec![], env: vec![], disabled: true },
        )],
    };
    assert!(parse_server_details("foo".to_string(), "Command: x", &config).disabled);
    assert!(!parse_server_details("bar".to_string(), "Command: x", &config).disabled);
}
