use mcp_registry::model::{MCPProjectConfig, MCPServerConfig};
use mcp_registry::reconcile::{needs_details, new_entry, toggle_disabled, toggle_message};

fn entry(command: &str, disabled: bool) -> MCPServerConfig {
    MCPServerConfig {
        command: command.to_string(),
        args: vec!["a".to_string()],
        env: vec![("K".to_string(), "V".to_string())],
        disabled,
    }
}

#[test]
fn disabling_then_enabling_on_a_fresh_config_leaves_one_enabled_entry() {
    let mut config = MCPProjectConfig { mcp_servers: vec![] };
    assert!(needs_details(&config, "foo"));
    toggle_disabled(&mut config, "foo", true, None);
    assert_eq!(config.mcp_servers.len(), 1);
    assert!(config.is_disabled("foo"));
    assert!(!needs_details(&config, "foo"));
    toggle_disabled(&mut config, "foo", false, None);
    assert_eq!(
        config,
        MCPProjectConfig {
            mcp_servers: vec![(
                "foo".to_string(),
                MCPServerConfig { command: String::new(), args: vec![], env: vec![], disabled: false },
            )],
        }
    );
}

#[test]
fn toggling_twice_to_the_same_value_changes_nothing_more() {
    let mut config = MCPProjectConfig { mcp_servers: vec![("x".to_string(), entry("c", false))] };
    toggle_disabled(&mut config, "foo", true, Some("Command: node"));
    let once = config.clone();
    toggle_disabled(&mut config, "foo", true, Some("Command: other"));
    assert_eq!(config, once);
    toggle_disabled(&mut config, "x", false, None);
    assert_eq!(config, once);
}

#[test]
fn toggling_a_known_server_changes_only_its_flag() {
    let mut config = MCPProjectConfig {
        mcp_servers: vec![
            ("a".to_string(), entry("one", false)),
            ("b".to_string(), entry("two", false)),
            ("c".to_string(), entry("three", true)),
        ],
    };
    toggle_disabled(&mut config, "b", true, Some("Command: ignored"));
    assert_eq!(
        config,
        MCPProjectConfig {
            mcp_servers: vec![
                ("a".to_string(), entry("one", false)),
                ("b".to_string(), entry("two", true)),
                ("c".to_string(), entry("three", true)),
            ],
        }
    );
}

#[test]
fn an_unknown_server_gets_an_entry_from_its_description() {
    let mut config = MCPProjectConfig { mcp_servers: vec![("a".to_string(), entry("one", false))] };
    let details = "foo:\n  Scope: Local config\n  Type: stdio\n  Command: npx\n  Args: -y pkg\n";
    toggle_disabled(&mut config, "foo", true, Some(details));
    assert_eq!(
        config,
        MCPProjectConfig {
            mcp_servers: vec![
                ("a".to_string(), entry("one", false)),
                (
                    "foo".to_string(),
                    MCPServerConfig {
                        command: "npx".to_string(),
                        args: vec!["-y".to_string(), "pkg".to_string()],
                        env: vec![],
                        disabled: true,
                    },
                ),
            ],
        }
    );
}

#[test]
fn a_description_without_a_command_gives_an_empty_command() {
    assert_eq!(
        new_entry(Some("Type: sse\nURL: http://h"), false),
        MCPServerConfig { command: String::new(), args: vec![], env: vec![], disabled: false }
    );
    assert_eq!(
        new_entry(None, true),
        MCPServerConfig { command: String::new(), args: vec![], env: vec![], disabled: true }
    );
}

#[test]
fn the_message_names_the_server_and_its_new_state() {
    assert_eq!(toggle_message("foo", true), "Server 'foo' has been disabled");
    assert_eq!(toggle_message("foo", false), "Server 'foo' has been enabled");
}
