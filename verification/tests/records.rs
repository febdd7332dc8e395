use mcp_registry::model::{distinct_keys, MCPProjectConfig, MCPServerConfig, ServerStatus};

#[test]
fn an_unknown_status_says_nothing() {
    assert_eq!(
        ServerStatus::unknown(),
        ServerStatus { running: false, error: None, last_checked: None }
    );
}

#[test]
fn the_empty_config_knows_no_server() {
    let config = MCPProjectConfig::empty();
    assert_eq!(config, MCPProjectConfig { mcp_servers: vec![] });
    assert_eq!(config.position("a"), None);
    assert!(!config.is_disabled("a"));
}

#[test]
fn the_first_entry_of_a_name_is_found() {
    let entry = |disabled| MCPServerConfig { command: String::new(), args: vec![], env: vec![], disabled };
    let config = MCPProjectConfig {
        mcp_servers: vec![
            ("a".to_string(), entry(false)),
            ("b".to_string(), entry(true)),
            ("b".to_string(), entry(false)),
        ],
    };
    assert_eq!(config.position("b"), Some(1));
    assert!(config.is_disabled("b"));
    assert!(!config.is_disabled("a"));
    assert!(!distinct_keys(&config.mcp_servers));
}
