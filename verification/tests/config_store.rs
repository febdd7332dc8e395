use mcp_registry::config::{
    decode_entry, decode_project_config, encode_entry, encode_project_config,
    load_project_config, project_config_text,
};
use mcp_registry::json::{parse_json, Json};
use mcp_registry::model::{distinct_keys, MCPProjectConfig, MCPServerConfig};

fn sample() -> MCPProjectConfig {
    MCPProjectConfig {
        mcp_servers: vec![
            (
                "alpha".to_string(),
                MCPServerConfig {
                    command: "node".to_string(),
                    args: vec!["server.js".to_string(), "--port".to_string()],
                    env: vec![("KEY".to_string(), "value".to_string()), ("B".to_string(), "2".to_string())],
                    disabled: true,
                },
            ),
            (
                "beta".to_string(),
                MCPServerConfig { command: String::new(), args: vec![], env: vec![], disabled: false },
            ),
        ],
    }
}

#[test]
fn a_missing_file_is_an_empty_config() {
    assert_eq!(load_project_config(None), Ok(MCPProjectConfig { mcp_servers: vec![] }));
}

#[test]
fn writing_then_reading_gives_the_same_entries() {
    let config = sample();
    let text = project_config_text(&config).unwrap();
    assert_eq!(load_project_config(Some(&text)), Ok(config));
    let none = MCPProjectConfig { mcp_servers: vec![] };
    let text = project_config_text(&none).unwrap();
    assert_eq!(load_project_config(Some(&text)), Ok(none));
}

#[test]
fn encoding_then_decoding_gives_the_same_entries() {
    let config = sample();
    assert_eq!(decode_project_config(&encode_project_config(&config)), Ok(config.clone()));
    let entry = &config.mcp_servers[0].1;
    assert_eq!(decode_entry(&encode_entry(entry)), Some(entry.clone()));
}

#[test]
fn the_written_text_is_indented_json() {
    let config = MCPProjectConfig {
        mcp_servers: vec![(
            "a".to_string(),
            MCPServerConfig {
                command: "node".to_string(),
                args: vec!["x".to_string()],
                env: vec![],
                disabled: true,
            },
        )],
    };
    let expected = "{\n  \"mcpServers\": {\n    \"a\": {\n      \"command\": \"node\",\n      \"args\": [\n        \"x\"\n      ],\n      \"env\": {},\n      \"disabled\": true\n    }\n  }\n}";
    assert_eq!(project_config_text(&config), Ok(expected.to_string()));
}

#[test]
fn a_file_is_read_in_its_order() {
    let text = r#"{"mcpServers": {"zeta": {"command": "z"}, "alpha": {"command": "a", "disabled": true, "args": ["1", "2"], "env": {"K": "V"}}}, "other": 1}"#;
    let config = load_project_config(Some(text)).unwrap();
    assert_eq!(
        config,
        MCPProjectConfig {
            mcp_servers: vec![
                (
                    "zeta".to_string(),
                    MCPServerConfig { command: "z".to_string(), args: vec![], env: vec![], disabled: false },
                ),
                (
                    "alpha".to_string(),
                    MCPServerConfig {
                        command: "a".to_string(),
                        args: vec!["1".to_string(), "2".to_string()],
                        env: vec![("K".to_string(), "V".to_string())],
                        disabled: true,
                    },
                ),
            ],
        }
    );
    assert!(config.is_disabled("alpha"));
    assert!(!config.is_disabled("zeta"));
    assert!(!config.is_disabled("nobody"));
    assert_eq!(config.position("alpha"), Some(1));
    assert_eq!(config.position("nobody"), None);
}

#[test]
fn text_that_is_no_json_is_refused_with_the_parser_message() {
    let error = load_project_config(Some("{not json")).unwrap_err();
    let detail = parse_json("{not json").unwrap_err();
    assert_eq!(error, format!("Failed to parse .mcp.json: {}", detail));
    assert!(!detail.is_empty());
    assert!(load_project_config(Some("")).is_err());
}

#[test]
fn json_of_another_shape_is_refused() {
    let refused = "Failed to parse .mcp.json: the document does not describe MCP servers";
    for text in [
        "{}",
        "[]",
        "null",
        r#"{"mcpServers": []}"#,
        r#"{"mcpServers": {"a": 1}}"#,
        r#"{"mcpServers": {"a": {}}}"#,
        r#"{"mcpServers": {"a": {"command": 1}}}"#,
        r#"{"mcpServers": {"a": {"command": "x", "args": "y"}}}"#,
        r#"{"mcpServers": {"a": {"command": "x", "args": ["y", 2]}}}"#,
        r#"{"mcpServers": {"a": {"command": "x", "args": null}}}"#,
        r#"{"mcpServers": {"a": {"command": "x", "env": []}}}"#,
        r#"{"mcpServers": {"a": {"command": "x", "env": {"K": 1}}}}"#,
        r#"{"mcpServers": {"a": {"command": "x", "disabled": "yes"}}}"#,
    ] {
        assert_eq!(load_project_config(Some(text)), Err(refused.to_string()), "{}", text);
    }
}

#[test]
fn a_name_that_occurs_twice_is_refused() {
    let entry = || Json::Object(vec![("command".to_string(), Json::Str("x".to_string()))]);
    let twice = Json::Object(vec![(
        "mcpServers".to_string(),
        Json::Object(vec![("a".to_string(), entry()), ("b".to_string(), entry()), ("a".to_string(), entry())]),
    )]);
    assert!(decode_project_config(&twice).is_err());
    let env_twice = Json::Object(vec![
        ("command".to_string(), Json::Str("x".to_string())),
        (
            "env".to_string(),
            Json::Object(vec![
                ("K".to_string(), Json::Str("1".to_string())),
                ("K".to_string(), Json::Str("2".to_string())),
            ]),
        ),
    ]);
    assert_eq!(decode_entry(&env_twice), None);
    assert!(!distinct_keys(&vec![("a".to_string(), 1u8), ("b".to_string(), 2u8), ("a".to_string(), 3u8)]));
    assert!(distinct_keys(&vec![("a".to_string(), 1u8), ("b".to_string(), 2u8)]));
    assert!(distinct_keys(&Vec::<(String, u8)>::new()));
}

#[test]
fn the_first_member_of_a_name_counts() {
    let entry = Json::Object(vec![
        ("command".to_string(), Json::Str("first".to_string())),
        ("command".to_string(), Json::Str("second".to_string())),
    ]);
    assert_eq!(decode_entry(&entry).unwrap().command, "first");
}

#[test]
fn a_config_with_a_repeated_name_is_not_written() {
    let entry = || MCPServerConfig { command: "c".to_string(), args: vec![], env: vec![], disabled: false };
    let config = MCPProjectConfig {
        mcp_servers: vec![("a".to_string(), entry()), ("a".to_string(), entry())],
    };
    assert_eq!(
        project_config_text(&config),
        Err("Failed to serialize config: an object has two members of one name".to_string())
    );
}
