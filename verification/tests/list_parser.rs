use mcp_registry::list::parse_server_list;
use mcp_registry::model::{MCPProjectConfig, MCPServer, MCPServerConfig, ServerStatus};

fn no_config() -> MCPProjectConfig {
    MCPProjectConfig { mcp_servers: vec![] }
}

fn stub(name: &str, command: &str, disabled: bool) -> MCPServer {
    MCPServer {
        name: name.to_string(),
        transport: "stdio".to_string(),
        command: Some(command.to_string()),
        args: vec![],
        env: vec![],
        url: None,
        scope: "local".to_string(),
        is_active: false,
        disabled,
        status: ServerStatus { running: false, error: None, last_checked: None },
    }
}

#[test]
fn sentinel_text_yields_no_servers() {
    assert_eq!(parse_server_list("No MCP servers configured.", &no_config()), vec![]);
}

#[test]
fn sentinel_inside_other_text_yields_no_servers() {
    let text = "Checking...\nNo MCP servers configured. Use `add` to add one.\nfoo: bar\n";
    assert_eq!(parse_server_list(text, &no_config()), vec![]);
}

#[test]
fn empty_and_blank_text_yield_no_servers() {
    assert_eq!(parse_server_list("", &no_config()), vec![]);
    assert_eq!(parse_server_list("  \n\t \n", &no_config()), vec![]);
}

#[test]
fn two_line_record_is_folded_with_one_space() {
    let servers = parse_server_list("foo: run server.js\n  --port 3000", &no_config());
    assert_eq!(servers, vec![stub("foo", "run server.js   --port 3000", false)]);
}

#[test]
fn folding_joins_fragments_in_order() {
    let text = "srv:  first  \nsecond\n third\nfourth ";
    let servers = parse_server_list(text, &no_config());
    assert_eq!(servers.len(), 1);
    assert_eq!(servers[0].name, "srv");
    assert_eq!(servers[0].command.as_deref(), Some("first second  third fourth"));
}

#[test]
fn each_record_start_ends_the_record_before_it() {
    let text = "a: one\n  more\nb: two\nc: three\n  x\n  y";
    let servers = parse_server_list(text, &no_config());
    assert_eq!(
        servers,
        vec![stub("a", "one   more", false), stub("b", "two", false), stub("c", "three   x   y", false)]
    );
}

#[test]
fn path_like_lines_continue_the_record() {
    let text = "win: node\n  ..\\tools\\dir\\x:y\n/usr/bin: tail\n a/b : c\nnext: go";
    let servers = parse_server_list(text, &no_config());
    assert_eq!(
        servers,
        vec![
            stub("win", "node   ..\\tools\\dir\\x:y /usr/bin: tail  a/b : c", false),
            stub("next", "go", false)
        ]
    );
}

#[test]
fn only_the_text_before_the_first_colon_is_looked_at() {
    let servers = parse_server_list("win: node\nC:\\tools\\server.js", &no_config());
    assert_eq!(servers, vec![stub("win", "node", false), stub("C", "\\tools\\server.js", false)]);
}

#[test]
fn lines_before_the_first_record_are_noise() {
    let text = "Checking MCP server health\n\nfoo: bar";
    assert_eq!(parse_server_list(text, &no_config()), vec![stub("foo", "bar", false)]);
}

#[test]
fn text_without_any_record_yields_no_servers() {
    assert_eq!(parse_server_list("just a banner\nand more", &no_config()), vec![]);
}

#[test]
fn a_line_with_an_empty_name_starts_no_record() {
    let text = "foo: bar\n : baz\n: qux";
    assert_eq!(parse_server_list(text, &no_config()), vec![stub("foo", "bar  : baz : qux", false)]);
    assert_eq!(parse_server_list(": lonely", &no_config()), vec![]);
}

#[test]
fn only_the_first_colon_splits_a_line() {
    let servers = parse_server_list("web: https://example.com:8080/sse", &no_config());
    assert_eq!(servers, vec![stub("web", "https://example.com:8080/sse", false)]);
}

#[test]
fn carriage_returns_before_line_feeds_are_dropped() {
    let servers = parse_server_list("a: one\r\nb: two\r\n", &no_config());
    assert_eq!(servers, vec![stub("a", "one", false), stub("b", "two", false)]);
}

#[test]
fn disabled_flag_comes_from_the_config() {
    let entry = |disabled| MCPServerConfig { command: String::new(), args: vec![], env: vec![], disabled };
    let config = MCPProjectConfig {
        mcp_servers: vec![("b".to_string(), entry(true)), ("c".to_string(), entry(false))],
    };
    let servers = parse_server_list("a: one\nb: two\nc: three", &config);
    assert_eq!(
        servers,
        vec![stub("a", "one", false), stub("b", "two", true), stub("c", "three", false)]
    );
}

#[test]
fn a_record_with_nothing_after_the_colon_has_an_empty_command() {
    assert_eq!(parse_server_list("foo:", &no_config()), vec![stub("foo", "", false)]);
}
