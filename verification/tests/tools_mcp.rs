use stakit::error::AgentError;
use stakit::json::Json;
use stakit::mcp::{expand, namespaced_name, McpConfig, McpServer, McpTool, McpToolSet, TextMap};
use stakit::provider::ToolDef;
use stakit::tool::ToolRegistry;

fn echo() -> ToolDef {
    ToolDef::new(
        "echo".into(),
        "Echo the text".into(),
        Json::parse(
            r#"{ "type": "object", "properties": { "text": { "type": "string", "description": "Text to echo back", "minLength": 1 } } }"#,
        )
        .unwrap(),
    )
}

#[test]
fn deferred_tool_is_hidden_until_search_activates_it() {
    let mut reg = ToolRegistry::new();
    reg.insert(echo(), vec!["text".into()], true, 0);
    assert!(reg.active_defs().is_empty(), "deferred tool must be hidden");
    assert!(reg.has_deferred());

    let hits = reg.search("echo");
    assert_eq!(hits.len(), 1);
    assert_eq!(hits[0].0, "echo");

    assert!(reg.activate("echo"));
    assert_eq!(reg.active_defs().len(), 1);
    assert!(!reg.has_deferred());
}

#[test]
fn registry_finds_tools_by_name() {
    let mut reg = ToolRegistry::new();
    assert!(reg.is_empty());
    reg.register(echo(), 3);
    assert_eq!(reg.len(), 1);
    assert_eq!(reg.get("echo"), Some(3));
    assert_eq!(reg.resolve("echo").unwrap(), 3);
    reg.register(echo(), 4);
    assert_eq!(reg.len(), 1);
    assert_eq!(reg.get("echo"), Some(4));
    assert_eq!(reg.names(), vec!["echo".to_owned()]);
    assert!(reg.remove("echo"));
    assert!(!reg.remove("echo"));
    assert!(!reg.activate("echo"));
}

#[test]
fn unknown_tool_is_error() {
    let err = ToolRegistry::new().resolve("nope").unwrap_err();
    assert!(err.message().contains("unknown tool"), "{}", err.to_text());
}

#[test]
fn search_ignores_case_and_looks_at_tags() {
    let mut reg = ToolRegistry::new();
    reg.insert(echo(), vec!["Parrot".into()], true, 0);
    reg.register(
        ToolDef::new("loud".into(), "Echo loudly".into(), Json::empty_object()),
        1,
    );
    assert_eq!(reg.search("PARROT").len(), 1);
    assert_eq!(reg.search("ECHO").len(), 1);
    assert!(reg.search("nothing").is_empty());
}

#[test]
fn an_activated_tool_is_offered_and_not_surfaced_again() {
    let mut reg = ToolRegistry::new();
    reg.insert(echo(), Vec::new(), true, 0);
    reg.insert(
        ToolDef::new("loud".into(), "Echo loudly".into(), Json::empty_object()),
        Vec::new(),
        true,
        1,
    );
    assert_eq!(reg.search("echo").len(), 2);
    assert!(reg.activate("echo"));
    let hits = reg.search("echo");
    assert_eq!(hits, vec![("loud".to_owned(), "Echo loudly".to_owned())]);
    assert_eq!(reg.active_defs()[0].name, "echo");
    assert!(reg.has_deferred());
}

#[test]
fn parses_stdio_and_http_config() {
    let cfg = McpConfig::from_json(
        r#"{ "mcpServers": {
            "fs": { "type": "stdio", "command": "mcp-fs", "args": ["--root","/tmp"] },
            "gh": { "type": "http", "url": "https://mcp.example.com", "headers": { "Authorization": "Bearer x" } }
        } }"#,
    )
    .ok()
    .expect("parse");
    assert_eq!(cfg.servers.len(), 2);
    assert!(matches!(cfg.servers.server("fs"), Some(McpServer::Stdio { .. })));
    assert!(matches!(cfg.servers.server("gh"), Some(McpServer::Http { .. })));
}

#[test]
fn a_config_may_be_listed() {
    let cfg = McpConfig::from_json(
        r#"[{ "fs": ["stdio", "mcp-fs", ["--root"]], "gh": ["http", "https://mcp.example.com"] }]"#,
    )
    .ok()
    .expect("parse");
    assert!(matches!(
        cfg.servers.server("fs"),
        Some(McpServer::Stdio { command, args, .. }) if command == "mcp-fs" && args.len() == 1
    ));
    assert!(matches!(
        cfg.servers.server("gh"),
        Some(McpServer::Http { url, .. }) if url == "https://mcp.example.com"
    ));
}

#[test]
fn a_config_of_another_shape_is_an_error() {
    assert!(matches!(McpConfig::from_json("{"), Err(AgentError::Mcp(_))));
    for (config, fault) in [
        ("{}", "missing field `mcpServers`"),
        (r#"{ "mcpServers": 1 }"#, "invalid type of field `mcpServers`"),
        (r#"{ "mcpServers": { "x": {} } }"#, "missing field `type`"),
        (
            r#"{ "mcpServers": { "x": { "type": "stdio" } } }"#,
            "missing field `command`",
        ),
        (
            r#"{ "mcpServers": { "x": { "type": "stdio", "command": "c", "args": 1 } } }"#,
            "invalid type of field `args`",
        ),
        (
            r#"{ "mcpServers": { "x": { "type": "stdio", "command": "c", "env": 1 } } }"#,
            "invalid type of field `env`",
        ),
        (
            r#"{ "mcpServers": { "x": { "type": "sse", "url": 1 } } }"#,
            "invalid type of field `url`",
        ),
        (
            r#"{ "mcpServers": { "x": { "type": "http", "url": "u", "headers": [] } } }"#,
            "invalid type of field `headers`",
        ),
        ("[]", "missing field `mcpServers`"),
        ("[{}, {}]", "invalid length of the configuration"),
        (r#"[{ "x": ["stdio"] }]"#, "missing field `command`"),
        (
            r#"[{ "x": ["sse", "u", {}, 1] }]"#,
            "invalid length of the server definition",
        ),
        (
            r#"{ "mcpServers": { "x": { "type": "pipe" } } }"#,
            "unknown variant `pipe`, expected one of `stdio`, `http`, `sse`",
        ),
    ] {
        assert!(
            matches!(
                McpConfig::from_json(config),
                Err(AgentError::Mcp(m)) if m == format!("invalid mcp config: {fault}")
            ),
            "{config}"
        );
    }
}

#[test]
fn expands_env_default_and_unset_placeholders() {
    let headers = TextMap::from_pairs(vec![(
        "X".to_owned(),
        "v-${STAKIT_UNSET_VAR}".to_owned(),
    )]);
    let server = McpServer::Http {
        url: "https://x/${STAKIT_UNSET_VAR:-fallback}".into(),
        headers,
    }
    .expand_env(&TextMap::from_pairs(Vec::new()));
    let McpServer::Http { url, headers } = server else {
        panic!("expected http");
    };
    assert_eq!(url, "https://x/fallback");
    assert_eq!(headers.value("X").unwrap(), "v-");
}

#[test]
fn placeholders_take_set_values() {
    let env = TextMap::from_pairs(vec![("HOME".to_owned(), "/h".to_owned())]);
    assert_eq!(expand("${HOME}/x${HOME:-y}", &env), "/h/x/h");
    assert_eq!(expand("plain", &env), "plain");
    assert_eq!(expand("${HOME", &env), "${HOME");
}

#[test]
fn tool_set_namespaces_and_proxies_calls() {
    let set = McpToolSet {
        server: "web".into(),
        tools: vec![McpTool {
            name: "search".into(),
            description: "search the web".into(),
            input_schema: Json::object1("type", Json::text("object")),
        }],
    };
    assert_eq!(set.tool_names(), vec!["mcp__web__search".to_owned()]);
    let tools = set.into_tools();
    assert_eq!(tools[0].0.name, "mcp__web__search");
    assert_eq!(tools[0].1, "search");
    assert_eq!(namespaced_name("a", "b"), "mcp__a__b");
}
