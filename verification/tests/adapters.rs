use tool_glass::adapters::{all, claude_code, cline, codex, cursor, goose, vscode};
use tool_glass::adapters::{client_format, read_config, ClientKind, ConfigRead, ConfigSource};
use tool_glass::config::ConfigFormat;
use tool_glass::config::ConfigValue;

fn text(s: &str) -> ConfigValue {
    ConfigValue::Str(s.into())
}

fn list(items: Vec<ConfigValue>) -> ConfigValue {
    ConfigValue::List(items)
}

fn table(entries: Vec<(&str, ConfigValue)>) -> ConfigValue {
    ConfigValue::Table(entries.into_iter().map(|(k, v)| (Some(k.to_string()), v)).collect())
}

fn parsed(path: &str, project: bool, doc: ConfigValue) -> ConfigSource {
    ConfigSource { path: path.into(), project, read: ConfigRead::Parsed(doc) }
}

fn missing(path: &str, project: bool) -> ConfigSource {
    ConfigSource { path: path.into(), project, read: ConfigRead::Missing }
}

fn malformed(path: &str, project: bool, err: &str) -> ConfigSource {
    ConfigSource { path: path.into(), project, read: ConfigRead::Malformed(err.into()) }
}

#[test]
fn parses_cursor_mcp_servers() {
    let doc = table(vec![(
        "mcpServers",
        table(vec![
            (
                "docs",
                table(vec![
                    ("args", list(vec![text("-y"), text("@demo/docs-mcp")])),
                    ("command", text("npx")),
                    ("env", table(vec![("DOCS_TOKEN", text("redacted"))])),
                ]),
            ),
            (
                "remote",
                table(vec![
                    ("disabled", ConfigValue::Bool(true)),
                    ("url", text("https://cursor.example/mcp")),
                ]),
            ),
        ]),
    )]);

    let snapshot = cursor::snapshot(&parsed("/home/u/.cursor/mcp.json", false, doc), false);

    assert!(snapshot.detected);
    assert_eq!(snapshot.client, "cursor");
    assert_eq!(snapshot.servers.len(), 2);
    let docs = snapshot.servers.iter().find(|server| server.name == "docs").unwrap();
    assert_eq!(docs.transport, "stdio");
    assert_eq!(docs.command.as_deref(), Some("npx"));
    assert_eq!(docs.args, ["-y", "@demo/docs-mcp"]);
    assert_eq!(docs.env_keys, ["DOCS_TOKEN"]);
    assert!(docs.env_values.is_empty());
    assert_eq!(docs.scope, "user");

    let remote = snapshot.servers.iter().find(|server| server.name == "remote").unwrap();
    assert_eq!(remote.transport, "http");
    assert_eq!(remote.url.as_deref(), Some("https://cursor.example/mcp"));
    assert_eq!(remote.approval, "disabled");
    assert!(remote.disabled);
}

#[test]
fn clients_in_scan_order() {
    let names: Vec<&str> = all().iter().map(|(n, _)| *n).collect();
    assert_eq!(names, ["claude_code", "cursor", "codex", "vscode", "cline", "goose"]);
    assert_eq!(all()[5].1, ClientKind::Goose);
    assert_eq!(ClientKind::Vscode.name(), "vscode");
}

#[test]
fn missing_config_is_not_detected() {
    let snap = cursor::snapshot(&missing("/h/.cursor/mcp.json", false), false);
    assert_eq!(snap.client, "cursor");
    assert!(!snap.detected);
    assert!(snap.config_files.is_empty());
    assert!(snap.servers.is_empty());
    assert!(snap.notes.is_empty());
}

#[test]
fn malformed_config_is_detected_with_a_note() {
    let snap = cline::snapshot(&malformed("/h/.cline/mcp.json", false, "expected value at line 1"), false);
    assert!(snap.detected);
    assert_eq!(snap.config_files, ["/h/.cline/mcp.json"]);
    assert!(snap.servers.is_empty());
    assert_eq!(snap.notes, ["failed to parse /h/.cline/mcp.json: expected value at line 1"]);
}

#[test]
fn cline_auto_approve_and_transport_type() {
    let doc = table(vec![(
        "mcpServers",
        table(vec![
            (
                "a",
                table(vec![
                    ("autoApprove", list(vec![text("read")])),
                    ("command", text("node")),
                    ("transportType", text("HTTP")),
                ]),
            ),
            ("b", table(vec![("autoApprove", list(vec![])), ("command", text("node"))])),
            ("c", table(vec![("autoApprove", list(vec![text("x")])), ("disabled", ConfigValue::Bool(true))])),
            ("skipped", text("not a table")),
        ]),
    )]);
    let snap = cline::snapshot(&parsed("/h/.cline/mcp.json", false, doc), false);
    assert_eq!(snap.servers.len(), 3);
    assert_eq!(snap.servers[0].transport, "http");
    assert_eq!(snap.servers[0].approval, "auto");
    assert_eq!(snap.servers[1].transport, "stdio");
    assert_eq!(snap.servers[1].approval, "on-request");
    assert_eq!(snap.servers[2].approval, "disabled");
    assert_eq!(snap.servers[2].raw_source, "/h/.cline/mcp.json");
}

#[test]
fn vscode_servers_key_and_fallback() {
    let doc = table(vec![(
        "servers",
        table(vec![
            ("gh", table(vec![("type", text("http")), ("command", text("x"))])),
            ("local", table(vec![("command", text("uvx")), ("env", table(vec![("B", text("2")), ("A", ConfigValue::Number("1".into()))]))])),
        ]),
    )]);
    let snap = vscode::snapshot(&parsed("/p/.vscode/mcp.json", true, doc), true);
    assert_eq!(snap.servers.len(), 2);
    assert_eq!(snap.servers[0].transport, "http");
    assert_eq!(snap.servers[0].scope, "project");
    assert_eq!(snap.servers[0].raw_source, "");
    assert_eq!(snap.servers[1].transport, "stdio");
    assert_eq!(snap.servers[1].env_keys, ["A", "B"]);
    assert_eq!(snap.servers[1].env_values, [("B".to_string(), "2".to_string())]);

    let doc = table(vec![
        ("servers", text("oops")),
        ("mcpServers", table(vec![("m", table(vec![("url", text("https://m"))]))])),
    ]);
    let snap = vscode::snapshot(&parsed("/p/.vscode/mcp.json", true, doc), false);
    assert_eq!(snap.servers.len(), 1);
    assert_eq!(snap.servers[0].name, "m");
    assert_eq!(snap.servers[0].transport, "http");
    assert_eq!(snap.servers[0].approval, "on-request");
}

#[test]
fn codex_reads_both_files_in_order() {
    let user = table(vec![(
        "mcp_servers",
        table(vec![(
            "gh",
            table(vec![("command", text("gh-mcp")), ("url", text("https://ignored")), ("env", table(vec![("Z", text("z")), ("TOKEN", text("t"))]))]),
        )]),
    )]);
    let project = table(vec![("mcp_servers", table(vec![("noop", table(vec![]))]))]);
    let srcs = vec![parsed("/h/.codex/config.toml", false, user), parsed("/p/.codex/config.toml", true, project)];
    let snap = codex::snapshot(&srcs, true);
    assert!(snap.detected);
    assert_eq!(snap.client, "codex");
    assert_eq!(snap.config_files, ["/h/.codex/config.toml", "/p/.codex/config.toml"]);
    assert_eq!(snap.servers.len(), 2);
    assert_eq!(snap.servers[0].scope, "user");
    assert_eq!(snap.servers[0].transport, "stdio");
    assert_eq!(snap.servers[0].url, None);
    assert_eq!(snap.servers[0].env_keys, ["TOKEN", "Z"]);
    assert_eq!(
        snap.servers[0].env_values,
        [("TOKEN".to_string(), "t".to_string()), ("Z".to_string(), "z".to_string())]
    );
    assert_eq!(snap.servers[1].scope, "project");
    assert_eq!(snap.servers[1].transport, "unknown");
}

#[test]
fn codex_malformed_file_is_noted_not_listed() {
    let srcs = vec![malformed("/h/.codex/config.toml", false, "bad toml"), missing("/p/.codex/config.toml", true)];
    let snap = codex::snapshot(&srcs, true);
    assert!(!snap.detected);
    assert!(snap.config_files.is_empty());
    assert_eq!(snap.notes, ["failed to parse /h/.codex/config.toml: bad toml"]);
}

#[test]
fn claude_code_project_and_user_files() {
    let project = table(vec![("mcpServers", table(vec![("p", table(vec![("command", text("run"))]))]))]);
    let user = table(vec![("mcpServers", table(vec![("u", table(vec![("url", text("https://u")), ("disabled", ConfigValue::Bool(true))]))]))]);
    let srcs = vec![
        parsed("/p/.mcp.json", true, project),
        missing("/h/.mcp.json", false),
        parsed("/h/user-config.json", false, user),
    ];
    let snap = claude_code::snapshot(&srcs, false);
    assert_eq!(snap.client, "claude_code");
    assert!(snap.detected);
    assert_eq!(snap.config_files, ["/p/.mcp.json", "/h/user-config.json"]);
    assert_eq!(snap.servers[0].scope, "project");
    assert_eq!(snap.servers[0].transport, "stdio");
    assert_eq!(snap.servers[1].scope, "user");
    assert_eq!(snap.servers[1].transport, "http");
    assert_eq!(snap.servers[1].approval, "disabled");
}

#[test]
fn goose_servers_and_extensions() {
    let doc = table(vec![
        ("mcpServers", table(vec![("a", table(vec![("command", text("x")), ("enabled", ConfigValue::Bool(false))]))])),
        ("mcp_servers", table(vec![("b", table(vec![("url", text("https://b"))]))])),
        (
            "extensions",
            list(vec![
                table(vec![("name", text("ext")), ("command", text("y"))]),
                table(vec![("id", text("by-id"))]),
                table(vec![("enabled", ConfigValue::Bool(true))]),
                text("not a table"),
            ]),
        ),
    ]);
    let snap = goose::snapshot(&parsed("/h/.config/goose/config.yaml", false, doc), false);
    let names: Vec<&str> = snap.servers.iter().map(|s| s.name.as_str()).collect();
    assert_eq!(names, ["a", "b", "ext", "by-id", "unnamed"]);
    assert!(snap.servers.iter().all(|s| s.client == "goose" && s.scope == "user"));
    assert!(snap.servers[0].disabled);
    assert_eq!(snap.servers[0].approval, "disabled");
    assert_eq!(snap.servers[1].transport, "http");
    assert_eq!(snap.servers[3].transport, "unknown");
    assert!(!snap.servers[4].disabled);
    assert_eq!(snap.notes, ["goose config schema varies by version; parsed best-effort (experimental)"]);
}

#[test]
fn config_text_is_parsed_by_format() {
    assert_eq!(client_format(ClientKind::Codex), ConfigFormat::Toml);
    assert_eq!(client_format(ClientKind::Goose), ConfigFormat::Yaml);
    assert_eq!(client_format(ClientKind::Cursor), ConfigFormat::Json);
    assert!(matches!(read_config(ConfigFormat::Json, None), ConfigRead::Missing));

    let json = r#"{"mcpServers": {"docs": {"command": "npx", "env": {"DOCS_TOKEN": "redacted"}}}}"#;
    let src = ConfigSource { path: "/h/.cursor/mcp.json".into(), project: false, read: read_config(ConfigFormat::Json, Some(json)) };
    let snap = cursor::snapshot(&src, false);
    assert_eq!(snap.servers.len(), 1);
    assert_eq!(snap.servers[0].command.as_deref(), Some("npx"));
    assert_eq!(snap.servers[0].env_keys, ["DOCS_TOKEN"]);
    assert!(snap.servers[0].env_values.is_empty());
    let with_values = cursor::snapshot(&src, true);
    assert_eq!(with_values.servers[0].env_values, [("DOCS_TOKEN".to_string(), "redacted".to_string())]);

    let toml = "[mcp_servers.gh]\ncommand = \"gh-mcp\"\nargs = [\"serve\", 3]\n";
    let srcs = vec![ConfigSource { path: "/h/.codex/config.toml".into(), project: false, read: read_config(ConfigFormat::Toml, Some(toml)) }];
    let snap = codex::snapshot(&srcs, false);
    assert_eq!(snap.servers[0].name, "gh");
    assert_eq!(snap.servers[0].args, ["serve"]);

    let yaml = "extensions:\n  - name: dev\n    cmd: x\n    command: uvx\n";
    let snap = goose::snapshot(
        &ConfigSource { path: "/h/c.yaml".into(), project: false, read: read_config(ConfigFormat::Yaml, Some(yaml)) },
        false,
    );
    assert_eq!(snap.servers[0].name, "dev");
    assert_eq!(snap.servers[0].transport, "stdio");

    match read_config(ConfigFormat::Json, Some("{oops")) {
        ConfigRead::Malformed(e) => assert!(!e.is_empty()),
        _ => panic!("malformed JSON"),
    }
}
