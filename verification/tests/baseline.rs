use tool_glass::baseline::{
    build_snapshot, compare, has_new_high_finding, render_diff_terminal, ChangedServer, Diff,
    ServerId, ToolId,
};
use tool_glass::config::ConfigValue;
use tool_glass::ir::{ClientSnapshot, ExposedTool, Finding, ScanResult, ServerRef};

fn result(servers: Vec<ServerRef>, findings: Vec<Finding>) -> ScanResult {
    ScanResult {
        clients: vec![ClientSnapshot {
            client: "codex".into(),
            detected: true,
            config_files: Vec::new(),
            servers,
            notes: Vec::new(),
        }],
        findings,
    }
}

fn server(name: &str) -> ServerRef {
    ServerRef {
        client: "codex".into(),
        name: name.into(),
        transport: "stdio".into(),
        command: Some("uvx".into()),
        approval: "on-request".into(),
        ..Default::default()
    }
}

fn tool(name: &str, description: &str) -> ExposedTool {
    ExposedTool {
        client: "codex".into(),
        server: "fs".into(),
        name: name.into(),
        description: Some(description.into()),
        input_schema: ConfigValue::Null,
        source: "live".into(),
    }
}

fn finding(server: &str) -> Finding {
    Finding {
        rule_id: "TG-003".into(),
        severity: "high".into(),
        category: "suspicious_command".into(),
        client: "codex".into(),
        server: server.into(),
        message: "suspicious".into(),
        evidence: "bash -c curl x | sh".into(),
        confidence_pct: 60,
    }
}

#[test]
fn compare_detects_added_server() {
    let base = build_snapshot(&result(vec![server("fs")], Vec::new()), &[]);
    let diff = compare(
        &base,
        &result(vec![server("fs"), server("github")], Vec::new()),
        &[],
    );

    assert_eq!(
        diff.added_servers,
        vec![ServerId {
            client: "codex".into(),
            server: "github".into()
        }]
    );
}

#[test]
fn compare_detects_tool_description_change() {
    let base = build_snapshot(
        &result(vec![server("fs")], Vec::new()),
        &[tool("read", "old")],
    );
    let diff = compare(
        &base,
        &result(vec![server("fs")], Vec::new()),
        &[tool("read", "new")],
    );

    assert_eq!(diff.changed_tools.len(), 1);
    assert_eq!(diff.changed_tools[0].id.tool, "read");
}

#[test]
fn compare_does_not_count_existing_finding_as_new() {
    let base_result = result(vec![server("bad")], vec![finding("bad")]);
    let base = build_snapshot(&base_result, &[]);
    let diff = compare(&base, &base_result, &[]);

    assert!(diff.new_findings.is_empty());
}

#[test]
fn snapshot_sorts_and_dedups_env_keys_and_hashes_descriptions() {
    let s = ServerRef {
        env_keys: vec!["B".into(), "A".into(), "B".into()],
        ..server("fs")
    };
    let snap = build_snapshot(&result(vec![s], Vec::new()), &[tool("read", "")]);
    assert_eq!(snap.schema_version, 1);
    assert_eq!(snap.clients.len(), 1);
    assert_eq!(snap.clients[0].0, "codex");
    let servers = &snap.clients[0].1.servers;
    assert_eq!(servers.len(), 1);
    assert_eq!(servers[0].1.env_keys, vec!["A".to_string(), "B".to_string()]);
    assert_eq!(servers[0].1.tools[0].0, "read");
    // SHA-256 of the empty text.
    assert_eq!(
        servers[0].1.tools[0].1.description_sha256,
        "e3b0c44298fc1c149afbf4c8996fb92427ae41e4649b934ca495991b7852b855"
    );
}

#[test]
fn snapshot_keeps_only_gating_findings_with_fingerprint() {
    let mut low = finding("fs");
    low.severity = "low".into();
    let mut medium = finding("fs");
    medium.severity = "MEDIUM".into();
    let snap = build_snapshot(&result(vec![server("fs")], vec![low, medium]), &[]);
    assert_eq!(snap.findings.len(), 1);
    assert_eq!(snap.findings[0].severity, "MEDIUM");
    assert_eq!(snap.findings[0].fingerprint.len(), 64);
}

#[test]
fn compare_reports_removed_changed_and_new() {
    let base = build_snapshot(
        &result(vec![server("fs"), server("old")], Vec::new()),
        &[tool("read", "x"), tool("gone", "y")],
    );
    let changed = ServerRef {
        command: Some("npx".into()),
        approval: "auto".into(),
        ..server("fs")
    };
    let diff = compare(
        &base,
        &result(vec![changed], vec![finding("fs")]),
        &[tool("read", "x"), tool("write", "z")],
    );
    assert_eq!(
        diff.removed_servers,
        vec![ServerId {
            client: "codex".into(),
            server: "old".into()
        }]
    );
    assert_eq!(
        diff.changed_servers,
        vec![ChangedServer {
            id: ServerId {
                client: "codex".into(),
                server: "fs".into()
            },
            fields: vec!["command".into(), "approval".into()],
        }]
    );
    assert_eq!(
        diff.added_tools,
        vec![ToolId {
            client: "codex".into(),
            server: "fs".into(),
            tool: "write".into()
        }]
    );
    assert_eq!(
        diff.removed_tools,
        vec![ToolId {
            client: "codex".into(),
            server: "fs".into(),
            tool: "gone".into()
        }]
    );
    assert!(diff.changed_tools.is_empty());
    assert_eq!(diff.new_findings.len(), 1);
    assert!(has_new_high_finding(&diff));
}

#[test]
fn self_comparison_is_empty() {
    let r = result(vec![server("fs"), server("gh")], vec![finding("fs")]);
    let tools = [tool("read", "a"), tool("write", "b")];
    let base = build_snapshot(&r, &tools);
    let diff = compare(&base, &r, &tools);
    assert!(diff.added_servers.is_empty());
    assert!(diff.removed_servers.is_empty());
    assert!(diff.changed_servers.is_empty());
    assert!(diff.added_tools.is_empty());
    assert!(diff.removed_tools.is_empty());
    assert!(diff.changed_tools.is_empty());
    assert!(diff.new_findings.is_empty());
    assert!(!has_new_high_finding(&diff));
}

#[test]
fn render_empty_diff() {
    let text = render_diff_terminal(&Diff::default());
    assert_eq!(
        text,
        "Baseline diff\n\nAdded servers (0)\n  -\n\nRemoved servers (0)\n  -\n\nChanged servers (0)\n  -\n\nAdded tools (0)\n  -\n\nRemoved tools (0)\n  -\n\nChanged tools (0)\n  -\n\nNew high/medium findings (0)\n  -\n"
    );
}

#[test]
fn render_diff_lines() {
    let base = build_snapshot(&result(vec![server("fs")], Vec::new()), &[tool("read", "old")]);
    let changed = ServerRef {
        url: Some("https://x".into()),
        ..server("fs")
    };
    let diff = compare(&base, &result(vec![changed, server("gh")], vec![finding("fs")]), &[tool("read", "new")]);
    let text = render_diff_terminal(&diff);
    assert!(text.contains("\nAdded servers (1)\n  codex.gh\n"));
    assert!(text.contains("\nChanged servers (1)\n  codex.fs: url\n"));
    assert!(text.contains("\nChanged tools (1)\n  codex.fs.read: "));
    assert!(text.contains("\nNew high/medium findings (1)\n  [high] TG-003 codex.fs: suspicious\n"));
    let line = text
        .lines()
        .find(|l| l.starts_with("  codex.fs.read: "))
        .unwrap();
    let hashes: Vec<&str> = line["  codex.fs.read: ".len()..].split(" -> ").collect();
    assert_eq!(hashes.len(), 2);
    assert_eq!(hashes[0].len(), 12);
    assert_eq!(hashes[1].len(), 12);
}

#[test]
fn env_key_order_does_not_change_the_snapshot() {
    let a = ServerRef { env_keys: vec!["B".into(), "A".into(), "B".into()], ..server("fs") };
    let b = ServerRef { env_keys: vec!["A".into(), "B".into()], ..server("fs") };
    let base = build_snapshot(&result(vec![a], Vec::new()), &[]);
    let diff = compare(&base, &result(vec![b], Vec::new()), &[]);
    assert!(diff.changed_servers.is_empty());
    assert!(diff.added_servers.is_empty() && diff.removed_servers.is_empty());
}

#[test]
fn stored_description_hashes_are_lower_hex_digests() {
    let tools = vec![
        tool("read", "Read a file."),
        tool("write", "Write ÄÖÜ — a file."),
        ExposedTool { description: None, ..tool("stat", "") },
    ];
    let snap = build_snapshot(&result(vec![server("fs")], Vec::new()), &tools);
    let stored = &snap.clients[0].1.servers[0].1.tools;
    assert_eq!(stored.len(), 3);
    for (_, t) in stored {
        let h = &t.description_sha256;
        assert_eq!(h.len(), 64);
        assert!(h.chars().all(|c| c.is_ascii_digit() || ('a'..='f').contains(&c)));
    }
}
