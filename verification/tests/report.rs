use tool_glass::ir::{ClientSnapshot, Finding, ScanResult, ServerRef};
use tool_glass::report::markdown::render_scan_md;
use tool_glass::report::terminal::{render_live_terminal, render_scan_terminal};
use tool_glass::report::sarif::build;
use tool_glass::report::INFORMATION_URI;
use tool_glass::report::{by_severity, report_kind, severity_counts, severity_rank, ReportKind};

fn finding(rule_id: &str, severity: &str) -> Finding {
    Finding {
        rule_id: rule_id.into(),
        severity: severity.into(),
        category: "test".into(),
        client: "codex".into(),
        server: "srv".into(),
        message: format!("{rule_id} message"),
        evidence: "evidence".into(),
        confidence_pct: 50,
    }
}

#[test]
fn scan_markdown_includes_summary_and_findings_table() {
    let result = ScanResult {
        clients: vec![ClientSnapshot {
            client: "codex".into(),
            detected: true,
            servers: vec![ServerRef {
                client: "codex".into(),
                name: "sink".into(),
                command: Some("uvx sink".into()),
                approval: "auto".into(),
                ..Default::default()
            }],
            ..Default::default()
        }],
        findings: vec![Finding {
            rule_id: "TG-001".into(),
            severity: "medium".into(),
            category: "over_broad_perm".into(),
            client: "codex".into(),
            server: "sink".into(),
            message: "Tools are auto-approved.".into(),
            evidence: String::new(),
            confidence_pct: 80,
        }],
    };

    let md = render_scan_md(&result);
    assert!(md.contains("- MCP servers: 1"));
    assert!(md.contains("| TG-001 | **medium** |"));
}

#[test]
fn sarif_dedupes_rules_and_maps_levels() {
    let findings = vec![
        finding("TG-001", "medium"),
        finding("TG-001", "medium"),
        finding("TG-003", "high"),
        finding("TG-005", "low"),
    ];

    let log = build(&findings);
    assert_eq!(log.information_uri, INFORMATION_URI);
    assert_eq!(log.rules.len(), 3);
    assert_eq!(log.results[0].level, "warning");
    assert_eq!(log.results[3].level, "note");
}

#[test]
fn sarif_rules_follow_first_use_and_high_is_error() {
    let findings = vec![
        finding("TG-005", "low"),
        finding("TG-003", "high"),
        finding("TG-005", "low"),
    ];
    let log = build(&findings);
    let ids: Vec<&str> = log.rules.iter().map(|r| r.id.as_str()).collect();
    assert_eq!(ids, ["TG-005", "TG-003"]);
    assert_eq!(log.results.len(), 3);
    assert_eq!(log.results[1].level, "error");
    assert_eq!(log.results[1].rule_id, "TG-003");
    assert_eq!(log.results[0].fully_qualified_name, "codex/srv");
    // One fingerprint per distinct finding content.
    assert_eq!(log.results[0].fingerprint, log.results[2].fingerprint);
    assert_ne!(log.results[0].fingerprint, log.results[1].fingerprint);
    assert_eq!(log.results[0].fingerprint.len(), 16);
}

#[test]
fn severity_order_keeps_every_finding() {
    let findings = vec![
        finding("TG-005", "low"),
        finding("TG-001", "medium"),
        finding("TG-003", "high"),
        finding("TG-999", "info"),
        finding("TG-004", "high"),
    ];
    let sorted = by_severity(&findings);
    let ids: Vec<&str> = sorted.iter().map(|f| f.rule_id.as_str()).collect();
    assert_eq!(ids, ["TG-003", "TG-004", "TG-001", "TG-005", "TG-999"]);
    assert_eq!(severity_rank("high"), 0);
    assert_eq!(severity_rank("medium"), 1);
    assert_eq!(severity_rank("low"), 2);
    assert_eq!(severity_rank("info"), 3);
    assert_eq!(severity_rank("other"), 9);
}

#[test]
fn severity_counts_by_level() {
    let result = ScanResult {
        clients: vec![],
        findings: vec![
            finding("TG-003", "high"),
            finding("TG-001", "medium"),
            finding("TG-004", "high"),
            finding("TG-005", "low"),
        ],
    };
    assert_eq!(severity_counts(&result), (2, 1, 1));
}

#[test]
fn report_formats() {
    assert_eq!(report_kind("terminal"), Ok(ReportKind::Terminal));
    assert_eq!(report_kind("md"), Ok(ReportKind::Markdown));
    assert_eq!(report_kind("markdown"), Ok(ReportKind::Markdown));
    assert_eq!(report_kind("html"), Ok(ReportKind::Html));
    assert_eq!(report_kind("json"), Ok(ReportKind::Json));
    assert_eq!(report_kind("sarif"), Ok(ReportKind::Sarif));
    assert_eq!(
        report_kind("pdf"),
        Err("unsupported report format \"pdf\"; use terminal|md|html|json|sarif".to_string())
    );
}

#[test]
fn html_escapes_and_markdown_cells_stay_on_one_line() {
    let mut f = finding("TG-001", "medium");
    f.message = "a|b\nc <script>'x'</script>".into();
    let result = ScanResult {
        clients: vec![ClientSnapshot {
            client: "codex".into(),
            detected: true,
            servers: vec![ServerRef {
                client: "codex".into(),
                name: "<b>srv</b>".into(),
                ..Default::default()
            }],
            ..Default::default()
        }],
        findings: vec![f],
    };
    let html = tool_glass::report::html::render_scan_html(&result);
    assert!(html.contains("&lt;b&gt;srv&lt;/b&gt;"));
    assert!(!html.contains("<b>srv"));
    assert!(!html.contains("<script>"));
    assert!(html.contains("&#39;x&#39;"));
    let md = render_scan_md(&result);
    assert!(md.contains("a\\|b<br>c"));
}

#[test]
fn terminal_reports_hold_their_tables() {
    let result = ScanResult {
        clients: vec![ClientSnapshot {
            client: "codex".into(),
            detected: true,
            servers: vec![ServerRef {
                client: "codex".into(),
                name: "sink".into(),
                command: Some("uvx".into()),
                ..Default::default()
            }],
            ..Default::default()
        }],
        findings: vec![finding("TG-003", "high")],
    };
    let out = render_scan_terminal(&result, Some(120));
    assert!(out.contains("Findings (1)"));
    assert!(out.contains("TG-003"));
    assert!(out.contains("command / url"));
    assert!(out.contains("sink"));
    // No width: the same tables, drawn without a limit.
    assert_eq!(render_scan_terminal(&result, None), render_scan_terminal(&result, None));
    let live = render_live_terminal(&[], &result.findings, &[], Some(100));
    assert!(live.contains("Poisoning findings (1)"));
    assert!(live.contains("TG-003 message"));
}
