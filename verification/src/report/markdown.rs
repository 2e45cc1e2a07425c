//! Markdown reports.

use vstd::prelude::*;

use crate::ir::{
    ClientSnapshotView, ExposedTool, ExposedToolView, Finding, FindingView, FlowEdge, FlowEdgeView,
    ScanResult, ScanResultView, ServerRef, ServerRefView,
};
use crate::report::{
    by_severity, by_severity_spec, detected_client_count, detected_count_spec, next_step_spec,
    next_step_tip, scan_summary_line, scan_summary_spec, scanned_clients_line,
    scanned_clients_spec, server_count, server_count_spec,
};
use crate::text::{
    cat, decimal, decimal_string, join, join_spec, lemma_replace_char_contains, owned, replace_char,
    replace_char_spec,
};

verus! {

/// A table cell: pipes escaped, line breaks as `<br>`.
pub open spec fn cell_spec(v: Seq<char>) -> Seq<char> {
    replace_char_spec(replace_char_spec(v, '|', "\\|"@), '\n', "<br>"@)
}

/// Law: a table cell stays on one line, whatever the text put in it.
pub proof fn lemma_cell_is_one_line(v: Seq<char>)
    ensures
        !cell_spec(v).contains('\n'),
{
    reveal_strlit("<br>");
    reveal_strlit("\\|");
    let br = "<br>"@;
    if br.contains('\n') {
        let k = choose|k: int| 0 <= k < br.len() && br[k] == '\n';
    }
    lemma_replace_char_contains(replace_char_spec(v, '|', "\\|"@), '\n', br, '\n');
}

/// Text inside backticks: backticks escaped.
pub open spec fn code_spec(v: Seq<char>) -> Seq<char> {
    replace_char_spec(v, '`', "\\`"@)
}

/// The command of a server, else its URL, else "-".
pub open spec fn command_or_url(s: ServerRefView) -> Seq<char> {
    match s.command {
        Some(c) => c,
        None => match s.url {
            Some(u) => u,
            None => "-"@,
        },
    }
}

/// The env keys of a server joined by ", ", or "-".
pub open spec fn env_list(s: ServerRefView) -> Seq<char> {
    if s.env_keys.len() == 0 {
        "-"@
    } else {
        join_spec(s.env_keys, ", "@)
    }
}

pub open spec fn surface_row(client: Seq<char>, s: ServerRefView) -> Seq<char> {
    "| "@ + cell_spec(client) + " | "@ + cell_spec(s.name) + " | "@ + cell_spec(s.scope) + " | "@
        + cell_spec(s.transport) + " | `"@ + code_spec(command_or_url(s)) + "` | "@ + cell_spec(
        s.approval,
    ) + " | "@ + cell_spec(env_list(s)) + " |"@
}

pub open spec fn surface_rows_in(client: Seq<char>, ss: Seq<ServerRefView>) -> Seq<Seq<char>>
    decreases ss.len(),
{
    if ss.len() == 0 {
        Seq::empty()
    } else {
        surface_rows_in(client, ss.drop_last()).push(surface_row(client, ss.last()))
    }
}

pub open spec fn surface_rows(cs: Seq<ClientSnapshotView>) -> Seq<Seq<char>>
    decreases cs.len(),
{
    if cs.len() == 0 {
        Seq::empty()
    } else {
        surface_rows(cs.drop_last()) + surface_rows_in(cs.last().client, cs.last().servers)
    }
}

pub open spec fn scan_finding_row(f: FindingView) -> Seq<char> {
    "| "@ + cell_spec(f.rule_id) + " | **"@ + cell_spec(f.severity) + "** | "@ + cell_spec(f.category)
        + " | "@ + cell_spec(f.client) + "."@ + cell_spec(f.server) + " | "@ + cell_spec(f.message)
        + " |"@
}

pub open spec fn scan_finding_rows(fs: Seq<FindingView>) -> Seq<Seq<char>>
    decreases fs.len(),
{
    if fs.len() == 0 {
        Seq::empty()
    } else {
        scan_finding_rows(fs.drop_last()).push(scan_finding_row(fs.last()))
    }
}

/// The lines of a scan report.
pub open spec fn scan_md_lines(r: ScanResultView) -> Seq<Seq<char>> {
    seq![
        "# ToolGlass — Agent Visible Surface\n"@,
        "> Generated locally. Nothing was sent anywhere. No MCP server was executed.\n"@,
        "## Summary\n"@,
        "- Clients: "@ + decimal(r.clients.len()) + " ("@ + decimal(detected_count_spec(r.clients))
            + " detected)"@,
        "- MCP servers: "@ + decimal(server_count_spec(r.clients)),
        "- Findings: "@ + decimal(r.findings.len()) + "\n"@,
        "## Agent Visible Surface\n"@,
        "| client | server | scope | transport | command / url | approval | env keys |"@,
        "|---|---|---|---|---|---|---|"@,
    ] + surface_rows(r.clients) + seq![
        "\n"@ + scan_summary_spec(r),
        scanned_clients_spec(r),
        "\n## Findings\n"@,
    ] + (if r.findings.len() == 0 {
        seq!["No findings on the config surface."@]
    } else {
        seq!["| rule | sev | category | client.server | message |"@, "|---|---|---|---|---|"@]
            + scan_finding_rows(by_severity_spec(r.findings))
    }) + seq!["\n"@ + next_step_spec(r)]
}

/// The Markdown scan report.
pub open spec fn scan_md_spec(r: ScanResultView) -> Seq<char> {
    join_spec(scan_md_lines(r), "\n"@) + "\n"@
}

pub open spec fn tool_md_lines(ts: Seq<ExposedToolView>) -> Seq<Seq<char>>
    decreases ts.len(),
{
    if ts.len() == 0 {
        Seq::empty()
    } else {
        let t = ts.last();
        tool_md_lines(ts.drop_last()) + seq![
            "### "@ + t.server + " . "@ + t.name + "\n"@,
            "> "@ + replace_char_spec(
                match t.description {
                    Some(d) => d,
                    None => "(no description)"@,
                },
                '\n',
                "\n> "@,
            ),
            Seq::empty(),
        ]
    }
}

pub open spec fn live_finding_row(f: FindingView) -> Seq<char> {
    "| "@ + cell_spec(f.rule_id) + " | **"@ + cell_spec(f.severity) + "** | "@ + cell_spec(f.category)
        + " | "@ + cell_spec(f.server) + " | "@ + cell_spec(f.message) + " | "@ + cell_spec(
        f.evidence,
    ) + " |"@
}

pub open spec fn live_finding_rows(fs: Seq<FindingView>) -> Seq<Seq<char>>
    decreases fs.len(),
{
    if fs.len() == 0 {
        Seq::empty()
    } else {
        live_finding_rows(fs.drop_last()).push(live_finding_row(fs.last()))
    }
}

pub open spec fn edge_line(e: FlowEdgeView) -> Seq<char> {
    "- `"@ + code_spec(e.src) + "` -> `"@ + code_spec(e.dst) + "` — _"@ + e.reason + "_"@
}

pub open spec fn edge_lines(es: Seq<FlowEdgeView>) -> Seq<Seq<char>>
    decreases es.len(),
{
    if es.len() == 0 {
        Seq::empty()
    } else {
        edge_lines(es.drop_last()).push(edge_line(es.last()))
    }
}

/// The lines of a live report.
pub open spec fn live_md_lines(
    ts: Seq<ExposedToolView>,
    fs: Seq<FindingView>,
    es: Seq<FlowEdgeView>,
) -> Seq<Seq<char>> {
    seq![
        "# ToolGlass — LIVE: what your agent actually sees\n"@,
        "> Tool descriptions below are exactly what the model receives. ToolGlass never called any tool.\n"@,
        "## Exposed tool descriptions\n"@,
    ] + tool_md_lines(ts) + seq!["## Poisoning findings\n"@] + (if fs.len() == 0 {
        seq!["No poisoning indicators."@]
    } else {
        seq![
            "| rule | sev | category | server | message | evidence |"@,
            "|---|---|---|---|---|---|"@,
        ] + live_finding_rows(by_severity_spec(fs))
    }) + seq!["\n## Exfiltration paths\n"@] + (if es.len() == 0 {
        seq!["None."@]
    } else {
        edge_lines(es)
    })
}

/// The Markdown live report.
pub open spec fn live_md_spec(ts: Seq<ExposedToolView>, fs: Seq<FindingView>, es: Seq<FlowEdgeView>) -> Seq<
    char,
> {
    join_spec(live_md_lines(ts, fs, es), "\n"@) + "\n"@
}

/// A table cell: pipes escaped, line breaks as `<br>`.
fn cell(value: &str) -> (r: String)
    ensures
        r@ == cell_spec(value@),
{
    let a = replace_char(value, '|', "\\|");
    replace_char(a.as_str(), '\n', "<br>")
}

/// Text inside backticks: backticks escaped.
fn code(value: &str) -> (r: String)
    ensures
        r@ == code_spec(value@),
{
    replace_char(value, '`', "\\`")
}

fn command_or_url_text(s: &ServerRef) -> (r: &str)
    ensures
        r@ == command_or_url(s@),
{
    match &s.command {
        Some(c) => c.as_str(),
        None => match &s.url {
            Some(u) => u.as_str(),
            None => "-",
        },
    }
}

fn env_list_text(s: &ServerRef) -> (r: String)
    ensures
        r@ == env_list(s@),
{
    if s.env_keys.len() == 0 {
        owned("-")
    } else {
        join(s.env_keys.as_slice(), ", ")
    }
}

fn surface_row_text(client: &str, s: &ServerRef) -> (r: String)
    ensures
        r@ == surface_row(client@, s@),
{
    let mut r = owned("| ");
    r.append(cell(client).as_str());
    r.append(" | ");
    r.append(cell(s.name.as_str()).as_str());
    r.append(" | ");
    r.append(cell(s.scope.as_str()).as_str());
    r.append(" | ");
    r.append(cell(s.transport.as_str()).as_str());
    r.append(" | `");
    r.append(code(command_or_url_text(s)).as_str());
    r.append("` | ");
    r.append(cell(s.approval.as_str()).as_str());
    r.append(" | ");
    r.append(cell(env_list_text(s).as_str()).as_str());
    r.append(" |");
    r
}

fn push_surface_rows(result: &ScanResult, out: &mut Vec<String>)
    ensures
        final(out).deep_view() == old(out).deep_view() + surface_rows(result@.clients),
{
    let ghost base = out.deep_view();
    let ghost cs = result@.clients;
    let n = result.clients.len();
    for i in 0..n
        invariant
            n == cs.len(),
            cs == result@.clients,
            out.deep_view() == base + surface_rows(cs.take(i as int)),
    {
        assert(cs.take(i + 1).drop_last() =~= cs.take(i as int));
        let c = &result.clients[i];
        let ghost mid = out.deep_view();
        let m = c.servers.len();
        for j in 0..m
            invariant
                m == c@.servers.len(),
                out.deep_view() == mid + surface_rows_in(c@.client, c@.servers.take(j as int)),
        {
            assert(c@.servers.take(j + 1).drop_last() =~= c@.servers.take(j as int));
            let ghost prev = out.deep_view();
            let row = surface_row_text(c.client.as_str(), &c.servers[j]);
            out.push(row);
            assert(out.deep_view() =~= prev.push(row@));
        }
        assert(c@.servers.take(m as int) =~= c@.servers);
        assert(out.deep_view() =~= base + surface_rows(cs.take(i + 1)));
    }
    assert(cs.take(n as int) =~= cs);
}

fn scan_finding_row_text(f: &Finding) -> (r: String)
    ensures
        r@ == scan_finding_row(f@),
{
    let mut r = owned("| ");
    r.append(cell(f.rule_id.as_str()).as_str());
    r.append(" | **");
    r.append(cell(f.severity.as_str()).as_str());
    r.append("** | ");
    r.append(cell(f.category.as_str()).as_str());
    r.append(" | ");
    r.append(cell(f.client.as_str()).as_str());
    r.append(".");
    r.append(cell(f.server.as_str()).as_str());
    r.append(" | ");
    r.append(cell(f.message.as_str()).as_str());
    r.append(" |");
    r
}

fn live_finding_row_text(f: &Finding) -> (r: String)
    ensures
        r@ == live_finding_row(f@),
{
    let mut r = owned("| ");
    r.append(cell(f.rule_id.as_str()).as_str());
    r.append(" | **");
    r.append(cell(f.severity.as_str()).as_str());
    r.append("** | ");
    r.append(cell(f.category.as_str()).as_str());
    r.append(" | ");
    r.append(cell(f.server.as_str()).as_str());
    r.append(" | ");
    r.append(cell(f.message.as_str()).as_str());
    r.append(" | ");
    r.append(cell(f.evidence.as_str()).as_str());
    r.append(" |");
    r
}

/// Renders a config scan as Markdown.
pub fn render_scan_md(result: &ScanResult) -> (out: String)
    requires
        server_count_spec(result@.clients) <= usize::MAX,
    ensures
        out@ == scan_md_spec(result@),
{
    let mut lines: Vec<String> = Vec::new();
    lines.push(owned("# ToolGlass — Agent Visible Surface\n"));
    lines.push(owned("> Generated locally. Nothing was sent anywhere. No MCP server was executed.\n"));
    lines.push(owned("## Summary\n"));
    let mut l = owned("- Clients: ");
    l.append(decimal_string(result.clients.len()).as_str());
    l.append(" (");
    l.append(decimal_string(detected_client_count(result)).as_str());
    l.append(" detected)");
    lines.push(l);
    lines.push(cat("- MCP servers: ", decimal_string(server_count(result)).as_str()));
    let mut l = owned("- Findings: ");
    l.append(decimal_string(result.findings.len()).as_str());
    l.append("\n");
    lines.push(l);
    lines.push(owned("## Agent Visible Surface\n"));
    lines.push(owned("| client | server | scope | transport | command / url | approval | env keys |"));
    lines.push(owned("|---|---|---|---|---|---|---|"));
    let ghost r = result@;
    let ghost p1 = seq![
        "# ToolGlass — Agent Visible Surface\n"@,
        "> Generated locally. Nothing was sent anywhere. No MCP server was executed.\n"@,
        "## Summary\n"@,
        "- Clients: "@ + decimal(r.clients.len()) + " ("@ + decimal(detected_count_spec(r.clients))
            + " detected)"@,
        "- MCP servers: "@ + decimal(server_count_spec(r.clients)),
        "- Findings: "@ + decimal(r.findings.len()) + "\n"@,
        "## Agent Visible Surface\n"@,
        "| client | server | scope | transport | command / url | approval | env keys |"@,
        "|---|---|---|---|---|---|---|"@,
    ];
    assert(lines.deep_view() =~= p1);
    push_surface_rows(result, &mut lines);
    let ghost p2 = seq![
        "\n"@ + scan_summary_spec(r),
        scanned_clients_spec(r),
        "\n## Findings\n"@,
    ];
    let ghost before_p2 = lines.deep_view();
    lines.push(cat("\n", scan_summary_line(result).as_str()));
    lines.push(scanned_clients_line(result));
    lines.push(owned("\n## Findings\n"));
    assert(lines.deep_view() =~= before_p2 + p2);
    let ghost mid = lines.deep_view();
    if result.findings.len() == 0 {
        lines.push(owned("No findings on the config surface."));
    } else {
        lines.push(owned("| rule | sev | category | client.server | message |"));
        lines.push(owned("|---|---|---|---|---|"));
        assert(lines.deep_view() =~= mid + seq![
            "| rule | sev | category | client.server | message |"@,
            "|---|---|---|---|---|"@,
        ]);
        let sorted = by_severity(result.findings.as_slice());
        let ghost fv = sorted.deep_view();
        let ghost before = lines.deep_view();
        let n = sorted.len();
        for i in 0..n
            invariant
                n == fv.len(),
                fv == sorted.deep_view(),
                lines.deep_view() == before + scan_finding_rows(fv.take(i as int)),
        {
            assert(fv.take(i + 1).drop_last() =~= fv.take(i as int));
            let ghost prev = lines.deep_view();
            let row = scan_finding_row_text(sorted[i]);
            assert(sorted[i as int]@ == fv[i as int]);
            lines.push(row);
            assert(lines.deep_view() =~= prev.push(row@));
        }
        assert(fv.take(n as int) =~= fv);
    }
    let ghost p3 = if r.findings.len() == 0 {
        seq!["No findings on the config surface."@]
    } else {
        seq!["| rule | sev | category | client.server | message |"@, "|---|---|---|---|---|"@]
            + scan_finding_rows(by_severity_spec(r.findings))
    };
    assert(lines.deep_view() =~= mid + p3);
    let ghost before_p4 = lines.deep_view();
    lines.push(cat("\n", next_step_tip(result)));
    assert(lines.deep_view() =~= before_p4 + seq!["\n"@ + next_step_spec(r)]);
    assert(lines.deep_view() =~= scan_md_lines(result@));
    let mut out = join(lines.as_slice(), "\n");
    out.append("\n");
    out
}

fn tool_heading(t: &ExposedTool) -> (r: String)
    ensures
        r@ == "### "@ + t@.server + " . "@ + t@.name + "\n"@,
{
    let mut r = owned("### ");
    r.append(t.server.as_str());
    r.append(" . ");
    r.append(t.name.as_str());
    r.append("\n");
    r
}

fn edge_line_text(e: &FlowEdge) -> (r: String)
    ensures
        r@ == edge_line(e@),
{
    let mut r = owned("- `");
    r.append(code(e.src.as_str()).as_str());
    r.append("` -> `");
    r.append(code(e.dst.as_str()).as_str());
    r.append("` — _");
    r.append(e.reason.as_str());
    r.append("_");
    r
}

/// Renders a live introspection as Markdown.
pub fn render_live_md(tools: &[ExposedTool], findings: &[Finding], edges: &[FlowEdge]) -> (out: String)
    ensures
        out@ == live_md_spec(tools.deep_view(), findings.deep_view(), edges.deep_view()),
{
    let mut lines: Vec<String> = Vec::new();
    lines.push(owned("# ToolGlass — LIVE: what your agent actually sees\n"));
    lines.push(
        owned(
            "> Tool descriptions below are exactly what the model receives. ToolGlass never called any tool.\n",
        ),
    );
    lines.push(owned("## Exposed tool descriptions\n"));
    let ghost head = lines.deep_view();
    assert(head =~= seq![
        "# ToolGlass — LIVE: what your agent actually sees\n"@,
        "> Tool descriptions below are exactly what the model receives. ToolGlass never called any tool.\n"@,
        "## Exposed tool descriptions\n"@,
    ]);
    let ghost tv = tools.deep_view();
    let nt = tools.len();
    for i in 0..nt
        invariant
            nt == tv.len(),
            tv == tools.deep_view(),
            lines.deep_view() == head + tool_md_lines(tv.take(i as int)),
    {
        assert(tv.take(i + 1).drop_last() =~= tv.take(i as int));
        let t = &tools[i];
        assert(t@ == tv[i as int]);
        let ghost prev = lines.deep_view();
        let heading = tool_heading(t);
        lines.push(heading);
        let desc = match &t.description {
            Some(d) => d.as_str(),
            None => "(no description)",
        };
        let quoted = cat("> ", replace_char(desc, '\n', "\n> ").as_str());
        lines.push(quoted);
        let blank = String::new();
        lines.push(blank);
        assert(lines.deep_view() =~= prev + seq![heading@, quoted@, blank@]);
    }
    assert(tv.take(nt as int) =~= tv);
    let ghost after_tool_lines = lines.deep_view();
    assert(after_tool_lines =~= head + tool_md_lines(tv));
    lines.push(owned("## Poisoning findings\n"));
    let ghost after_tools = lines.deep_view();
    assert(after_tools =~= head + tool_md_lines(tv) + seq!["## Poisoning findings\n"@]);
    if findings.len() == 0 {
        lines.push(owned("No poisoning indicators."));
    } else {
        lines.push(owned("| rule | sev | category | server | message | evidence |"));
        lines.push(owned("|---|---|---|---|---|---|"));
        assert(lines.deep_view() =~= after_tools + seq![
            "| rule | sev | category | server | message | evidence |"@,
            "|---|---|---|---|---|---|"@,
        ]);
        let sorted = by_severity(findings);
        let ghost fv = sorted.deep_view();
        let ghost before = lines.deep_view();
        let n = sorted.len();
        for i in 0..n
            invariant
                n == fv.len(),
                fv == sorted.deep_view(),
                lines.deep_view() == before + live_finding_rows(fv.take(i as int)),
        {
            assert(fv.take(i + 1).drop_last() =~= fv.take(i as int));
            let ghost prev = lines.deep_view();
            let row = live_finding_row_text(sorted[i]);
            assert(sorted[i as int]@ == fv[i as int]);
            lines.push(row);
            assert(lines.deep_view() =~= prev.push(row@));
        }
        assert(fv.take(n as int) =~= fv);
    }
    let ghost fsv = findings.deep_view();
    assert(lines.deep_view() =~= after_tools + (if fsv.len() == 0 {
        seq!["No poisoning indicators."@]
    } else {
        seq![
            "| rule | sev | category | server | message | evidence |"@,
            "|---|---|---|---|---|---|"@,
        ] + live_finding_rows(by_severity_spec(fsv))
    }));
    let ghost before_paths = lines.deep_view();
    lines.push(owned("\n## Exfiltration paths\n"));
    let ghost after_findings = lines.deep_view();
    assert(after_findings =~= before_paths + seq!["\n## Exfiltration paths\n"@]);
    if edges.len() == 0 {
        lines.push(owned("None."));
    } else {
        let ghost ev = edges.deep_view();
        let ghost before = lines.deep_view();
        let n = edges.len();
        for i in 0..n
            invariant
                n == ev.len(),
                ev == edges.deep_view(),
                lines.deep_view() == before + edge_lines(ev.take(i as int)),
        {
            assert(ev.take(i + 1).drop_last() =~= ev.take(i as int));
            let ghost prev = lines.deep_view();
            let line = edge_line_text(&edges[i]);
            lines.push(line);
            assert(lines.deep_view() =~= prev.push(line@));
        }
        assert(ev.take(n as int) =~= ev);
    }
    assert(lines.deep_view() =~= after_findings + (if edges.deep_view().len() == 0 {
        seq!["None."@]
    } else {
        edge_lines(edges.deep_view())
    }));
    assert(lines.deep_view() =~= live_md_lines(tools.deep_view(), findings.deep_view(), edges.deep_view()));
    let mut out = join(lines.as_slice(), "\n");
    out.append("\n");
    out
}

} // verus!
