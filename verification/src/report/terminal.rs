//! Terminal reports. Tables are drawn by `comfy_table` for a given terminal
//! width; the text around them is stated exactly.

use vstd::prelude::*;

use crate::ir::{
    ClientSnapshotView, ExposedTool, ExposedToolView, Finding, FindingView, FlowEdge, FlowEdgeView,
    ScanResult, ScanResultView, ServerRef, ServerRefView,
};
use crate::report::html::flagged;
use crate::report::markdown::{command_or_url, env_list};
use crate::report::{
    by_severity, by_severity_spec, next_step_spec, next_step_tip, parse_warnings,
    parse_warnings_spec, scan_summary_line, scan_summary_spec, scanned_clients_line,
    scanned_clients_spec, server_count, server_count_spec,
};
use crate::text::{decimal, decimal_string, join, owned, text_eq};

verus! {

/// The text that `comfy_table` draws for a table with the UTF8_FULL preset,
/// dynamic content arrangement, the given header and rows, and the given
/// width (none: no width limit).
pub uninterp spec fn table_text(header: Seq<Seq<char>>, rows: Seq<Seq<Seq<char>>>, width: Option<u16>) -> Seq<char>;

/// Draws a table with `comfy_table` (`Table::new`, `force_no_tty`,
/// `load_preset(UTF8_FULL)`, `set_content_arrangement(Dynamic)`, `set_header`,
/// `set_width` when a width is given, `add_row` per row) and renders it with
/// `Display`. With terminal detection switched off, the text depends on the
/// header, the rows and the width alone; it is named, not restated.
#[verifier::external_body]
fn render_table(header: &[&str], rows: &Vec<Vec<String>>, width: Option<u16>) -> (r: String)
    ensures
        r@ == table_text(header@.map_values(|h: &str| h@), rows.deep_view(), width),
{
    let mut table = comfy_table::Table::new();
    table
        .force_no_tty()
        .load_preset(comfy_table::presets::UTF8_FULL)
        .set_content_arrangement(comfy_table::ContentArrangement::Dynamic)
        .set_header(header.to_vec());
    if let Some(w) = width {
        table.set_width(w);
    }
    for row in rows {
        table.add_row(row.clone());
    }
    format!("{table}")
}

/// The header of the surface table.
pub open spec fn surface_header() -> Seq<Seq<char>> {
    seq!["client"@, "server"@, "scope"@, "transport"@, "command / url"@, "approval"@, "env keys"@]
}

/// The header of the findings table of a scan.
pub open spec fn scan_findings_header() -> Seq<Seq<char>> {
    seq!["rule"@, "sev"@, "category"@, "client.server"@, "message"@]
}

/// The header of the findings table of a live introspection.
pub open spec fn live_findings_header() -> Seq<Seq<char>> {
    seq!["rule"@, "sev"@, "category"@, "server"@, "message"@]
}

/// The cells of the surface table for one server.
pub open spec fn surface_cells(s: ServerRefView) -> Seq<Seq<char>> {
    seq![s.client, s.name, s.scope, s.transport, command_or_url(s), s.approval, env_list(s)]
}

pub open spec fn surface_cells_in(ss: Seq<ServerRefView>) -> Seq<Seq<Seq<char>>>
    decreases ss.len(),
{
    if ss.len() == 0 {
        Seq::empty()
    } else {
        surface_cells_in(ss.drop_last()).push(surface_cells(ss.last()))
    }
}

/// The rows of the surface table: every server of every client.
pub open spec fn surface_table_spec(cs: Seq<ClientSnapshotView>) -> Seq<Seq<Seq<char>>>
    decreases cs.len(),
{
    if cs.len() == 0 {
        Seq::empty()
    } else {
        surface_table_spec(cs.drop_last()) + surface_cells_in(cs.last().servers)
    }
}

/// The cells of the scan findings table for one finding.
pub open spec fn scan_finding_cells(f: FindingView) -> Seq<Seq<char>> {
    seq![f.rule_id, f.severity, f.category, f.client + "."@ + f.server, f.message]
}

/// The cells of the live findings table for one finding.
pub open spec fn live_finding_cells(f: FindingView) -> Seq<Seq<char>> {
    seq![f.rule_id, f.severity, f.category, f.server, f.message]
}

pub open spec fn scan_findings_table_spec(fs: Seq<FindingView>) -> Seq<Seq<Seq<char>>>
    decreases fs.len(),
{
    if fs.len() == 0 {
        Seq::empty()
    } else {
        scan_findings_table_spec(fs.drop_last()).push(scan_finding_cells(fs.last()))
    }
}

pub open spec fn live_findings_table_spec(fs: Seq<FindingView>) -> Seq<Seq<Seq<char>>>
    decreases fs.len(),
{
    if fs.len() == 0 {
        Seq::empty()
    } else {
        live_findings_table_spec(fs.drop_last()).push(live_finding_cells(fs.last()))
    }
}

pub open spec fn warning_lines(ws: Seq<Seq<char>>) -> Seq<char>
    decreases ws.len(),
{
    if ws.len() == 0 {
        Seq::empty()
    } else {
        warning_lines(ws.drop_last()) + "  - "@ + ws.last() + "\n"@
    }
}

pub open spec fn warnings_section(r: ScanResultView) -> Seq<char> {
    let ws = parse_warnings_spec(r.clients);
    if ws.len() == 0 {
        Seq::empty()
    } else {
        "\nparse warnings:\n"@ + warning_lines(ws)
    }
}

/// The scan report around its two tables.
pub open spec fn scan_terminal_spec(r: ScanResultView, surface: Seq<char>, findings: Seq<char>) -> Seq<
    char,
> {
    "\x1b[1;35mToolGlass\x1b[0m — what your agent actually sees\n"@ + "\n"@ + (if server_count_spec(
        r.clients,
    ) == 0 {
        "No MCP servers found.\n"@
    } else {
        surface + "\n"@
    }) + (if r.findings.len() == 0 {
        "\x1b[32m✓ No findings on the config surface.\x1b[0m\n"@
    } else {
        "\nFindings ("@ + decimal(r.findings.len()) + ")\n"@ + findings + "\n"@
    }) + scan_summary_spec(r) + "\n"@ + scanned_clients_spec(r) + "\n"@ + next_step_spec(r)
        + "\n"@ + warnings_section(r)
}

pub open spec fn tool_block(fs: Seq<FindingView>, t: ExposedToolView) -> Seq<char> {
    let body = match t.description {
        Some(d) => d,
        None => "(no description)"@,
    };
    if flagged(fs, t.server) {
        "\x1b[31m["@ + t.server + " . "@ + t.name + "]\x1b[0m\n\x1b[31m"@ + body + "\x1b[0m\n"@
            + "\n"@
    } else {
        "["@ + t.server + " . "@ + t.name + "]\n"@ + body + "\n"@ + "\n"@
    }
}

pub open spec fn tool_blocks(fs: Seq<FindingView>, ts: Seq<ExposedToolView>) -> Seq<char>
    decreases ts.len(),
{
    if ts.len() == 0 {
        Seq::empty()
    } else {
        tool_blocks(fs, ts.drop_last()) + tool_block(fs, ts.last())
    }
}

pub open spec fn edge_text_lines(es: Seq<FlowEdgeView>) -> Seq<char>
    decreases es.len(),
{
    if es.len() == 0 {
        Seq::empty()
    } else {
        edge_text_lines(es.drop_last()) + "  "@ + es.last().src + " -> "@ + es.last().dst + "  ("@
            + es.last().reason + ")\n"@
    }
}

/// The live report around its findings table.
pub open spec fn live_terminal_spec(
    ts: Seq<ExposedToolView>,
    fs: Seq<FindingView>,
    es: Seq<FlowEdgeView>,
    table: Seq<char>,
) -> Seq<char> {
    "\x1b[1;35mToolGlass — LIVE\x1b[0m — what your agent actually sees right now\n"@ + "\n"@
        + tool_blocks(fs, ts) + (if fs.len() == 0 {
        "\x1b[32m✓ No poisoning indicators.\x1b[0m\n"@
    } else {
        "Poisoning findings ("@ + decimal(fs.len()) + ")\n"@ + table + "\n"@
    }) + (if es.len() == 0 {
        Seq::empty()
    } else {
        "Exfiltration paths:\n"@ + edge_text_lines(es)
    })
}

/// The rows of the surface table.
pub fn surface_table_rows(result: &ScanResult) -> (rows: Vec<Vec<String>>)
    ensures
        rows.deep_view() == surface_table_spec(result@.clients),
{
    let ghost cs = result@.clients;
    let mut rows: Vec<Vec<String>> = Vec::new();
    let n = result.clients.len();
    for i in 0..n
        invariant
            n == cs.len(),
            cs == result@.clients,
            rows.deep_view() == surface_table_spec(cs.take(i as int)),
    {
        assert(cs.take(i + 1).drop_last() =~= cs.take(i as int));
        let c = &result.clients[i];
        let ghost base = rows.deep_view();
        let m = c.servers.len();
        for j in 0..m
            invariant
                m == c@.servers.len(),
                rows.deep_view() == base + surface_cells_in(c@.servers.take(j as int)),
        {
            assert(c@.servers.take(j + 1).drop_last() =~= c@.servers.take(j as int));
            let s = &c.servers[j];
            let cmd = match &s.command {
                Some(x) => x.as_str(),
                None => match &s.url {
                    Some(u) => u.as_str(),
                    None => "-",
                },
            };
            let env = if s.env_keys.len() == 0 {
                owned("-")
            } else {
                join(s.env_keys.as_slice(), ", ")
            };
            let mut row: Vec<String> = Vec::new();
            row.push(owned(s.client.as_str()));
            row.push(owned(s.name.as_str()));
            row.push(owned(s.scope.as_str()));
            row.push(owned(s.transport.as_str()));
            row.push(owned(cmd));
            row.push(owned(s.approval.as_str()));
            row.push(env);
            assert(row.deep_view() =~= surface_cells(s@));
            let ghost prev = rows.deep_view();
            rows.push(row);
            assert(rows.deep_view() =~= prev.push(surface_cells(s@)));
        }
        assert(c@.servers.take(m as int) =~= c@.servers);
    }
    assert(cs.take(n as int) =~= cs);
    rows
}

/// The rows of the scan findings table, in the given order.
pub fn scan_findings_rows(findings: &Vec<&Finding>) -> (rows: Vec<Vec<String>>)
    ensures
        rows.deep_view() == scan_findings_table_spec(findings.deep_view()),
{
    let ghost fv = findings.deep_view();
    let mut rows: Vec<Vec<String>> = Vec::new();
    let n = findings.len();
    for i in 0..n
        invariant
            n == fv.len(),
            fv == findings.deep_view(),
            rows.deep_view() == scan_findings_table_spec(fv.take(i as int)),
    {
        assert(fv.take(i + 1).drop_last() =~= fv.take(i as int));
        let f = findings[i];
        assert(f@ == fv[i as int]);
        let mut where_ = owned(f.client.as_str());
        where_.append(".");
        where_.append(f.server.as_str());
        let mut row: Vec<String> = Vec::new();
        row.push(owned(f.rule_id.as_str()));
        row.push(owned(f.severity.as_str()));
        row.push(owned(f.category.as_str()));
        row.push(where_);
        row.push(owned(f.message.as_str()));
        assert(row.deep_view() =~= scan_finding_cells(f@));
        let ghost prev = rows.deep_view();
        rows.push(row);
        assert(rows.deep_view() =~= prev.push(scan_finding_cells(f@)));
    }
    assert(fv.take(n as int) =~= fv);
    rows
}

/// The rows of the live findings table, in the given order.
pub fn live_findings_rows(findings: &Vec<&Finding>) -> (rows: Vec<Vec<String>>)
    ensures
        rows.deep_view() == live_findings_table_spec(findings.deep_view()),
{
    let ghost fv = findings.deep_view();
    let mut rows: Vec<Vec<String>> = Vec::new();
    let n = findings.len();
    for i in 0..n
        invariant
            n == fv.len(),
            fv == findings.deep_view(),
            rows.deep_view() == live_findings_table_spec(fv.take(i as int)),
    {
        assert(fv.take(i + 1).drop_last() =~= fv.take(i as int));
        let f = findings[i];
        assert(f@ == fv[i as int]);
        let mut row: Vec<String> = Vec::new();
        row.push(owned(f.rule_id.as_str()));
        row.push(owned(f.severity.as_str()));
        row.push(owned(f.category.as_str()));
        row.push(owned(f.server.as_str()));
        row.push(owned(f.message.as_str()));
        assert(row.deep_view() =~= live_finding_cells(f@));
        let ghost prev = rows.deep_view();
        rows.push(row);
        assert(rows.deep_view() =~= prev.push(live_finding_cells(f@)));
    }
    assert(fv.take(n as int) =~= fv);
    rows
}

fn write_parse_warnings(out: &mut String, result: &ScanResult)
    ensures
        final(out)@ == old(out)@ + warnings_section(result@),
{
    let warnings = parse_warnings(result);
    if warnings.len() == 0 {
        return;
    }
    out.append("\nparse warnings:\n");
    let ghost head = out@;
    let ghost wv = warnings.deep_view();
    let n = warnings.len();
    for i in 0..n
        invariant
            n == wv.len(),
            wv == warnings.deep_view(),
            out@ == head + warning_lines(wv.take(i as int)),
    {
        assert(wv.take(i + 1).drop_last() =~= wv.take(i as int));
        out.append("  - ");
        out.append(warnings[i].as_str());
        out.append("\n");
    }
    assert(wv.take(n as int) =~= wv);
}

/// The scan report around two already drawn tables.
pub fn compose_scan_terminal(result: &ScanResult, surface: &str, findings_table: &str) -> (out: String)
    requires
        server_count_spec(result@.clients) <= usize::MAX,
    ensures
        out@ == scan_terminal_spec(result@, surface@, findings_table@),
{
    let mut out = owned("\x1b[1;35mToolGlass\x1b[0m — what your agent actually sees\n");
    out.append("\n");
    if server_count(result) == 0 {
        out.append("No MCP servers found.\n");
    } else {
        out.append(surface);
        out.append("\n");
    }
    if result.findings.len() == 0 {
        out.append("\x1b[32m✓ No findings on the config surface.\x1b[0m\n");
    } else {
        out.append("\nFindings (");
        out.append(decimal_string(result.findings.len()).as_str());
        out.append(")\n");
        out.append(findings_table);
        out.append("\n");
    }
    out.append(scan_summary_line(result).as_str());
    out.append("\n");
    out.append(scanned_clients_line(result).as_str());
    out.append("\n");
    out.append(next_step_tip(result));
    out.append("\n");
    write_parse_warnings(&mut out, result);
    out
}

/// The surface table of a scan (nothing without servers).
pub open spec fn scan_surface_text(r: ScanResultView, width: Option<u16>) -> Seq<char> {
    if server_count_spec(r.clients) == 0 {
        Seq::empty()
    } else {
        table_text(surface_header(), surface_table_spec(r.clients), width)
    }
}

/// The findings table of a scan, by severity (nothing without findings).
pub open spec fn scan_findings_text(r: ScanResultView, width: Option<u16>) -> Seq<char> {
    let sorted = by_severity_spec(r.findings);
    if sorted.len() == 0 {
        Seq::empty()
    } else {
        table_text(scan_findings_header(), scan_findings_table_spec(sorted), width)
    }
}

/// Renders a config scan for a terminal `width` columns wide (none: no limit).
pub fn render_scan_terminal(result: &ScanResult, width: Option<u16>) -> (out: String)
    requires
        server_count_spec(result@.clients) <= usize::MAX,
    ensures
        out@ == scan_terminal_spec(result@, scan_surface_text(result@, width), scan_findings_text(result@, width)),
{
    let surface = if server_count(result) == 0 {
        String::new()
    } else {
        let rows = surface_table_rows(result);
        let header = ["client", "server", "scope", "transport", "command / url", "approval", "env keys"];
        assert(header@.map_values(|h: &str| h@) =~= surface_header());
        render_table(&header, &rows, width)
    };
    let sorted = by_severity(result.findings.as_slice());
    let table = if sorted.len() == 0 {
        String::new()
    } else {
        let rows = scan_findings_rows(&sorted);
        let header = ["rule", "sev", "category", "client.server", "message"];
        assert(header@.map_values(|h: &str| h@) =~= scan_findings_header());
        render_table(&header, &rows, width)
    };
    compose_scan_terminal(result, surface.as_str(), table.as_str())
}

fn tool_block_text(findings: &[Finding], t: &ExposedTool) -> (r: String)
    ensures
        r@ == tool_block(findings.deep_view(), t@),
{
    let body = match &t.description {
        Some(d) => d.as_str(),
        None => "(no description)",
    };
    let mut r = String::new();
    if crate::report::html::is_flagged(findings, t.server.as_str()) {
        r.append("\x1b[31m[");
        r.append(t.server.as_str());
        r.append(" . ");
        r.append(t.name.as_str());
        r.append("]\x1b[0m\n\x1b[31m");
        r.append(body);
        r.append("\x1b[0m\n");
        r.append("\n");
    } else {
        r.append("[");
        r.append(t.server.as_str());
        r.append(" . ");
        r.append(t.name.as_str());
        r.append("]\n");
        r.append(body);
        r.append("\n");
        r.append("\n");
    }
    r
}

/// The live report around an already drawn findings table.
pub fn compose_live_terminal(
    tools: &[ExposedTool],
    findings: &[Finding],
    edges: &[FlowEdge],
    table: &str,
) -> (out: String)
    ensures
        out@ == live_terminal_spec(tools.deep_view(), findings.deep_view(), edges.deep_view(), table@),
{
    let mut out = owned("\x1b[1;35mToolGlass — LIVE\x1b[0m — what your agent actually sees right now\n");
    out.append("\n");
    let ghost head = out@;
    let ghost tv = tools.deep_view();
    let nt = tools.len();
    for i in 0..nt
        invariant
            nt == tv.len(),
            tv == tools.deep_view(),
            out@ == head + tool_blocks(findings.deep_view(), tv.take(i as int)),
    {
        assert(tv.take(i + 1).drop_last() =~= tv.take(i as int));
        assert(tools[i as int]@ == tv[i as int]);
        let block = tool_block_text(findings, &tools[i]);
        out.append(block.as_str());
    }
    assert(tv.take(nt as int) =~= tv);
    if findings.len() == 0 {
        out.append("\x1b[32m✓ No poisoning indicators.\x1b[0m\n");
    } else {
        out.append("Poisoning findings (");
        out.append(decimal_string(findings.len()).as_str());
        out.append(")\n");
        out.append(table);
        out.append("\n");
    }
    if edges.len() != 0 {
        out.append("Exfiltration paths:\n");
        let ghost mid = out@;
        let ghost ev = edges.deep_view();
        let n = edges.len();
        for i in 0..n
            invariant
                n == ev.len(),
                ev == edges.deep_view(),
                out@ == mid + edge_text_lines(ev.take(i as int)),
        {
            assert(ev.take(i + 1).drop_last() =~= ev.take(i as int));
            out.append("  ");
            out.append(edges[i].src.as_str());
            out.append(" -> ");
            out.append(edges[i].dst.as_str());
            out.append("  (");
            out.append(edges[i].reason.as_str());
            out.append(")\n");
        }
        assert(ev.take(n as int) =~= ev);
    }
    out
}

/// The findings table of a live introspection, by severity (nothing without findings).
pub open spec fn live_findings_text(fs: Seq<FindingView>, width: Option<u16>) -> Seq<char> {
    let sorted = by_severity_spec(fs);
    if sorted.len() == 0 {
        Seq::empty()
    } else {
        table_text(live_findings_header(), live_findings_table_spec(sorted), width)
    }
}

/// Renders a live introspection for a terminal `width` columns wide (none: no limit).
pub fn render_live_terminal(
    tools: &[ExposedTool],
    findings: &[Finding],
    edges: &[FlowEdge],
    width: Option<u16>,
) -> (out: String)
    ensures
        out@ == live_terminal_spec(
            tools.deep_view(),
            findings.deep_view(),
            edges.deep_view(),
            live_findings_text(findings.deep_view(), width),
        ),
{
    let sorted = by_severity(findings);
    let table = if sorted.len() == 0 {
        String::new()
    } else {
        let rows = live_findings_rows(&sorted);
        let header = ["rule", "sev", "category", "server", "message"];
        assert(header@.map_values(|h: &str| h@) =~= live_findings_header());
        render_table(&header, &rows, width)
    };
    compose_live_terminal(tools, findings, edges, table.as_str())
}

} // verus!
