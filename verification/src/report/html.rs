//! Self-contained single-file HTML reports.

use vstd::prelude::*;

use crate::ir::{
    ClientSnapshotView, ExposedTool, ExposedToolView, Finding, FindingView, FlowEdge, FlowEdgeView,
    ScanResult, ScanResultView, ServerRef, ServerRefView,
};
use crate::report::markdown::{command_or_url, env_list};
use crate::report::{
    by_severity, by_severity_spec, detected_client_count, detected_count_spec, server_count,
    server_count_spec,
};
use crate::text::{
    chars_of, decimal, decimal_string, join, join_spec, lemma_replace_char_contains, owned, push_char,
    replace_char, replace_char_spec, text_eq,
};

verus! {

/// The report's style sheet.
pub const STYLE: &'static str = r#"
body{font-family:-apple-system,Segoe UI,Roboto,Helvetica,sans-serif;max-width:1000px;margin:24px auto;padding:0 16px;color:#222}
h1{color:#7a1fa2;margin-bottom:4px}
h2{border-bottom:2px solid #eee;padding-bottom:4px;margin-top:30px}
h3{margin-bottom:4px}
table{border-collapse:collapse;width:100%;margin:8px 0}
th,td{border:1px solid #ddd;padding:6px 9px;text-align:left;vertical-align:top;font-size:14px}
th{background:#f6f0f8}
tr.high{background:#ffecec}
tr.medium{background:#fff7e6}
tr.low{background:#eef9ff}
pre{background:#0f0f12;color:#eee;padding:12px;border-radius:8px;overflow:auto;white-space:pre-wrap;word-break:break-word}
pre.flagged{border-left:4px solid #e53935;background:#2a1010;color:#fff1f1}
.muted{color:#888;font-size:13px}
.sev-high{color:#c62828;font-weight:700}
.sev-medium{color:#b8860b;font-weight:700}
.sev-low{color:#1565c0}
.sev-info{color:#888}
"#;

/// The introduction of a scan report.
pub const SCAN_INTRO: &'static str =
    "Agent Visible Surface — generated locally; nothing sent anywhere; no MCP server was executed.";

/// The introduction of a live report.
pub const LIVE_INTRO: &'static str =
    "LIVE — what your agent actually sees right now. Descriptions below are exactly what the model receives; ToolGlass never called any tool.";

/// HTML escaping of `&`, `<`, `>`, `"` and `'`.
pub open spec fn esc_spec(v: Seq<char>) -> Seq<char> {
    replace_char_spec(
        replace_char_spec(
            replace_char_spec(
                replace_char_spec(replace_char_spec(v, '&', "&amp;"@), '<', "&lt;"@),
                '>',
                "&gt;"@,
            ),
            '"',
            "&quot;"@,
        ),
        '\'',
        "&#39;"@,
    )
}

/// An entity that starts with '&', ends with ';' and holds only letters,
/// digits and '#' between them has no markup character.
proof fn lemma_entity_lacks_markup(e: Seq<char>, d: char)
    requires
        d == '<' || d == '>' || d == '"' || d == '\'',
        e.len() >= 2,
        e[0] == '&',
        e[e.len() - 1] == ';',
        forall|k: int| 0 < k < e.len() - 1 ==> ('a' <= #[trigger] e[k] <= 'z') || ('0' <= e[k] <= '9') || e[k] == '#',
    ensures
        !e.contains(d),
{
    if e.contains(d) {
        let k = choose|k: int| 0 <= k < e.len() && e[k] == d;
        assert(0 < k < e.len() - 1);
    }
}

/// Law: escaped text holds no markup characters: no '<', '>', '"' or '\''.
pub proof fn lemma_escaped_text_has_no_markup(v: Seq<char>)
    ensures
        !esc_spec(v).contains('<'),
        !esc_spec(v).contains('>'),
        !esc_spec(v).contains('"'),
        !esc_spec(v).contains('\''),
{
    reveal_strlit("&amp;");
    reveal_strlit("&lt;");
    reveal_strlit("&gt;");
    reveal_strlit("&quot;");
    reveal_strlit("&#39;");
    let s1 = replace_char_spec(v, '&', "&amp;"@);
    let s2 = replace_char_spec(s1, '<', "&lt;"@);
    let s3 = replace_char_spec(s2, '>', "&gt;"@);
    let s4 = replace_char_spec(s3, '"', "&quot;"@);
    let ds = seq!['<', '>', '"', '\''];
    assert forall|i: int| 0 <= i < 4 implies !esc_spec(v).contains(#[trigger] ds[i]) by {
        let d = ds[i];
        assert(d == '<' || d == '>' || d == '"' || d == '\'');
        lemma_entity_lacks_markup("&amp;"@, d);
        lemma_entity_lacks_markup("&lt;"@, d);
        lemma_entity_lacks_markup("&gt;"@, d);
        lemma_entity_lacks_markup("&quot;"@, d);
        lemma_entity_lacks_markup("&#39;"@, d);
        lemma_replace_char_contains(v, '&', "&amp;"@, d);
        lemma_replace_char_contains(s1, '<', "&lt;"@, d);
        lemma_replace_char_contains(s2, '>', "&gt;"@, d);
        lemma_replace_char_contains(s3, '"', "&quot;"@, d);
        lemma_replace_char_contains(s4, '\'', "&#39;"@, d);
        if d == '<' {
            assert(!s2.contains(d));
        }
        if d == '>' {
            assert(!s3.contains(d));
        }
        if d == '"' {
            assert(!s4.contains(d));
        }
    }
    assert(ds[0] == '<' && ds[1] == '>' && ds[2] == '"' && ds[3] == '\'');
}

/// Characters kept in an attribute value: ASCII letters and digits, '-' and '_'.
pub open spec fn attr_char(c: char) -> bool {
    ('a' <= c && c <= 'z') || ('A' <= c && c <= 'Z') || ('0' <= c && c <= '9') || c == '-' || c
        == '_'
}

pub open spec fn esc_attr_spec(v: Seq<char>) -> Seq<char>
    decreases v.len(),
{
    if v.len() == 0 {
        Seq::empty()
    } else {
        esc_attr_spec(v.drop_last()) + if attr_char(v.last()) {
            seq![v.last()]
        } else {
            Seq::empty()
        }
    }
}

/// Law: an attribute value keeps only ASCII letters and digits, '-' and '_'.
pub proof fn lemma_attribute_chars(v: Seq<char>, i: int)
    requires
        0 <= i < esc_attr_spec(v).len(),
    ensures
        attr_char(esc_attr_spec(v)[i]),
    decreases v.len(),
{
    let rest = esc_attr_spec(v.drop_last());
    if i < rest.len() {
        lemma_attribute_chars(v.drop_last(), i);
    }
}

pub open spec fn row_class_spec(s: Seq<char>) -> Seq<char> {
    if s == "high"@ {
        "high"@
    } else if s == "medium"@ {
        "medium"@
    } else if s == "low"@ {
        "low"@
    } else {
        ""@
    }
}

/// A whole page around `body`.
pub open spec fn page_spec(intro: Seq<char>, body: Seq<char>) -> Seq<char> {
    "<!doctype html><html><head><meta charset='utf-8'><title>ToolGlass report</title><style>"@
        + STYLE@ + "</style></head><body><h1>ToolGlass</h1><p class='muted'>"@ + esc_spec(intro)
        + "</p>"@ + body + "</body></html>\n"@
}

pub open spec fn surface_row_html(client: Seq<char>, s: ServerRefView) -> Seq<char> {
    "<tr><td>"@ + esc_spec(client) + "</td><td>"@ + esc_spec(s.name) + "</td><td>"@ + esc_spec(
        s.scope,
    ) + "</td><td>"@ + esc_spec(s.transport) + "</td><td><code>"@ + esc_spec(command_or_url(s))
        + "</code></td><td>"@ + esc_spec(s.approval) + "</td><td>"@ + esc_spec(env_list(s))
        + "</td></tr>"@
}

pub open spec fn surface_rows_html_in(client: Seq<char>, ss: Seq<ServerRefView>) -> Seq<char>
    decreases ss.len(),
{
    if ss.len() == 0 {
        Seq::empty()
    } else {
        surface_rows_html_in(client, ss.drop_last()) + surface_row_html(client, ss.last())
    }
}

pub open spec fn surface_rows_html(cs: Seq<ClientSnapshotView>) -> Seq<char>
    decreases cs.len(),
{
    if cs.len() == 0 {
        Seq::empty()
    } else {
        surface_rows_html(cs.drop_last()) + surface_rows_html_in(cs.last().client, cs.last().servers)
    }
}

pub open spec fn scan_finding_html(f: FindingView) -> Seq<char> {
    "<tr class='"@ + row_class_spec(f.severity) + "'><td>"@ + esc_spec(f.rule_id)
        + "</td><td class='sev-"@ + esc_attr_spec(f.severity) + "'>"@ + esc_spec(f.severity)
        + "</td><td>"@ + esc_spec(f.category) + "</td><td>"@ + esc_spec(f.client) + "."@ + esc_spec(
        f.server,
    ) + "</td><td>"@ + esc_spec(f.message) + "</td></tr>"@
}

pub open spec fn scan_findings_html(fs: Seq<FindingView>) -> Seq<char>
    decreases fs.len(),
{
    if fs.len() == 0 {
        Seq::empty()
    } else {
        scan_findings_html(fs.drop_last()) + scan_finding_html(fs.last())
    }
}

/// The HTML scan report.
pub open spec fn scan_html_spec(r: ScanResultView) -> Seq<char> {
    let rows = surface_rows_html(r.clients);
    let surface = if rows.len() == 0 {
        "<p class='muted'>No MCP servers found.</p>"@
    } else {
        "<table><tr><th>client</th><th>server</th><th>scope</th><th>transport</th><th>command/url</th><th>approval</th><th>env keys</th></tr>"@
            + rows + "</table>"@
    };
    let fr = scan_findings_html(by_severity_spec(r.findings));
    let findings_html = if fr.len() == 0 {
        "<h2>Findings</h2><p>No findings on the config surface.</p>"@
    } else {
        "<h2>Findings</h2><table><tr><th>rule</th><th>sev</th><th>category</th><th>client.server</th><th>message</th></tr>"@
            + fr + "</table>"@
    };
    let summary = "<h2>Summary</h2><ul><li>Clients: "@ + decimal(r.clients.len()) + " ("@ + decimal(
        detected_count_spec(r.clients),
    ) + " detected)</li><li>MCP servers: "@ + decimal(server_count_spec(r.clients))
        + "</li><li>Findings: "@ + decimal(r.findings.len()) + "</li></ul>"@;
    page_spec(SCAN_INTRO@, "<h2>Agent Visible Surface</h2>"@ + surface + summary + findings_html)
}

/// Whether some finding is about server `server`.
pub open spec fn flagged(fs: Seq<FindingView>, server: Seq<char>) -> bool {
    exists|k: int| 0 <= k < fs.len() && #[trigger] fs[k].server == server
}

pub open spec fn tool_html(fs: Seq<FindingView>, t: ExposedToolView) -> Seq<char> {
    "<h3>"@ + esc_spec(t.server) + " . "@ + esc_spec(t.name) + "</h3><pre class='"@ + (if flagged(
        fs,
        t.server,
    ) {
        "flagged"@
    } else {
        ""@
    }) + "'>"@ + esc_spec(
        match t.description {
            Some(d) => d,
            None => "(no description)"@,
        },
    ) + "</pre>"@
}

pub open spec fn tools_html(fs: Seq<FindingView>, ts: Seq<ExposedToolView>) -> Seq<char>
    decreases ts.len(),
{
    if ts.len() == 0 {
        Seq::empty()
    } else {
        tools_html(fs, ts.drop_last()) + tool_html(fs, ts.last())
    }
}

pub open spec fn live_finding_html(f: FindingView) -> Seq<char> {
    "<tr class='"@ + row_class_spec(f.severity) + "'><td>"@ + esc_spec(f.rule_id)
        + "</td><td class='sev-"@ + esc_attr_spec(f.severity) + "'>"@ + esc_spec(f.severity)
        + "</td><td>"@ + esc_spec(f.category) + "</td><td>"@ + esc_spec(f.server) + "</td><td>"@
        + esc_spec(f.message) + "</td></tr>"@
}

pub open spec fn live_findings_html(fs: Seq<FindingView>) -> Seq<char>
    decreases fs.len(),
{
    if fs.len() == 0 {
        Seq::empty()
    } else {
        live_findings_html(fs.drop_last()) + live_finding_html(fs.last())
    }
}

pub open spec fn flow_line(e: FlowEdgeView) -> Seq<char> {
    e.src + "  ->  "@ + e.dst + "     ("@ + e.reason + ")"@
}

pub open spec fn flow_lines(es: Seq<FlowEdgeView>) -> Seq<Seq<char>>
    decreases es.len(),
{
    if es.len() == 0 {
        Seq::empty()
    } else {
        flow_lines(es.drop_last()).push(flow_line(es.last()))
    }
}

/// The HTML live report.
pub open spec fn live_html_spec(ts: Seq<ExposedToolView>, fs: Seq<FindingView>, es: Seq<FlowEdgeView>) -> Seq<
    char,
> {
    let d = tools_html(fs, ts);
    let desc = if d.len() == 0 {
        "<p class='muted'>No tools.</p>"@
    } else {
        d
    };
    let fr = live_findings_html(by_severity_spec(fs));
    let findings_html = if fr.len() == 0 {
        "<h2>Poisoning findings</h2><p>No poisoning indicators.</p>"@
    } else {
        "<h2>Poisoning findings</h2><table><tr><th>rule</th><th>sev</th><th>category</th><th>server</th><th>message</th></tr>"@
            + fr + "</table>"@
    };
    let flow_html = if es.len() == 0 {
        "<h2>Exfiltration paths</h2><p>None.</p>"@
    } else {
        "<h2>Exfiltration paths</h2><pre>"@ + esc_spec(join_spec(flow_lines(es), "\n"@)) + "</pre>"@
    };
    page_spec(LIVE_INTRO@, "<h2>Exposed tool descriptions</h2>"@ + desc + findings_html + flow_html)
}

/// HTML escaping.
fn esc(value: &str) -> (r: String)
    ensures
        r@ == esc_spec(value@),
{
    let a = replace_char(value, '&', "&amp;");
    let b = replace_char(a.as_str(), '<', "&lt;");
    let c = replace_char(b.as_str(), '>', "&gt;");
    let d = replace_char(c.as_str(), '"', "&quot;");
    replace_char(d.as_str(), '\'', "&#39;")
}

/// Only ASCII letters, digits, '-' and '_' of `value`.
fn esc_attr(value: &str) -> (r: String)
    ensures
        r@ == esc_attr_spec(value@),
{
    let v = chars_of(value);
    let mut r = String::new();
    let n = v.len();
    for i in 0..n
        invariant
            n == v@.len(),
            v@ == value@,
            r@ == esc_attr_spec(v@.take(i as int)),
    {
        assert(v@.take(i + 1).drop_last() =~= v@.take(i as int));
        let c = v[i];
        if ('a' <= c && c <= 'z') || ('A' <= c && c <= 'Z') || ('0' <= c && c <= '9') || c == '-'
            || c == '_' {
            push_char(&mut r, c);
        }
    }
    assert(v@.take(n as int) =~= v@);
    r
}

fn row_class(severity: &str) -> (r: &'static str)
    ensures
        r@ == row_class_spec(severity@),
{
    if text_eq(severity, "high") {
        "high"
    } else if text_eq(severity, "medium") {
        "medium"
    } else if text_eq(severity, "low") {
        "low"
    } else {
        ""
    }
}

/// A whole page around `body`.
fn page(intro: &str, body: &str) -> (r: String)
    ensures
        r@ == page_spec(intro@, body@),
{
    let mut r = owned(
        "<!doctype html><html><head><meta charset='utf-8'><title>ToolGlass report</title><style>",
    );
    r.append(STYLE);
    r.append("</style></head><body><h1>ToolGlass</h1><p class='muted'>");
    r.append(esc(intro).as_str());
    r.append("</p>");
    r.append(body);
    r.append("</body></html>\n");
    r
}

fn surface_row_text(client: &str, s: &ServerRef) -> (r: String)
    ensures
        r@ == surface_row_html(client@, s@),
{
    let cmd = match &s.command {
        Some(c) => c.as_str(),
        None => match &s.url {
            Some(u) => u.as_str(),
            None => "-",
        },
    };
    let env = if s.env_keys.len() == 0 {
        owned("-")
    } else {
        join(s.env_keys.as_slice(), ", ")
    };
    let mut r = owned("<tr><td>");
    r.append(esc(client).as_str());
    r.append("</td><td>");
    r.append(esc(s.name.as_str()).as_str());
    r.append("</td><td>");
    r.append(esc(s.scope.as_str()).as_str());
    r.append("</td><td>");
    r.append(esc(s.transport.as_str()).as_str());
    r.append("</td><td><code>");
    r.append(esc(cmd).as_str());
    r.append("</code></td><td>");
    r.append(esc(s.approval.as_str()).as_str());
    r.append("</td><td>");
    r.append(esc(env.as_str()).as_str());
    r.append("</td></tr>");
    r
}

fn scan_finding_text(f: &Finding) -> (r: String)
    ensures
        r@ == scan_finding_html(f@),
{
    let mut r = owned("<tr class='");
    r.append(row_class(f.severity.as_str()));
    r.append("'><td>");
    r.append(esc(f.rule_id.as_str()).as_str());
    r.append("</td><td class='sev-");
    r.append(esc_attr(f.severity.as_str()).as_str());
    r.append("'>");
    r.append(esc(f.severity.as_str()).as_str());
    r.append("</td><td>");
    r.append(esc(f.category.as_str()).as_str());
    r.append("</td><td>");
    r.append(esc(f.client.as_str()).as_str());
    r.append(".");
    r.append(esc(f.server.as_str()).as_str());
    r.append("</td><td>");
    r.append(esc(f.message.as_str()).as_str());
    r.append("</td></tr>");
    r
}

fn live_finding_text(f: &Finding) -> (r: String)
    ensures
        r@ == live_finding_html(f@),
{
    let mut r = owned("<tr class='");
    r.append(row_class(f.severity.as_str()));
    r.append("'><td>");
    r.append(esc(f.rule_id.as_str()).as_str());
    r.append("</td><td class='sev-");
    r.append(esc_attr(f.severity.as_str()).as_str());
    r.append("'>");
    r.append(esc(f.severity.as_str()).as_str());
    r.append("</td><td>");
    r.append(esc(f.category.as_str()).as_str());
    r.append("</td><td>");
    r.append(esc(f.server.as_str()).as_str());
    r.append("</td><td>");
    r.append(esc(f.message.as_str()).as_str());
    r.append("</td></tr>");
    r
}

fn surface_rows_text(result: &ScanResult) -> (r: String)
    ensures
        r@ == surface_rows_html(result@.clients),
{
    let ghost cs = result@.clients;
    let mut rows = String::new();
    let n = result.clients.len();
    for i in 0..n
        invariant
            n == cs.len(),
            cs == result@.clients,
            rows@ == surface_rows_html(cs.take(i as int)),
    {
        assert(cs.take(i + 1).drop_last() =~= cs.take(i as int));
        let c = &result.clients[i];
        let ghost mid = rows@;
        let m = c.servers.len();
        for j in 0..m
            invariant
                m == c@.servers.len(),
                rows@ == mid + surface_rows_html_in(c@.client, c@.servers.take(j as int)),
        {
            assert(c@.servers.take(j + 1).drop_last() =~= c@.servers.take(j as int));
            let row = surface_row_text(c.client.as_str(), &c.servers[j]);
            rows.append(row.as_str());
        }
        assert(c@.servers.take(m as int) =~= c@.servers);
    }
    assert(cs.take(n as int) =~= cs);
    rows
}

/// Renders a config scan as a self-contained HTML page.
pub fn render_scan_html(result: &ScanResult) -> (out: String)
    requires
        server_count_spec(result@.clients) <= usize::MAX,
    ensures
        out@ == scan_html_spec(result@),
{
    let rows = surface_rows_text(result);
    let surface = if rows.as_str().is_empty() {
        owned("<p class='muted'>No MCP servers found.</p>")
    } else {
        let mut s = owned(
            "<table><tr><th>client</th><th>server</th><th>scope</th><th>transport</th><th>command/url</th><th>approval</th><th>env keys</th></tr>",
        );
        s.append(rows.as_str());
        s.append("</table>");
        s
    };

    let sorted = by_severity(result.findings.as_slice());
    let ghost fv = sorted.deep_view();
    let mut fr = String::new();
    let n = sorted.len();
    for i in 0..n
        invariant
            n == fv.len(),
            fv == sorted.deep_view(),
            fr@ == scan_findings_html(fv.take(i as int)),
    {
        assert(fv.take(i + 1).drop_last() =~= fv.take(i as int));
        assert(sorted[i as int]@ == fv[i as int]);
        let row = scan_finding_text(sorted[i]);
        fr.append(row.as_str());
    }
    assert(fv.take(n as int) =~= fv);
    let findings_html = if fr.as_str().is_empty() {
        owned("<h2>Findings</h2><p>No findings on the config surface.</p>")
    } else {
        let mut s = owned(
            "<h2>Findings</h2><table><tr><th>rule</th><th>sev</th><th>category</th><th>client.server</th><th>message</th></tr>",
        );
        s.append(fr.as_str());
        s.append("</table>");
        s
    };

    let mut summary = owned("<h2>Summary</h2><ul><li>Clients: ");
    summary.append(decimal_string(result.clients.len()).as_str());
    summary.append(" (");
    summary.append(decimal_string(detected_client_count(result)).as_str());
    summary.append(" detected)</li><li>MCP servers: ");
    summary.append(decimal_string(server_count(result)).as_str());
    summary.append("</li><li>Findings: ");
    summary.append(decimal_string(result.findings.len()).as_str());
    summary.append("</li></ul>");

    let mut body = owned("<h2>Agent Visible Surface</h2>");
    body.append(surface.as_str());
    body.append(summary.as_str());
    body.append(findings_html.as_str());
    page(SCAN_INTRO, body.as_str())
}

/// Whether some finding is about server `server`.
pub fn is_flagged(findings: &[Finding], server: &str) -> (r: bool)
    ensures
        r == flagged(findings.deep_view(), server@),
{
    let n = findings.len();
    for k in 0..n
        invariant
            n == findings@.len(),
            forall|j: int| 0 <= j < k ==> findings.deep_view()[j].server != server@,
    {
        if text_eq(findings[k].server.as_str(), server) {
            assert(findings.deep_view()[k as int].server == server@);
            return true;
        }
    }
    false
}

fn tool_text(findings: &[Finding], t: &ExposedTool) -> (r: String)
    ensures
        r@ == tool_html(findings.deep_view(), t@),
{
    let class = if is_flagged(findings, t.server.as_str()) {
        "flagged"
    } else {
        ""
    };
    let desc = match &t.description {
        Some(d) => d.as_str(),
        None => "(no description)",
    };
    let mut r = owned("<h3>");
    r.append(esc(t.server.as_str()).as_str());
    r.append(" . ");
    r.append(esc(t.name.as_str()).as_str());
    r.append("</h3><pre class='");
    r.append(class);
    r.append("'>");
    r.append(esc(desc).as_str());
    r.append("</pre>");
    r
}

fn flow_line_text(e: &FlowEdge) -> (r: String)
    ensures
        r@ == flow_line(e@),
{
    let mut r = owned(e.src.as_str());
    r.append("  ->  ");
    r.append(e.dst.as_str());
    r.append("     (");
    r.append(e.reason.as_str());
    r.append(")");
    r
}

/// Renders a live introspection as a self-contained HTML page.
pub fn render_live_html(tools: &[ExposedTool], findings: &[Finding], edges: &[FlowEdge]) -> (out: String)
    ensures
        out@ == live_html_spec(tools.deep_view(), findings.deep_view(), edges.deep_view()),
{
    let ghost tv = tools.deep_view();
    let mut desc = String::new();
    let nt = tools.len();
    for i in 0..nt
        invariant
            nt == tv.len(),
            tv == tools.deep_view(),
            desc@ == tools_html(findings.deep_view(), tv.take(i as int)),
    {
        assert(tv.take(i + 1).drop_last() =~= tv.take(i as int));
        assert(tools[i as int]@ == tv[i as int]);
        let part = tool_text(findings, &tools[i]);
        desc.append(part.as_str());
    }
    assert(tv.take(nt as int) =~= tv);
    if desc.as_str().is_empty() {
        desc.append("<p class='muted'>No tools.</p>");
    }

    let sorted = by_severity(findings);
    let ghost fv = sorted.deep_view();
    let mut fr = String::new();
    let n = sorted.len();
    for i in 0..n
        invariant
            n == fv.len(),
            fv == sorted.deep_view(),
            fr@ == live_findings_html(fv.take(i as int)),
    {
        assert(fv.take(i + 1).drop_last() =~= fv.take(i as int));
        assert(sorted[i as int]@ == fv[i as int]);
        let row = live_finding_text(sorted[i]);
        fr.append(row.as_str());
    }
    assert(fv.take(n as int) =~= fv);
    let findings_html = if fr.as_str().is_empty() {
        owned("<h2>Poisoning findings</h2><p>No poisoning indicators.</p>")
    } else {
        let mut s = owned(
            "<h2>Poisoning findings</h2><table><tr><th>rule</th><th>sev</th><th>category</th><th>server</th><th>message</th></tr>",
        );
        s.append(fr.as_str());
        s.append("</table>");
        s
    };

    let flow_html = if edges.len() == 0 {
        owned("<h2>Exfiltration paths</h2><p>None.</p>")
    } else {
        let ghost ev = edges.deep_view();
        let mut lines: Vec<String> = Vec::new();
        let m = edges.len();
        for i in 0..m
            invariant
                m == ev.len(),
                ev == edges.deep_view(),
                lines.deep_view() == flow_lines(ev.take(i as int)),
        {
            assert(ev.take(i + 1).drop_last() =~= ev.take(i as int));
            let ghost prev = lines.deep_view();
            let line = flow_line_text(&edges[i]);
            lines.push(line);
            assert(lines.deep_view() =~= prev.push(line@));
        }
        assert(ev.take(m as int) =~= ev);
        let flow = join(lines.as_slice(), "\n");
        let mut s = owned("<h2>Exfiltration paths</h2><pre>");
        s.append(esc(flow.as_str()).as_str());
        s.append("</pre>");
        s
    };

    let mut body = owned("<h2>Exposed tool descriptions</h2>");
    body.append(desc.as_str());
    body.append(findings_html.as_str());
    body.append(flow_html.as_str());
    page(LIVE_INTRO, body.as_str())
}

} // verus!
