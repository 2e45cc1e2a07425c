//! Report renderers for terminal, Markdown, HTML and SARIF, and the counts and
//! lines they share.

use vstd::prelude::*;

use crate::ir::{ClientSnapshotView, Finding, FindingView, ScanResult, ServerRefView};
use crate::text::{cat, debug_quoted, debug_text, decimal, decimal_string, owned, text_eq};

pub mod html;
pub mod markdown;
pub mod sarif;
pub mod terminal;

verus! {

/// Where the project lives.
pub const INFORMATION_URI: &'static str = "https://github.com/Loping151/ToolGlass";

/// The number of declared servers over all clients.
pub open spec fn server_count_spec(cs: Seq<ClientSnapshotView>) -> nat
    decreases cs.len(),
{
    if cs.len() == 0 {
        0
    } else {
        server_count_spec(cs.drop_last()) + cs.last().servers.len()
    }
}

/// The number of clients whose configs were found.
pub open spec fn detected_count_spec(cs: Seq<ClientSnapshotView>) -> nat
    decreases cs.len(),
{
    if cs.len() == 0 {
        0
    } else {
        detected_count_spec(cs.drop_last()) + if cs.last().detected {
            1nat
        } else {
            0nat
        }
    }
}

/// Whether live introspection can reach a server.
pub open spec fn live_supported(s: ServerRefView) -> bool {
    s.transport == "stdio"@ || (s.transport == "http"@ && s.url is Some)
}

pub open spec fn live_supported_in(ss: Seq<ServerRefView>) -> nat
    decreases ss.len(),
{
    if ss.len() == 0 {
        0
    } else {
        live_supported_in(ss.drop_last()) + if live_supported(ss.last()) {
            1nat
        } else {
            0nat
        }
    }
}

/// The number of servers that live introspection can reach.
pub open spec fn live_supported_count_spec(cs: Seq<ClientSnapshotView>) -> nat
    decreases cs.len(),
{
    if cs.len() == 0 {
        0
    } else {
        live_supported_count_spec(cs.drop_last()) + live_supported_in(cs.last().servers)
    }
}

/// The parse notes of all clients, in order.
pub open spec fn parse_warnings_spec(cs: Seq<ClientSnapshotView>) -> Seq<Seq<char>>
    decreases cs.len(),
{
    if cs.len() == 0 {
        Seq::empty()
    } else {
        parse_warnings_spec(cs.drop_last()) + cs.last().notes
    }
}

/// The number of findings with severity exactly `sev`.
pub open spec fn count_severity(fs: Seq<FindingView>, sev: Seq<char>) -> nat
    decreases fs.len(),
{
    if fs.len() == 0 {
        0
    } else {
        count_severity(fs.drop_last(), sev) + if fs.last().severity == sev {
            1nat
        } else {
            0nat
        }
    }
}

/// "<servers> servers across <detected> clients · <n> findings: <h> high / <m> medium / <l> low".
pub open spec fn scan_summary_spec(r: crate::ir::ScanResultView) -> Seq<char> {
    decimal(server_count_spec(r.clients)) + " servers across "@ + decimal(detected_count_spec(r.clients))
        + " clients · "@ + decimal(r.findings.len()) + " findings: "@ + decimal(
        count_severity(r.findings, "high"@),
    ) + " high / "@ + decimal(count_severity(r.findings, "medium"@)) + " medium / "@ + decimal(
        count_severity(r.findings, "low"@),
    ) + " low"@
}

/// "scanned <n> clients · <detected> had MCP configs".
pub open spec fn scanned_clients_spec(r: crate::ir::ScanResultView) -> Seq<char> {
    "scanned "@ + decimal(r.clients.len()) + " clients · "@ + decimal(detected_count_spec(r.clients))
        + " had MCP configs"@
}

/// The hint that ends a scan report.
pub open spec fn next_step_spec(r: crate::ir::ScanResultView) -> Seq<char> {
    if live_supported_count_spec(r.clients) > 0 {
        "Tip: run tool-glass scan --live to read actual tool descriptions."@
    } else {
        "Tip: run tool-glass demo to see a tool-poisoning example."@
    }
}

/// The rank that orders severities: high, medium, low, info, then anything else.
pub open spec fn severity_rank_spec(s: Seq<char>) -> u8 {
    if s == "high"@ {
        0
    } else if s == "medium"@ {
        1
    } else if s == "low"@ {
        2
    } else if s == "info"@ {
        3
    } else {
        9
    }
}

/// The findings of rank `rank`, in order.
pub open spec fn with_rank(fs: Seq<FindingView>, rank: u8) -> Seq<FindingView>
    decreases fs.len(),
{
    if fs.len() == 0 {
        Seq::empty()
    } else {
        with_rank(fs.drop_last(), rank) + if severity_rank_spec(fs.last().severity) == rank {
            seq![fs.last()]
        } else {
            Seq::empty()
        }
    }
}

/// The findings stably sorted by severity rank.
pub open spec fn by_severity_spec(fs: Seq<FindingView>) -> Seq<FindingView> {
    with_rank(fs, 0) + with_rank(fs, 1) + with_rank(fs, 2) + with_rank(fs, 3) + with_rank(fs, 9)
}

/// Servers over all clients.
pub fn server_count(result: &ScanResult) -> (n: usize)
    requires
        server_count_spec(result@.clients) <= usize::MAX,
    ensures
        n == server_count_spec(result@.clients),
{
    let ghost cs = result@.clients;
    let mut n: usize = 0;
    let k = result.clients.len();
    for i in 0..k
        invariant
            k == cs.len(),
            cs == result@.clients,
            server_count_spec(cs) <= usize::MAX,
            n == server_count_spec(cs.take(i as int)),
    {
        assert(cs.take(i + 1).drop_last() =~= cs.take(i as int));
        proof {
            lemma_server_count_prefix(cs, i + 1);
        }
        n = n + result.clients[i].servers.len();
    }
    assert(cs.take(k as int) =~= cs);
    n
}

proof fn lemma_server_count_prefix(cs: Seq<ClientSnapshotView>, i: int)
    requires
        0 <= i <= cs.len(),
    ensures
        server_count_spec(cs.take(i)) <= server_count_spec(cs),
    decreases cs.len(),
{
    if i < cs.len() {
        assert(cs.drop_last().take(i) =~= cs.take(i));
        lemma_server_count_prefix(cs.drop_last(), i);
    } else {
        assert(cs.take(i) =~= cs);
    }
}

/// Clients whose configs were found.
pub fn detected_client_count(result: &ScanResult) -> (n: usize)
    ensures
        n == detected_count_spec(result@.clients),
{
    let ghost cs = result@.clients;
    let mut n: usize = 0;
    let k = result.clients.len();
    for i in 0..k
        invariant
            k == cs.len(),
            cs == result@.clients,
            n == detected_count_spec(cs.take(i as int)),
            n <= i,
    {
        assert(cs.take(i + 1).drop_last() =~= cs.take(i as int));
        if result.clients[i].detected {
            n = n + 1;
        }
    }
    assert(cs.take(k as int) =~= cs);
    n
}

/// Servers that live introspection can reach.
pub fn live_supported_server_count(result: &ScanResult) -> (n: usize)
    requires
        server_count_spec(result@.clients) <= usize::MAX,
    ensures
        n == live_supported_count_spec(result@.clients),
{
    let ghost cs = result@.clients;
    let mut n: usize = 0;
    let k = result.clients.len();
    for i in 0..k
        invariant
            k == cs.len(),
            cs == result@.clients,
            server_count_spec(cs) <= usize::MAX,
            n == live_supported_count_spec(cs.take(i as int)),
            n <= server_count_spec(cs.take(i as int)),
    {
        assert(cs.take(i + 1).drop_last() =~= cs.take(i as int));
        proof {
            lemma_server_count_prefix(cs, i + 1);
        }
        let servers = &result.clients[i].servers;
        let ghost ss = cs[i as int].servers;
        let ghost base = n;
        let m = servers.len();
        for j in 0..m
            invariant
                m == ss.len(),
                ss == servers.deep_view(),
                n == base + live_supported_in(ss.take(j as int)),
                live_supported_in(ss.take(j as int)) <= j,
                base <= server_count_spec(cs.take(i as int)),
                server_count_spec(cs.take(i as int)) + m <= usize::MAX,
        {
            assert(ss.take(j + 1).drop_last() =~= ss.take(j as int));
            let s = &servers[j];
            if text_eq(s.transport.as_str(), "stdio") || (text_eq(s.transport.as_str(), "http")
                && s.url.is_some()) {
                n = n + 1;
            }
        }
        assert(ss.take(m as int) =~= ss);
    }
    assert(cs.take(k as int) =~= cs);
    n
}

/// The parse notes of all clients.
pub fn parse_warnings(result: &ScanResult) -> (r: Vec<String>)
    ensures
        r.deep_view() == parse_warnings_spec(result@.clients),
{
    let ghost cs = result@.clients;
    let mut r: Vec<String> = Vec::new();
    let k = result.clients.len();
    for i in 0..k
        invariant
            k == cs.len(),
            cs == result@.clients,
            r.deep_view() == parse_warnings_spec(cs.take(i as int)),
    {
        assert(cs.take(i + 1).drop_last() =~= cs.take(i as int));
        let notes = &result.clients[i].notes;
        let ghost base = r.deep_view();
        let m = notes.len();
        for j in 0..m
            invariant
                m == notes@.len(),
                r.deep_view() == base + notes.deep_view().take(j as int),
        {
            let ghost prev = r.deep_view();
            r.push(owned(notes[j].as_str()));
            assert(r.deep_view() =~= prev.push(notes.deep_view()[j as int]));
            assert(notes.deep_view().take(j + 1) =~= notes.deep_view().take(j as int).push(
                notes.deep_view()[j as int],
            ));
        }
        assert(notes.deep_view().take(m as int) =~= notes.deep_view());
    }
    assert(cs.take(k as int) =~= cs);
    r
}

/// The numbers of high, medium and low findings.
pub fn severity_counts(result: &ScanResult) -> (r: (usize, usize, usize))
    ensures
        r.0 == count_severity(result@.findings, "high"@),
        r.1 == count_severity(result@.findings, "medium"@),
        r.2 == count_severity(result@.findings, "low"@),
{
    let ghost fs = result@.findings;
    let mut high: usize = 0;
    let mut medium: usize = 0;
    let mut low: usize = 0;
    let k = result.findings.len();
    for i in 0..k
        invariant
            k == fs.len(),
            fs == result@.findings,
            high == count_severity(fs.take(i as int), "high"@),
            medium == count_severity(fs.take(i as int), "medium"@),
            low == count_severity(fs.take(i as int), "low"@),
            high <= i,
            medium <= i,
            low <= i,
    {
        assert(fs.take(i + 1).drop_last() =~= fs.take(i as int));
        let s = result.findings[i].severity.as_str();
        if text_eq(s, "high") {
            high = high + 1;
        }
        if text_eq(s, "medium") {
            medium = medium + 1;
        }
        if text_eq(s, "low") {
            low = low + 1;
        }
    }
    assert(fs.take(k as int) =~= fs);
    (high, medium, low)
}

/// The one-line summary of a scan.
pub fn scan_summary_line(result: &ScanResult) -> (r: String)
    requires
        server_count_spec(result@.clients) <= usize::MAX,
    ensures
        r@ == scan_summary_spec(result@),
{
    let (high, medium, low) = severity_counts(result);
    let mut r = decimal_string(server_count(result));
    r.append(" servers across ");
    r.append(decimal_string(detected_client_count(result)).as_str());
    r.append(" clients · ");
    r.append(decimal_string(result.findings.len()).as_str());
    r.append(" findings: ");
    r.append(decimal_string(high).as_str());
    r.append(" high / ");
    r.append(decimal_string(medium).as_str());
    r.append(" medium / ");
    r.append(decimal_string(low).as_str());
    r.append(" low");
    r
}

/// How many clients were scanned and how many had configs.
pub fn scanned_clients_line(result: &ScanResult) -> (r: String)
    ensures
        r@ == scanned_clients_spec(result@),
{
    let mut r = owned("scanned ");
    r.append(decimal_string(result.clients.len()).as_str());
    r.append(" clients · ");
    r.append(decimal_string(detected_client_count(result)).as_str());
    r.append(" had MCP configs");
    r
}

/// The hint that ends a scan report.
pub fn next_step_tip(result: &ScanResult) -> (r: &'static str)
    requires
        server_count_spec(result@.clients) <= usize::MAX,
    ensures
        r@ == next_step_spec(result@),
{
    if live_supported_server_count(result) > 0 {
        "Tip: run tool-glass scan --live to read actual tool descriptions."
    } else {
        "Tip: run tool-glass demo to see a tool-poisoning example."
    }
}

/// The report formats.
#[derive(Debug, Clone, Copy, PartialEq, Eq, Structural)]
pub enum ReportKind {
    Terminal,
    Markdown,
    Html,
    Json,
    Sarif,
}

/// The message for a report format that is not supported.
pub open spec fn unsupported_format_spec(name: Seq<char>) -> Seq<char> {
    "unsupported report format "@ + debug_quoted(name) + "; use terminal|md|html|json|sarif"@
}

/// The report format that `name` selects: "terminal", "md" or "markdown",
/// "html", "json" or "sarif"; any other name is refused with a message.
pub fn report_kind(name: &str) -> (r: Result<ReportKind, String>)
    ensures
        match r {
            Ok(k) => k == (if name@ == "terminal"@ {
                ReportKind::Terminal
            } else if name@ == "md"@ || name@ == "markdown"@ {
                ReportKind::Markdown
            } else if name@ == "html"@ {
                ReportKind::Html
            } else if name@ == "json"@ {
                ReportKind::Json
            } else {
                ReportKind::Sarif
            }),
            Err(m) => m@ == unsupported_format_spec(name@),
        },
        r is Ok <==> (name@ == "terminal"@ || name@ == "md"@ || name@ == "markdown"@ || name@ == "html"@
            || name@ == "json"@ || name@ == "sarif"@),
{
    if text_eq(name, "terminal") {
        Ok(ReportKind::Terminal)
    } else if text_eq(name, "md") || text_eq(name, "markdown") {
        Ok(ReportKind::Markdown)
    } else if text_eq(name, "html") {
        Ok(ReportKind::Html)
    } else if text_eq(name, "json") {
        Ok(ReportKind::Json)
    } else if text_eq(name, "sarif") {
        Ok(ReportKind::Sarif)
    } else {
        let mut m = cat("unsupported report format ", debug_text(name).as_str());
        m.append("; use terminal|md|html|json|sarif");
        Err(m)
    }
}

/// The rank that orders severities.
pub fn severity_rank(severity: &str) -> (r: u8)
    ensures
        r == severity_rank_spec(severity@),
{
    if text_eq(severity, "high") {
        0
    } else if text_eq(severity, "medium") {
        1
    } else if text_eq(severity, "low") {
        2
    } else if text_eq(severity, "info") {
        3
    } else {
        9
    }
}

/// The findings of one rank, in order.
fn push_with_rank<'a>(fs: &'a [Finding], rank: u8, out: &mut Vec<&'a Finding>)
    ensures
        final(out).deep_view() == old(out).deep_view() + with_rank(fs.deep_view(), rank),
{
    let ghost base = out.deep_view();
    let ghost all = fs.deep_view();
    let n = fs.len();
    for i in 0..n
        invariant
            n == all.len(),
            all == fs.deep_view(),
            out.deep_view() == base + with_rank(all.take(i as int), rank),
    {
        assert(all.take(i + 1).drop_last() =~= all.take(i as int));
        let ghost prev = out.deep_view();
        if severity_rank(fs[i].severity.as_str()) == rank {
            out.push(&fs[i]);
            assert(out.deep_view() =~= prev.push(all[i as int]));
        }
        assert(out.deep_view() =~= base + with_rank(all.take(i + 1), rank));
    }
    assert(all.take(n as int) =~= all);
}

/// The findings stably sorted by severity: high, medium, low, info, other.
pub fn by_severity<'a>(fs: &'a [Finding]) -> (r: Vec<&'a Finding>)
    ensures
        r.deep_view() == by_severity_spec(fs.deep_view()),
{
    let mut r: Vec<&'a Finding> = Vec::new();
    assert(r.deep_view() =~= Seq::<FindingView>::empty());
    push_with_rank(fs, 0, &mut r);
    push_with_rank(fs, 1, &mut r);
    push_with_rank(fs, 2, &mut r);
    push_with_rank(fs, 3, &mut r);
    push_with_rank(fs, 9, &mut r);
    r
}

/// Every finding of `with_rank(fs, rank)` has that rank.
proof fn lemma_with_rank_members(fs: Seq<FindingView>, rank: u8, i: int)
    requires
        0 <= i < with_rank(fs, rank).len(),
    ensures
        severity_rank_spec(with_rank(fs, rank)[i].severity) == rank,
    decreases fs.len(),
{
    let d = with_rank(fs.drop_last(), rank);
    if i < d.len() {
        lemma_with_rank_members(fs.drop_last(), rank, i);
    }
}

/// The five rank groups hold, together, exactly the findings.
proof fn lemma_ranks_partition(fs: Seq<FindingView>)
    ensures
        by_severity_spec(fs).to_multiset() == fs.to_multiset(),
    decreases fs.len(),
{
    broadcast use vstd::seq_lib::lemma_multiset_commutative, vstd::seq_lib::to_multiset_build, vstd::multiset::group_multiset_axioms;

    if fs.len() == 0 {
        assert(by_severity_spec(fs) =~= fs);
    } else {
        let d = fs.drop_last();
        let x = fs.last();
        lemma_ranks_partition(d);
        assert(fs =~= d.push(x));
        let r = severity_rank_spec(x.severity);
        assert(r == 0 || r == 1 || r == 2 || r == 3 || r == 9);
        let a0 = with_rank(d, 0);
        let a1 = with_rank(d, 1);
        let a2 = with_rank(d, 2);
        let a3 = with_rank(d, 3);
        let a9 = with_rank(d, 9);
        assert(by_severity_spec(d).to_multiset() =~= a0.to_multiset().add(a1.to_multiset()).add(
            a2.to_multiset(),
        ).add(a3.to_multiset()).add(a9.to_multiset()));
        assert(by_severity_spec(fs).to_multiset() =~= with_rank(fs, 0).to_multiset().add(
            with_rank(fs, 1).to_multiset(),
        ).add(with_rank(fs, 2).to_multiset()).add(with_rank(fs, 3).to_multiset()).add(
            with_rank(fs, 9).to_multiset(),
        ));
        assert(by_severity_spec(fs).to_multiset() =~= by_severity_spec(d).to_multiset().insert(x));
        assert(d.push(x).to_multiset() =~= d.to_multiset().insert(x));
        assert(fs.to_multiset() =~= d.to_multiset().insert(x));
    }
}

/// Law: sorting by severity keeps every finding (the result holds exactly the
/// same findings, each as often) and puts them in order of severity rank.
pub proof fn lemma_by_severity_keeps_all(fs: Seq<FindingView>)
    ensures
        by_severity_spec(fs).to_multiset() == fs.to_multiset(),
        forall|i: int, j: int|
            0 <= i < j < by_severity_spec(fs).len() ==> severity_rank_spec(
                (#[trigger] by_severity_spec(fs)[i]).severity,
            ) <= severity_rank_spec((#[trigger] by_severity_spec(fs)[j]).severity),
{
    lemma_ranks_partition(fs);
    let r = by_severity_spec(fs);
    let l0 = with_rank(fs, 0).len();
    let l1 = l0 + with_rank(fs, 1).len();
    let l2 = l1 + with_rank(fs, 2).len();
    let l3 = l2 + with_rank(fs, 3).len();
    assert forall|i: int| 0 <= i < r.len() implies {
        let k = severity_rank_spec(#[trigger] r[i].severity);
        &&& i < l0 ==> k == 0
        &&& l0 <= i < l1 ==> k == 1
        &&& l1 <= i < l2 ==> k == 2
        &&& l2 <= i < l3 ==> k == 3
        &&& l3 <= i ==> k == 9
    } by {
        if i < l0 {
            lemma_with_rank_members(fs, 0, i);
        } else if i < l1 {
            lemma_with_rank_members(fs, 1, i - l0);
        } else if i < l2 {
            lemma_with_rank_members(fs, 2, i - l1);
        } else if i < l3 {
            lemma_with_rank_members(fs, 3, i - l2);
        } else {
            lemma_with_rank_members(fs, 9, i - l3);
        }
    }
}

} // verus!
