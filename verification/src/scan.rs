//! Scan orchestration: which clients to scan, the scan result over their
//! snapshots, and the decisions of live introspection (which servers to start
//! or query, what to note, how listed tools enter the model).

use vstd::prelude::*;

use crate::adapters::{all, client_name, ClientKind};
use crate::ir::{ClientSnapshot, ClientSnapshotView, ExposedTool, ExposedToolView, ScanResult, ServerRef, ServerRefView};
use crate::mcp::ToolDesc;
use crate::rules::{evaluate, evaluate_spec, lemma_evaluate_concat, suspicious_command_match, suspicious_spec};
use crate::text::{
    cat, chars_of, copy_texts, debug_quoted, debug_text, decimal, decimal_string, join, join_spec, owned,
    push_char, text_eq, trim, trim_spec,
};

verus! {

// ---------------------------------------------------------------------------
// Choosing clients
// ---------------------------------------------------------------------------

/// Every supported client, in scan order.
pub open spec fn all_kinds() -> Seq<ClientKind> {
    seq![
        ClientKind::ClaudeCode,
        ClientKind::Cursor,
        ClientKind::Codex,
        ClientKind::Vscode,
        ClientKind::Cline,
        ClientKind::Goose,
    ]
}

/// Whether a client passes the filter: every client passes no filter, and a
/// filter lets through the clients it names.
pub open spec fn passes(filter: Option<Seq<Seq<char>>>, k: ClientKind) -> bool {
    match filter {
        None => true,
        Some(names) => names.contains(client_name(k)),
    }
}

/// The clients of `ks` that pass the filter, in order.
pub open spec fn chosen_spec(ks: Seq<ClientKind>, filter: Option<Seq<Seq<char>>>) -> Seq<ClientKind>
    decreases ks.len(),
{
    if ks.len() == 0 {
        Seq::empty()
    } else {
        let rest = chosen_spec(ks.drop_last(), filter);
        if passes(filter, ks.last()) {
            rest.push(ks.last())
        } else {
            rest
        }
    }
}

/// The supported clients that `filter` selects (all of them without a filter),
/// in scan order, each with its name.
pub fn chosen_clients(filter: Option<&Vec<String>>) -> (r: Vec<(&'static str, ClientKind)>)
    ensures
        r@.map_values(|p: (&'static str, ClientKind)| p.1) == chosen_spec(all_kinds(), filter.deep_view()),
        forall|i: int| 0 <= i < r@.len() ==> (#[trigger] r@[i]).0@ == client_name(r@[i].1),
{
    let every = all();
    assert(every@.map_values(|p: (&'static str, ClientKind)| p.1) =~= all_kinds());
    let ghost f = filter.deep_view();
    let mut out: Vec<(&'static str, ClientKind)> = Vec::new();
    let n = every.len();
    for i in 0..n
        invariant
            n == every@.len(),
            every@.map_values(|p: (&'static str, ClientKind)| p.1) == all_kinds(),
            forall|j: int| 0 <= j < every@.len() ==> (#[trigger] every@[j]).0@ == client_name(every@[j].1),
            f == filter.deep_view(),
            out@.map_values(|p: (&'static str, ClientKind)| p.1) == chosen_spec(all_kinds().take(i as int), f),
            forall|j: int| 0 <= j < out@.len() ==> (#[trigger] out@[j]).0@ == client_name(out@[j].1),
    {
        assert(all_kinds().take(i + 1).drop_last() =~= all_kinds().take(i as int));
        assert(all_kinds()[i as int] == every@[i as int].1);
        let (name, kind) = every[i];
        let keep = match filter {
            None => true,
            Some(names) => {
                let mut hit = false;
                let m = names.len();
                for j in 0..m
                    invariant
                        m == names@.len(),
                        names.deep_view() == f->0,
                        hit == exists|a: int| 0 <= a < j && (#[trigger] names.deep_view()[a]) == name@,
                {
                    assert(names.deep_view()[j as int] == names@[j as int]@);
                    if text_eq(names[j].as_str(), name) {
                        hit = true;
                    }
                }
                assert(hit == f->0.contains(client_name(kind)));
                hit
            },
        };
        if keep {
            out.push((name, kind));
        }
        assert(out@.map_values(|p: (&'static str, ClientKind)| p.1) =~= chosen_spec(
            all_kinds().take(i + 1),
            f,
        ));
    }
    assert(all_kinds().take(n as int) =~= all_kinds());
    out
}

/// The pieces of `s` between occurrences of `sep` (std's `str::split`: there
/// is always at least one piece).
pub open spec fn split_spec(s: Seq<char>, sep: char) -> Seq<Seq<char>>
    decreases s.len(),
{
    if s.len() == 0 {
        seq![Seq::empty()]
    } else {
        let rest = split_spec(s.drop_last(), sep);
        if s.last() == sep {
            rest.push(Seq::empty())
        } else {
            rest.update(rest.len() - 1, rest.last().push(s.last()))
        }
    }
}

/// The trimmed pieces that are not empty, in order.
pub open spec fn requested_names(pieces: Seq<Seq<char>>) -> Seq<Seq<char>>
    decreases pieces.len(),
{
    if pieces.len() == 0 {
        Seq::empty()
    } else {
        let rest = requested_names(pieces.drop_last());
        let t = trim_spec(pieces.last());
        if t.len() > 0 {
            rest.push(t)
        } else {
            rest
        }
    }
}

/// Whether `n` names a supported client.
pub open spec fn is_client_name(n: Seq<char>) -> bool {
    exists|k: ClientKind| client_name(k) == n
}

/// The names of the supported clients, in scan order.
pub open spec fn client_names() -> Seq<Seq<char>> {
    all_kinds().map_values(|k: ClientKind| client_name(k))
}

/// The message for an unknown client name.
pub open spec fn unknown_client_spec(name: Seq<char>) -> Seq<char> {
    "unknown client "@ + name + "; supported: "@ + join_spec(client_names(), ", "@)
}

/// Whether `r` is what a comma-separated client filter asks for: the trimmed,
/// non-empty names in order, or the message for the first that no client has.
pub open spec fn filter_parsed(text: Seq<char>, r: Result<Seq<Seq<char>>, Seq<char>>) -> bool {
    let names = requested_names(split_spec(text, ','));
    match r {
        Ok(v) => v == names && forall|i: int| 0 <= i < names.len() ==> is_client_name(#[trigger] names[i]),
        Err(m) => exists|i: int|
            0 <= i < names.len() && !is_client_name(#[trigger] names[i]) && m == unknown_client_spec(names[i])
                && forall|j: int| 0 <= j < i ==> is_client_name(#[trigger] names[j]),
    }
}

/// Splits `text` at `sep`.
fn split_text(text: &str, sep: char) -> (r: Vec<String>)
    ensures
        r.deep_view() == split_spec(text@, sep),
{
    let chars = chars_of(text);
    let mut pieces: Vec<String> = Vec::new();
    let mut current = String::new();
    let n = chars.len();
    assert(text@.take(0) =~= Seq::<char>::empty());
    for i in 0..n
        invariant
            n == chars@.len(),
            chars@ == text@,
            pieces.deep_view().push(current@) == split_spec(text@.take(i as int), sep),
    {
        assert(text@.take(i + 1).drop_last() =~= text@.take(i as int));
        let c = chars[i];
        let ghost before = pieces.deep_view().push(current@);
        if c == sep {
            let done = current;
            pieces.push(done);
            current = String::new();
            assert(pieces.deep_view().push(current@) =~= before.push(Seq::empty()));
        } else {
            push_char(&mut current, c);
            assert(pieces.deep_view().push(current@) =~= before.update(before.len() - 1, before.last().push(c)));
        }
    }
    assert(text@.take(n as int) =~= text@);
    let ghost all = pieces.deep_view().push(current@);
    pieces.push(current);
    assert(pieces.deep_view() =~= all);
    pieces
}

/// Whether `name` names a supported client.
fn known_client(name: &str) -> (r: bool)
    ensures
        r == is_client_name(name@),
{
    let every = all();
    let n = every.len();
    for i in 0..n
        invariant
            n == every@.len(),
            every@.len() == 6,
            forall|j: int| 0 <= j < every@.len() ==> (#[trigger] every@[j]).0@ == client_name(every@[j].1),
            every@[0].1 == ClientKind::ClaudeCode,
            every@[1].1 == ClientKind::Cursor,
            every@[2].1 == ClientKind::Codex,
            every@[3].1 == ClientKind::Vscode,
            every@[4].1 == ClientKind::Cline,
            every@[5].1 == ClientKind::Goose,
            forall|j: int| 0 <= j < i ==> client_name(#[trigger] every@[j].1) != name@,
    {
        if text_eq(every[i].0, name) {
            return true;
        }
    }
    assert forall|k: ClientKind| client_name(k) != name@ by {
        match k {
            ClientKind::ClaudeCode => assert(client_name(every@[0].1) != name@),
            ClientKind::Cursor => assert(client_name(every@[1].1) != name@),
            ClientKind::Codex => assert(client_name(every@[2].1) != name@),
            ClientKind::Vscode => assert(client_name(every@[3].1) != name@),
            ClientKind::Cline => assert(client_name(every@[4].1) != name@),
            ClientKind::Goose => assert(client_name(every@[5].1) != name@),
        }
    }
    false
}

/// The message for an unknown client name (see [`unknown_client_spec`]).
fn unknown_client_message(name: &str) -> (r: String)
    ensures
        r@ == unknown_client_spec(name@),
{
    let every = all();
    let mut names: Vec<String> = Vec::new();
    let n = every.len();
    for i in 0..n
        invariant
            n == every@.len(),
            every@.map_values(|p: (&'static str, ClientKind)| p.1) == all_kinds(),
            forall|j: int| 0 <= j < every@.len() ==> (#[trigger] every@[j]).0@ == client_name(every@[j].1),
            names.deep_view() == client_names().take(i as int),
    {
        assert(every@.map_values(|p: (&'static str, ClientKind)| p.1)[i as int] == every@[i as int].1);
        let ghost before = names.deep_view();
        names.push(owned(every[i].0));
        assert(names.deep_view() =~= before.push(client_name(every@[i as int].1)));
        assert(client_names().take(i + 1) =~= client_names().take(i as int).push(client_name(all_kinds()[i as int])));
    }
    assert(every@.map_values(|p: (&'static str, ClientKind)| p.1) =~= all_kinds());
    assert(client_names().take(n as int) =~= client_names());
    let mut m = cat("unknown client ", name);
    m.append("; supported: ");
    let joined = join(names.as_slice(), ", ");
    m.append(joined.as_str());
    m
}

/// Parses a comma-separated client filter: the trimmed, non-empty names in
/// order, each of which must name a supported client; otherwise the message
/// for the first that does not.
pub fn parse_client_filter(text: &str) -> (r: Result<Vec<String>, String>)
    ensures
        filter_parsed(
            text@,
            match r {
                Ok(v) => Ok(v.deep_view()),
                Err(m) => Err(m@),
            },
        ),
{
    let pieces = split_text(text, ',');
    let ghost ps = pieces.deep_view();
    let mut names: Vec<String> = Vec::new();
    let n = pieces.len();
    for i in 0..n
        invariant
            n == ps.len(),
            ps == pieces.deep_view(),
            names.deep_view() == requested_names(ps.take(i as int)),
    {
        assert(ps.take(i + 1).drop_last() =~= ps.take(i as int));
        assert(ps[i as int] == pieces@[i as int]@);
        let t = trim(pieces[i].as_str());
        if t.as_str().is_empty() {
        } else {
            let ghost before = names.deep_view();
            names.push(t);
            assert(names.deep_view() =~= before.push(trim_spec(ps[i as int])));
        }
    }
    assert(ps.take(n as int) =~= ps);
    let ghost req = names.deep_view();
    let m = names.len();
    for i in 0..m
        invariant
            m == req.len(),
            req == names.deep_view(),
            req == requested_names(split_spec(text@, ',')),
            forall|j: int| 0 <= j < i ==> is_client_name(#[trigger] req[j]),
    {
        assert(req[i as int] == names@[i as int]@);
        if !known_client(names[i].as_str()) {
            let msg = unknown_client_message(names[i].as_str());
            return Err(msg);
        }
    }
    Ok(names)
}

// ---------------------------------------------------------------------------
// The scan result
// ---------------------------------------------------------------------------

/// Every server of every snapshot, client by client.
pub open spec fn all_servers(cs: Seq<ClientSnapshotView>) -> Seq<ServerRefView>
    decreases cs.len(),
{
    if cs.len() == 0 {
        Seq::empty()
    } else {
        all_servers(cs.drop_last()) + cs.last().servers
    }
}

/// The scan result over the client snapshots: the snapshots themselves and
/// the config findings over all their servers.
pub fn scan_result(snapshots: Vec<ClientSnapshot>) -> (r: ScanResult)
    ensures
        r@.clients == snapshots.deep_view(),
        r@.findings == evaluate_spec(all_servers(snapshots.deep_view())),
{
    let ghost cs = snapshots.deep_view();
    let mut findings = Vec::new();
    let n = snapshots.len();
    for i in 0..n
        invariant
            n == cs.len(),
            cs == snapshots.deep_view(),
            findings.deep_view() == evaluate_spec(all_servers(cs.take(i as int))),
    {
        assert(cs.take(i + 1).drop_last() =~= cs.take(i as int));
        let mut more = evaluate(snapshots[i].servers.as_slice());
        proof {
            lemma_evaluate_concat(all_servers(cs.take(i as int)), cs[i as int].servers);
        }
        let ghost before = findings.deep_view();
        let ghost added = more.deep_view();
        findings.append(&mut more);
        assert(findings.deep_view() =~= before + added);
    }
    assert(cs.take(n as int) =~= cs);
    ScanResult { clients: snapshots, findings }
}

// ---------------------------------------------------------------------------
// Live launches
// ---------------------------------------------------------------------------

/// A stdio server that live introspection would start.
#[derive(Debug, Clone)]
pub struct LiveLaunch {
    pub client: String,
    pub server: String,
    pub command: String,
    pub args: Vec<String>,
    pub env_keys: Vec<String>,
    pub suspicious_match: Option<String>,
}

/// The mathematical content of a [`LiveLaunch`].
pub struct LiveLaunchView {
    pub client: Seq<char>,
    pub server: Seq<char>,
    pub command: Seq<char>,
    pub args: Seq<Seq<char>>,
    pub env_keys: Seq<Seq<char>>,
    pub suspicious_match: Option<Seq<char>>,
}

impl View for LiveLaunch {
    type V = LiveLaunchView;

    open spec fn view(&self) -> LiveLaunchView {
        LiveLaunchView {
            client: self.client@,
            server: self.server@,
            command: self.command@,
            args: self.args.deep_view(),
            env_keys: self.env_keys.deep_view(),
            suspicious_match: self.suspicious_match.deep_view(),
        }
    }
}

impl DeepView for LiveLaunch {
    type V = LiveLaunchView;

    open spec fn deep_view(&self) -> LiveLaunchView {
        self@
    }
}

/// Whether live introspection starts server `s`: a stdio server with a command.
pub open spec fn starts(s: ServerRefView) -> bool {
    s.transport == "stdio"@ && s.command is Some
}

/// The launch of a server that live introspection starts.
pub open spec fn launch_of(s: ServerRefView) -> LiveLaunchView {
    LiveLaunchView {
        client: s.client,
        server: s.name,
        command: s.command->0,
        args: s.args,
        env_keys: s.env_keys,
        suspicious_match: suspicious_spec(s.command, s.args),
    }
}

/// The launches of `ss`: every server that live introspection starts, in order.
pub open spec fn launches_in(ss: Seq<ServerRefView>) -> Seq<LiveLaunchView>
    decreases ss.len(),
{
    if ss.len() == 0 {
        Seq::empty()
    } else {
        let rest = launches_in(ss.drop_last());
        if starts(ss.last()) {
            rest.push(launch_of(ss.last()))
        } else {
            rest
        }
    }
}

/// The servers of `ss` that live introspection starts, in order.
pub open spec fn started(ss: Seq<ServerRefView>) -> Seq<ServerRefView> {
    ss.filter(|s: ServerRefView| starts(s))
}

/// The launches of servers, one each, in order.
pub open spec fn launches_of(ss: Seq<ServerRefView>) -> Seq<LiveLaunchView> {
    ss.map_values(|s: ServerRefView| launch_of(s))
}

/// Law: the launch list shown before live introspection names exactly the servers
/// that it starts (see [`live_step`]), in order, each with the command and
/// arguments it is started with.
pub proof fn lemma_launches_are_started_servers(ss: Seq<ServerRefView>)
    ensures
        launches_in(ss) == launches_of(started(ss)),
    decreases ss.len(),
{
    reveal(Seq::filter);
    if ss.len() > 0 {
        lemma_launches_are_started_servers(ss.drop_last());
        let sub = started(ss.drop_last());
        if starts(ss.last()) {
            assert(started(ss) == sub.push(ss.last()));
            assert(launches_of(sub.push(ss.last())) =~= launches_of(sub).push(launch_of(ss.last())));
        } else {
            assert(started(ss) == sub);
        }
    } else {
        assert(launches_of(started(ss)) =~= Seq::<LiveLaunchView>::empty());
    }
}

/// Law: without a filter, every supported client is scanned, in scan order.
pub proof fn lemma_no_filter_scans_all(ks: Seq<ClientKind>)
    ensures
        chosen_spec(ks, None) == ks,
    decreases ks.len(),
{
    if ks.len() > 0 {
        lemma_no_filter_scans_all(ks.drop_last());
        assert(ks.drop_last().push(ks.last()) =~= ks);
    }
}

/// The launches of a scan, snapshot by snapshot.
pub open spec fn launches_spec(cs: Seq<ClientSnapshotView>) -> Seq<LiveLaunchView>
    decreases cs.len(),
{
    if cs.len() == 0 {
        Seq::empty()
    } else {
        launches_spec(cs.drop_last()) + launches_in(cs.last().servers)
    }
}

/// The stdio servers that live introspection would start, with what each is
/// started with and its first suspicious launch pattern.
pub fn live_launches(result: &ScanResult) -> (r: Vec<LiveLaunch>)
    ensures
        r.deep_view() == launches_spec(result@.clients),
{
    let ghost cs = result@.clients;
    let mut out: Vec<LiveLaunch> = Vec::new();
    let n = result.clients.len();
    for i in 0..n
        invariant
            n == cs.len(),
            cs == result@.clients,
            out.deep_view() == launches_spec(cs.take(i as int)),
    {
        assert(cs.take(i + 1).drop_last() =~= cs.take(i as int));
        let servers = &result.clients[i].servers;
        let ghost ss = cs[i as int].servers;
        let ghost base = out.deep_view();
        let m = servers.len();
        for j in 0..m
            invariant
                m == ss.len(),
                ss == servers.deep_view(),
                out.deep_view() == base + launches_in(ss.take(j as int)),
        {
            assert(ss.take(j + 1).drop_last() =~= ss.take(j as int));
            let s = &servers[j];
            assert(ss[j as int] == s@);
            assert(ss.take(j + 1).last() == s@);
            if text_eq(s.transport.as_str(), "stdio") {
                match &s.command {
                    Some(command) => {
                        let launch = LiveLaunch {
                            client: owned(s.client.as_str()),
                            server: owned(s.name.as_str()),
                            command: owned(command.as_str()),
                            args: copy_texts(s.args.as_slice()),
                            env_keys: copy_texts(s.env_keys.as_slice()),
                            suspicious_match: suspicious_command_match(
                                Some(command.as_str()),
                                s.args.as_slice(),
                            ),
                        };
                        let ghost before = out.deep_view();
                        out.push(launch);
                        assert(out.deep_view() =~= before.push(launch@));
                    },
                    None => {},
                }
            }
            assert(out.deep_view() =~= base + launches_in(ss.take(j + 1)));
        }
        assert(ss.take(m as int) =~= ss);
    }
    assert(cs.take(n as int) =~= cs);
    out
}

/// The environment keys as listed: "-" when there are none, else comma-separated.
pub open spec fn env_list_spec(keys: Seq<Seq<char>>) -> Seq<char> {
    if keys.len() == 0 {
        "-"@
    } else {
        join_spec(keys, ","@)
    }
}

/// The line that lists one launch before live introspection.
pub open spec fn launch_line_spec(l: LiveLaunchView) -> Seq<char> {
    let args = if l.args.len() == 0 {
        Seq::empty()
    } else {
        " "@ + join_spec(l.args, " "@)
    };
    let launch = l.client + "."@ + l.server + ": "@ + l.command + args + " [env: "@ + env_list_spec(
        l.env_keys,
    ) + "]"@;
    match l.suspicious_match {
        Some(m) => "\x1b[31mDANGEROUS TG-003 "@ + launch + " matched "@ + debug_quoted(m) + "\x1b[0m"@,
        None => "  "@ + launch,
    }
}

/// The lines that announce the launches: a heading and one line per launch,
/// or nothing when there is no launch.
pub open spec fn launch_lines_spec(ls: Seq<LiveLaunchView>) -> Seq<Seq<char>> {
    if ls.len() == 0 {
        Seq::empty()
    } else {
        seq!["--live will start these stdio MCP servers:"@] + ls.map_values(
            |l: LiveLaunchView| launch_line_spec(l),
        )
    }
}

/// The environment keys as listed (see [`env_list_spec`]).
fn env_list_text(keys: &Vec<String>) -> (r: String)
    ensures
        r@ == env_list_spec(keys.deep_view()),
{
    if keys.len() == 0 {
        owned("-")
    } else {
        join(keys.as_slice(), ",")
    }
}

/// The line that lists one launch (see [`launch_line_spec`]).
fn launch_line(l: &LiveLaunch) -> (r: String)
    ensures
        r@ == launch_line_spec(l@),
{
    let args = if l.args.len() == 0 {
        String::new()
    } else {
        let joined = join(l.args.as_slice(), " ");
        cat(" ", joined.as_str())
    };
    let mut launch = cat(l.client.as_str(), ".");
    append_text(&mut launch, l.server.as_str());
    append_text(&mut launch, ": ");
    append_text(&mut launch, l.command.as_str());
    append_text(&mut launch, args.as_str());
    append_text(&mut launch, " [env: ");
    let env = env_list_text(&l.env_keys);
    append_text(&mut launch, env.as_str());
    append_text(&mut launch, "]");
    match &l.suspicious_match {
        Some(m) => {
            let mut r = cat("\x1b[31mDANGEROUS TG-003 ", launch.as_str());
            append_text(&mut r, " matched ");
            let quoted = debug_text(m.as_str());
            append_text(&mut r, quoted.as_str());
            append_text(&mut r, "\x1b[0m");
            r
        },
        None => cat("  ", launch.as_str()),
    }
}

/// The lines that announce the launches (see [`launch_lines_spec`]).
pub fn launch_lines(launches: &[LiveLaunch]) -> (r: Vec<String>)
    ensures
        r.deep_view() == launch_lines_spec(launches.deep_view()),
{
    let mut r: Vec<String> = Vec::new();
    let n = launches.len();
    if n == 0 {
        assert(r.deep_view() =~= launch_lines_spec(launches.deep_view()));
        return r;
    }
    r.push(owned("--live will start these stdio MCP servers:"));
    let ghost ls = launches.deep_view();
    for i in 0..n
        invariant
            n == ls.len(),
            ls == launches.deep_view(),
            r.deep_view() == seq!["--live will start these stdio MCP servers:"@] + ls.take(i as int).map_values(
                |l: LiveLaunchView| launch_line_spec(l),
            ),
    {
        let ghost before = r.deep_view();
        assert(ls[i as int] == launches@[i as int]@);
        r.push(launch_line(&launches[i]));
        assert(r.deep_view() =~= before.push(launch_line_spec(ls[i as int])));
        assert(ls.take(i + 1).map_values(|l: LiveLaunchView| launch_line_spec(l)) =~= ls.take(
            i as int,
        ).map_values(|l: LiveLaunchView| launch_line_spec(l)).push(launch_line_spec(ls[i as int])));
    }
    assert(ls.take(n as int) =~= ls);
    r
}

/// What happens after the launches were announced.
#[derive(Debug, Clone, Copy, PartialEq, Eq, Structural)]
pub enum GateDecision {
    /// Go ahead with live introspection.
    Proceed,
    /// Stop: there are dangerous launches and they were not allowed.
    Refuse,
    /// Ask the user to confirm first.
    Confirm,
}

/// Why live introspection is refused when dangerous launches are not allowed.
pub const REFUSE_MESSAGE: &'static str = "use --run-dangerous to force live introspection of TG-003 servers";

/// The launches that match a suspicious pattern, in order.
pub open spec fn dangerous_spec(ls: Seq<LiveLaunchView>) -> Seq<LiveLaunchView> {
    ls.filter(|l: LiveLaunchView| l.suspicious_match is Some)
}

/// The warnings printed about dangerous launches.
pub open spec fn gate_warnings_spec(ls: Seq<LiveLaunchView>, run_dangerous: bool) -> Seq<Seq<char>> {
    let d = dangerous_spec(ls);
    if d.len() == 0 {
        Seq::empty()
    } else {
        let action = if run_dangerous {
            "Warning: --live may execute"@
        } else {
            "Refusing --live:"@
        };
        seq![
            "\x1b[31m"@ + action + " "@ + decimal(d.len()) + " stdio server(s) matching TG-003 suspicious_command.\x1b[0m"@,
        ] + d.map_values(|l: LiveLaunchView| "  dangerous server: "@ + l.client + "."@ + l.server) + if run_dangerous {
            seq!["\x1b[31m--run-dangerous set; TG-003 servers may now be executed.\x1b[0m"@]
        } else {
            Seq::empty()
        }
    }
}

/// The decision after the launches were announced: go ahead when there is
/// nothing to launch; refuse when a launch is dangerous and that was not
/// allowed; else go ahead when confirmed in advance, and ask otherwise.
pub open spec fn gate_decision_spec(ls: Seq<LiveLaunchView>, yes: bool, run_dangerous: bool) -> GateDecision {
    if ls.len() == 0 {
        GateDecision::Proceed
    } else if dangerous_spec(ls).len() > 0 && !run_dangerous {
        GateDecision::Refuse
    } else if yes {
        GateDecision::Proceed
    } else {
        GateDecision::Confirm
    }
}

/// The warnings about dangerous launches and the decision that follows them.
pub fn live_gate(launches: &[LiveLaunch], yes: bool, run_dangerous: bool) -> (r: (Vec<String>, GateDecision))
    ensures
        r.0.deep_view() == (if launches@.len() == 0 {
            Seq::empty()
        } else {
            gate_warnings_spec(launches.deep_view(), run_dangerous)
        }),
        r.1 == gate_decision_spec(launches.deep_view(), yes, run_dangerous),
{
    let ghost ls = launches.deep_view();
    let mut warnings: Vec<String> = Vec::new();
    let n = launches.len();
    if n == 0 {
        assert(warnings.deep_view() =~= Seq::<Seq<char>>::empty());
        return (warnings, GateDecision::Proceed);
    }
    assert(dangerous_spec(ls.take(0)) =~= Seq::<LiveLaunchView>::empty()) by {
        reveal(Seq::filter);
    }
    let mut listed: Vec<String> = Vec::new();
    let mut count: usize = 0;
    for i in 0..n
        invariant
            n == ls.len(),
            ls == launches.deep_view(),
            count == dangerous_spec(ls.take(i as int)).len(),
            count <= i,
            listed.deep_view() == dangerous_spec(ls.take(i as int)).map_values(
                |l: LiveLaunchView| "  dangerous server: "@ + l.client + "."@ + l.server,
            ),
    {
        proof {
            reveal(Seq::filter);
        }
        assert(ls.take(i + 1).drop_last() =~= ls.take(i as int));
        assert(ls.take(i + 1).last() == ls[i as int]);
        assert(ls[i as int] == launches@[i as int]@);
        let l = &launches[i];
        if l.suspicious_match.is_some() {
            let ghost before = listed.deep_view();
            let mut line = cat("  dangerous server: ", l.client.as_str());
            append_text(&mut line, ".");
            append_text(&mut line, l.server.as_str());
            listed.push(line);
            count = count + 1;
            assert(listed.deep_view() =~= before.push("  dangerous server: "@ + ls[i as int].client + "."@ + ls[i as int].server));
            assert(dangerous_spec(ls.take(i + 1)) == dangerous_spec(ls.take(i as int)).push(ls[i as int]));
        } else {
            assert(dangerous_spec(ls.take(i + 1)) == dangerous_spec(ls.take(i as int)));
        }
        assert(dangerous_spec(ls.take(i + 1)).map_values(
            |l: LiveLaunchView| "  dangerous server: "@ + l.client + "."@ + l.server,
        ) =~= listed.deep_view());
    }
    assert(ls.take(n as int) =~= ls);
    if count > 0 {
        let action = if run_dangerous {
            "Warning: --live may execute"
        } else {
            "Refusing --live:"
        };
        let mut head = cat("\x1b[31m", action);
        append_text(&mut head, " ");
        let number = decimal_string(count);
        append_text(&mut head, number.as_str());
        append_text(&mut head, " stdio server(s) matching TG-003 suspicious_command.\x1b[0m");
        warnings.push(head);
        let ghost w = warnings.deep_view();
        let ghost lv = listed.deep_view();
        warnings.append(&mut listed);
        assert(warnings.deep_view() =~= w + lv);
        if run_dangerous {
            let ghost w2 = warnings.deep_view();
            warnings.push(owned("\x1b[31m--run-dangerous set; TG-003 servers may now be executed.\x1b[0m"));
            assert(warnings.deep_view() =~= w2.push("\x1b[31m--run-dangerous set; TG-003 servers may now be executed.\x1b[0m"@));
        } else {
            return (warnings, GateDecision::Refuse);
        }
    } else {
        assert(warnings.deep_view() =~= gate_warnings_spec(ls, run_dangerous));
    }
    if yes {
        (warnings, GateDecision::Proceed)
    } else {
        (warnings, GateDecision::Confirm)
    }
}

/// Whether an answer to the confirmation prompt says yes.
pub fn confirms(answer: &str) -> (r: bool)
    ensures
        r == ({
            let a = trim_spec(answer@);
            a == "y"@ || a == "Y"@ || a == "yes"@ || a == "YES"@ || a == "Yes"@
        }),
{
    let a = trim(answer);
    let s = a.as_str();
    text_eq(s, "y") || text_eq(s, "Y") || text_eq(s, "yes") || text_eq(s, "YES") || text_eq(s, "Yes")
}

// ---------------------------------------------------------------------------
// Live introspection
// ---------------------------------------------------------------------------

/// What live introspection does with one declared server.
pub enum LiveStep {
    /// Start `command` with `args` and the server's own environment values,
    /// after noting `note`.
    Stdio { note: String, command: String, args: Vec<String>, env: Vec<(String, String)> },
    /// Only note `note`.
    Note(String),
    /// Nothing.
    Skip,
}

/// `client.name` of a server.
pub open spec fn qualified_name(s: ServerRefView) -> Seq<char> {
    s.client + "."@ + s.name
}

/// The note before starting a stdio server.
pub open spec fn stdio_note(s: ServerRefView) -> Seq<char> {
    "introspect "@ + qualified_name(s) + ": "@ + s.command->0 + " "@ + join_spec(s.args, " "@)
        + " [env: "@ + env_list_spec(s.env_keys) + "]"@
}

/// The note for a server on the SSE transport.
pub open spec fn sse_note(s: ServerRefView) -> Seq<char> {
    "introspect "@ + qualified_name(s) + ": SSE transport not yet supported for live introspection"@
}

/// The note for a stdio server that could not be introspected.
pub open spec fn failure_spec(s: ServerRefView) -> Seq<char> {
    "  failed "@ + qualified_name(s) + ": could not start MCP server "@ + qualified_name(s)
        + " (command failed or it is not an MCP server)"@
}

/// `client.name` of a server.
fn qualified(s: &ServerRef) -> (r: String)
    ensures
        r@ == qualified_name(s@),
{
    let a = cat(s.client.as_str(), ".");
    cat(a.as_str(), s.name.as_str())
}

/// Appends `b` to `a`.
fn append_text(a: &mut String, b: &str)
    ensures
        final(a)@ == old(a)@ + b@,
{
    a.append(b);
}

/// Owned copies of (key, value) pairs.
fn copy_pairs(v: &Vec<(String, String)>) -> (r: Vec<(String, String)>)
    ensures
        r.deep_view() == v.deep_view(),
{
    let mut r: Vec<(String, String)> = Vec::new();
    let n = v.len();
    for i in 0..n
        invariant
            n == v@.len(),
            r.deep_view() == v.deep_view().take(i as int),
    {
        let ghost before = r.deep_view();
        r.push((owned(v[i].0.as_str()), owned(v[i].1.as_str())));
        assert(v.deep_view()[i as int] == (v@[i as int].0@, v@[i as int].1@));
        assert(r.deep_view() =~= before.push(v.deep_view()[i as int]));
        assert(v.deep_view().take(i + 1) =~= v.deep_view().take(i as int).push(v.deep_view()[i as int]));
    }
    assert(v.deep_view().take(n as int) =~= v.deep_view());
    r
}

/// What live introspection does with server `s`: start a stdio server that
/// has a command, note an SSE server, and pass over any other. Live
/// introspection only lists the tools of stdio servers, so it never makes a
/// network request.
pub fn live_step(s: &ServerRef) -> (r: LiveStep)
    ensures
        r is Stdio <==> starts(s@),
        r is Note <==> s@.transport == "sse"@,
        r is Skip <==> !starts(s@) && s@.transport != "sse"@,
        r is Stdio ==> {
            &&& s@.command == Some(r->Stdio_command@)
            &&& r->Stdio_note@ == stdio_note(s@)
            &&& r->Stdio_args.deep_view() == s@.args
            &&& r->Stdio_env.deep_view() == s@.env_values
        },
        r is Note ==> r->Note_0@ == sse_note(s@),
{
    proof {
        reveal_strlit("stdio");
        reveal_strlit("sse");
        assert("stdio"@.len() == 5);
        assert("sse"@.len() == 3);
    }
    let name = qualified(s);
    if text_eq(s.transport.as_str(), "stdio") {
        match &s.command {
            Some(command) => {
                let mut note = cat("introspect ", name.as_str());
                append_text(&mut note, ": ");
                append_text(&mut note, command.as_str());
                append_text(&mut note, " ");
                let args_text = join(s.args.as_slice(), " ");
                append_text(&mut note, args_text.as_str());
                append_text(&mut note, " [env: ");
                assert(s.env_keys.deep_view().len() == s.env_keys@.len());
                let env_list = if s.env_keys.len() == 0 {
                    owned("-")
                } else {
                    join(s.env_keys.as_slice(), ",")
                };
                append_text(&mut note, env_list.as_str());
                append_text(&mut note, "]");
                LiveStep::Stdio {
                    note,
                    command: owned(command.as_str()),
                    args: copy_texts(s.args.as_slice()),
                    env: copy_pairs(&s.env_values),
                }
            },
            None => LiveStep::Skip,
        }
    } else if text_eq(s.transport.as_str(), "sse") {
        let mut note = cat("introspect ", name.as_str());
        append_text(&mut note, ": SSE transport not yet supported for live introspection");
        LiveStep::Note(note)
    } else {
        LiveStep::Skip
    }
}

/// The note for stdio server `s` when starting it failed.
pub fn failure_note(s: &ServerRef) -> (r: String)
    ensures
        r@ == failure_spec(s@),
{
    let name = qualified(s);
    let mut note = cat("  failed ", name.as_str());
    append_text(&mut note, ": could not start MCP server ");
    append_text(&mut note, name.as_str());
    append_text(&mut note, " (command failed or it is not an MCP server)");
    note
}

/// The tool that server `s` lists as `d`.
pub open spec fn live_tool(s: ServerRefView, d: ToolDesc) -> ExposedToolView {
    ExposedToolView {
        client: s.client,
        server: s.name,
        name: d.name@,
        description: d.description.deep_view(),
        source: "live"@,
    }
}

/// Adds the tools that server `s` listed, in order, each tagged as live and
/// keeping its input schema.
pub fn push_live_tools(tools: &mut Vec<ExposedTool>, s: &ServerRef, descs: Vec<ToolDesc>)
    ensures
        final(tools)@.len() == old(tools)@.len() + descs@.len(),
        forall|i: int| 0 <= i < old(tools)@.len() ==> #[trigger] final(tools)@[i] == old(tools)@[i],
        forall|i: int|
            0 <= i < descs@.len() ==> {
                &&& (#[trigger] final(tools)@[old(tools)@.len() + i])@ == live_tool(s@, descs@[i])
                &&& final(tools)@[old(tools)@.len() + i].input_schema == descs@[i].input_schema
            },
{
    let ghost start = tools@;
    let ghost ds = descs@;
    let mut descs = descs;
    let n = descs.len();
    let mut k: usize = 0;
    while k < n
        invariant
            n == ds.len(),
            k <= n,
            descs@ == ds.skip(k as int),
            tools@.len() == start.len() + k,
            forall|i: int| 0 <= i < start.len() ==> #[trigger] tools@[i] == start[i],
            forall|i: int|
                0 <= i < k ==> {
                    &&& (#[trigger] tools@[start.len() + i])@ == live_tool(s@, ds[i])
                    &&& tools@[start.len() + i].input_schema == ds[i].input_schema
                },
        decreases n - k,
    {
        let d = descs.remove(0);
        assert(d == ds[k as int]);
        assert(descs@ =~= ds.skip(k + 1));
        let ToolDesc { name, description, input_schema } = d;
        let tool = ExposedTool {
            client: owned(s.client.as_str()),
            server: owned(s.name.as_str()),
            name,
            description,
            input_schema,
            source: owned("live"),
        };
        tools.push(tool);
        k = k + 1;
    }
}

} // verus!
