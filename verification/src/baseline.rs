//! Baselines: a snapshot of the servers, tools and gating findings of one scan,
//! and the diff of a later scan against it.

use vstd::prelude::*;
use vstd::seq_lib::lemma_seq_concat_contains_all_elements;

use crate::assoc::{
    assoc_get, assoc_insert, get, insert, is_position, keys_sorted, lemma_get_at, lemma_get_some,
    has_key, lemma_insert_at, lemma_insert_entries, lemma_insert_keys, lemma_insert_sorted,
    lemma_sorted_keys_unique, locate,
};
use crate::ir::{ExposedTool, ExposedToolView, Finding, FindingView, ScanResult, ScanResultView};
use crate::ir::{ClientSnapshotView, ServerRefView};
use crate::text::{
    decimal, decimal_string, eq_ignore_ascii_case, eq_ignore_ascii_case_spec, hex_bytes, hex_string,
    is_lower_hex, lemma_hex_bytes, owned, push_char, text_eq, text_lt,
};

verus! {

/// The layout version of a snapshot.
pub const SCHEMA_VERSION: u32 = 1;

// ---------------------------------------------------------------------------
// Snapshot types
// ---------------------------------------------------------------------------

/// One scan, reduced to what a later scan is compared on.
#[derive(Debug, Clone)]
pub struct Snapshot {
    pub schema_version: u32,
    /// Per client, in client-name order.
    pub clients: Vec<(String, ClientBaseline)>,
    pub findings: Vec<FindingBaseline>,
}

/// The servers of one client, in server-name order.
#[derive(Debug, Clone, Default)]
pub struct ClientBaseline {
    pub servers: Vec<(String, ServerBaseline)>,
}

/// What is compared of one server.
#[derive(Debug, Clone, Default, PartialEq, Eq)]
pub struct ServerBaseline {
    pub command: Option<String>,
    pub url: Option<String>,
    pub transport: String,
    pub approval: String,
    /// Sorted, without duplicates.
    pub env_keys: Vec<String>,
    /// Per tool, in tool-name order.
    pub tools: Vec<(String, ToolBaseline)>,
}

/// What is compared of one tool.
#[derive(Debug, Clone, Default, PartialEq, Eq)]
pub struct ToolBaseline {
    pub description_sha256: String,
}

/// A high or medium finding, with a fingerprint of its text.
#[derive(Debug, Clone)]
pub struct FindingBaseline {
    pub fingerprint: String,
    pub rule_id: String,
    pub severity: String,
    pub category: String,
    pub client: String,
    pub server: String,
    pub evidence: String,
}

/// A server, by client and name.
#[derive(Debug, Clone, Default, PartialEq, Eq)]
pub struct ServerId {
    pub client: String,
    pub server: String,
}

/// A tool, by client, server and name.
#[derive(Debug, Clone, Default, PartialEq, Eq)]
pub struct ToolId {
    pub client: String,
    pub server: String,
    pub tool: String,
}

/// A server whose compared fields changed, with the names of those fields.
#[derive(Debug, Clone, Default, PartialEq, Eq)]
pub struct ChangedServer {
    pub id: ServerId,
    pub fields: Vec<String>,
}

/// A tool whose description changed.
#[derive(Debug, Clone, Default, PartialEq, Eq)]
pub struct ChangedTool {
    pub id: ToolId,
    pub base_description_sha256: String,
    pub current_description_sha256: String,
}

/// What changed between a baseline and a scan.
#[derive(Debug, Default)]
pub struct Diff {
    pub added_servers: Vec<ServerId>,
    pub removed_servers: Vec<ServerId>,
    pub changed_servers: Vec<ChangedServer>,
    pub added_tools: Vec<ToolId>,
    pub removed_tools: Vec<ToolId>,
    pub changed_tools: Vec<ChangedTool>,
    pub new_findings: Vec<Finding>,
}

// ---------------------------------------------------------------------------
// Views
// ---------------------------------------------------------------------------

pub struct ToolBaselineView {
    pub description_sha256: Seq<char>,
}

pub struct ServerBaselineView {
    pub command: Option<Seq<char>>,
    pub url: Option<Seq<char>>,
    pub transport: Seq<char>,
    pub approval: Seq<char>,
    pub env_keys: Seq<Seq<char>>,
    pub tools: Seq<(Seq<char>, ToolBaselineView)>,
}

pub struct ClientBaselineView {
    pub servers: Seq<(Seq<char>, ServerBaselineView)>,
}

pub struct FindingBaselineView {
    pub fingerprint: Seq<char>,
    pub rule_id: Seq<char>,
    pub severity: Seq<char>,
    pub category: Seq<char>,
    pub client: Seq<char>,
    pub server: Seq<char>,
    pub evidence: Seq<char>,
}

pub struct SnapshotView {
    pub schema_version: u32,
    pub clients: Seq<(Seq<char>, ClientBaselineView)>,
    pub findings: Seq<FindingBaselineView>,
}

pub struct ServerIdView {
    pub client: Seq<char>,
    pub server: Seq<char>,
}

pub struct ToolIdView {
    pub client: Seq<char>,
    pub server: Seq<char>,
    pub tool: Seq<char>,
}

pub struct ChangedServerView {
    pub id: ServerIdView,
    pub fields: Seq<Seq<char>>,
}

pub struct ChangedToolView {
    pub id: ToolIdView,
    pub base_description_sha256: Seq<char>,
    pub current_description_sha256: Seq<char>,
}

pub struct DiffView {
    pub added_servers: Seq<ServerIdView>,
    pub removed_servers: Seq<ServerIdView>,
    pub changed_servers: Seq<ChangedServerView>,
    pub added_tools: Seq<ToolIdView>,
    pub removed_tools: Seq<ToolIdView>,
    pub changed_tools: Seq<ChangedToolView>,
    pub new_findings: Seq<FindingView>,
}

impl DeepView for ToolBaseline {
    type V = ToolBaselineView;

    open spec fn deep_view(&self) -> ToolBaselineView {
        ToolBaselineView { description_sha256: self.description_sha256@ }
    }
}

impl DeepView for ServerBaseline {
    type V = ServerBaselineView;

    open spec fn deep_view(&self) -> ServerBaselineView {
        ServerBaselineView {
            command: self.command.deep_view(),
            url: self.url.deep_view(),
            transport: self.transport@,
            approval: self.approval@,
            env_keys: self.env_keys.deep_view(),
            tools: self.tools.deep_view(),
        }
    }
}

impl DeepView for ClientBaseline {
    type V = ClientBaselineView;

    open spec fn deep_view(&self) -> ClientBaselineView {
        ClientBaselineView { servers: self.servers.deep_view() }
    }
}

impl DeepView for FindingBaseline {
    type V = FindingBaselineView;

    open spec fn deep_view(&self) -> FindingBaselineView {
        FindingBaselineView {
            fingerprint: self.fingerprint@,
            rule_id: self.rule_id@,
            severity: self.severity@,
            category: self.category@,
            client: self.client@,
            server: self.server@,
            evidence: self.evidence@,
        }
    }
}

impl DeepView for Snapshot {
    type V = SnapshotView;

    open spec fn deep_view(&self) -> SnapshotView {
        SnapshotView {
            schema_version: self.schema_version,
            clients: self.clients.deep_view(),
            findings: self.findings.deep_view(),
        }
    }
}

impl DeepView for ServerId {
    type V = ServerIdView;

    open spec fn deep_view(&self) -> ServerIdView {
        ServerIdView { client: self.client@, server: self.server@ }
    }
}

impl DeepView for ToolId {
    type V = ToolIdView;

    open spec fn deep_view(&self) -> ToolIdView {
        ToolIdView { client: self.client@, server: self.server@, tool: self.tool@ }
    }
}

impl DeepView for ChangedServer {
    type V = ChangedServerView;

    open spec fn deep_view(&self) -> ChangedServerView {
        ChangedServerView { id: self.id.deep_view(), fields: self.fields.deep_view() }
    }
}

impl DeepView for ChangedTool {
    type V = ChangedToolView;

    open spec fn deep_view(&self) -> ChangedToolView {
        ChangedToolView {
            id: self.id.deep_view(),
            base_description_sha256: self.base_description_sha256@,
            current_description_sha256: self.current_description_sha256@,
        }
    }
}

impl DeepView for Diff {
    type V = DiffView;

    open spec fn deep_view(&self) -> DiffView {
        DiffView {
            added_servers: self.added_servers.deep_view(),
            removed_servers: self.removed_servers.deep_view(),
            changed_servers: self.changed_servers.deep_view(),
            added_tools: self.added_tools.deep_view(),
            removed_tools: self.removed_tools.deep_view(),
            changed_tools: self.changed_tools.deep_view(),
            new_findings: self.new_findings.deep_view(),
        }
    }
}

// ---------------------------------------------------------------------------
// Hashes and fingerprints
// ---------------------------------------------------------------------------

/// The SHA-256 digest of `data`, as `sha2::Sha256::digest` computes it.
pub uninterp spec fn sha256_spec(data: Seq<u8>) -> Seq<u8>;

/// Calls `sha2::Sha256::digest`. The digest is named, not restated; the
/// documentation gives its length, 32 bytes.
#[verifier::external_body]
fn sha256_digest(data: &[u8]) -> (r: Vec<u8>)
    ensures
        r@ == sha256_spec(data@),
        r@.len() == 32,
{
    <sha2::Sha256 as sha2::Digest>::digest(data).to_vec()
}

/// Lower-case hex SHA-256 of the UTF-8 encoding of `t`.
pub open spec fn sha256_hex_spec(t: Seq<char>) -> Seq<char> {
    hex_bytes(sha256_spec(vstd::utf8::encode_utf8(t)))
}

/// A SHA-256 digest written in lower-case hex: 64 digits `0`-`9`, `a`-`f`.
pub open spec fn is_hex_digest(h: Seq<char>) -> bool {
    &&& h.len() == 64
    &&& forall|i: int| 0 <= i < h.len() ==> is_lower_hex(#[trigger] h[i])
}

fn sha256_hex(input: &str) -> (r: String)
    ensures
        r@ == sha256_hex_spec(input@),
        is_hex_digest(r@),
{
    let digest = sha256_digest(input.as_bytes());
    proof {
        lemma_hex_bytes(digest@);
    }
    hex_string(digest.as_slice())
}

/// The NUL character that separates fingerprinted fields.
pub open spec fn nul() -> Seq<char> {
    seq!['\0']
}

/// The fingerprint of a finding: SHA-256 of its texts joined by NUL.
pub open spec fn fingerprint_spec(f: FindingView) -> Seq<char> {
    sha256_hex_spec(
        f.rule_id + nul() + f.severity + nul() + f.category + nul() + f.client + nul() + f.server
            + nul() + f.message + nul() + f.evidence,
    )
}

fn finding_fingerprint(finding: &Finding) -> (r: String)
    ensures
        r@ == fingerprint_spec(finding@),
{
    let mut text = owned(finding.rule_id.as_str());
    push_char(&mut text, '\0');
    text.append(finding.severity.as_str());
    push_char(&mut text, '\0');
    text.append(finding.category.as_str());
    push_char(&mut text, '\0');
    text.append(finding.client.as_str());
    push_char(&mut text, '\0');
    text.append(finding.server.as_str());
    push_char(&mut text, '\0');
    text.append(finding.message.as_str());
    push_char(&mut text, '\0');
    text.append(finding.evidence.as_str());
    assert(text@ =~= finding@.rule_id + nul() + finding@.severity + nul() + finding@.category
        + nul() + finding@.client + nul() + finding@.server + nul() + finding@.message + nul()
        + finding@.evidence);
    sha256_hex(text.as_str())
}

/// Severities that gate CI: high and medium, in any ASCII case.
pub open spec fn gating(severity: Seq<char>) -> bool {
    eq_ignore_ascii_case_spec(severity, "high"@) || eq_ignore_ascii_case_spec(severity, "medium"@)
}

fn is_ci_gating_severity(severity: &str) -> (r: bool)
    ensures
        r == gating(severity@),
{
    eq_ignore_ascii_case(severity, "high") || eq_ignore_ascii_case(severity, "medium")
}

pub open spec fn finding_baseline_spec(f: FindingView) -> FindingBaselineView {
    FindingBaselineView {
        fingerprint: fingerprint_spec(f),
        rule_id: f.rule_id,
        severity: f.severity,
        category: f.category,
        client: f.client,
        server: f.server,
        evidence: f.evidence,
    }
}

fn finding_baseline(finding: &Finding) -> (r: FindingBaseline)
    ensures
        r.deep_view() == finding_baseline_spec(finding@),
{
    FindingBaseline {
        fingerprint: finding_fingerprint(finding),
        rule_id: owned(finding.rule_id.as_str()),
        severity: owned(finding.severity.as_str()),
        category: owned(finding.category.as_str()),
        client: owned(finding.client.as_str()),
        server: owned(finding.server.as_str()),
        evidence: owned(finding.evidence.as_str()),
    }
}

/// The baselines of the gating findings, in order.
pub open spec fn baseline_findings(fs: Seq<FindingView>) -> Seq<FindingBaselineView>
    decreases fs.len(),
{
    if fs.len() == 0 {
        Seq::empty()
    } else {
        baseline_findings(fs.drop_last()) + (if gating(fs.last().severity) {
            seq![finding_baseline_spec(fs.last())]
        } else {
            Seq::empty()
        })
    }
}

// ---------------------------------------------------------------------------
// Building a snapshot
// ---------------------------------------------------------------------------

/// The distinct keys of `keys`, as a set kept in key order.
pub open spec fn key_set(keys: Seq<Seq<char>>) -> Seq<(Seq<char>, ())>
    decreases keys.len(),
{
    if keys.len() == 0 {
        Seq::empty()
    } else {
        assoc_insert(key_set(keys.drop_last()), keys.last(), ())
    }
}

/// The distinct keys of `keys` in sorted order (std's `sort` then `dedup`).
pub open spec fn sorted_unique(keys: Seq<Seq<char>>) -> Seq<Seq<char>> {
    let s = key_set(keys);
    Seq::new(s.len(), |i: int| s[i].0)
}

pub open spec fn default_server() -> ServerBaselineView {
    ServerBaselineView {
        command: None,
        url: None,
        transport: Seq::empty(),
        approval: Seq::empty(),
        env_keys: Seq::empty(),
        tools: Seq::empty(),
    }
}

pub open spec fn default_client() -> ClientBaselineView {
    ClientBaselineView { servers: Seq::empty() }
}

pub open spec fn client_or_default(m: Seq<(Seq<char>, ClientBaselineView)>, c: Seq<char>) -> ClientBaselineView {
    match assoc_get(m, c) {
        Some(v) => v,
        None => default_client(),
    }
}

pub open spec fn server_or_default(m: Seq<(Seq<char>, ServerBaselineView)>, s: Seq<char>) -> ServerBaselineView {
    match assoc_get(m, s) {
        Some(v) => v,
        None => default_server(),
    }
}

/// What a declared server contributes to a snapshot.
pub open spec fn server_baseline_of(s: ServerRefView) -> ServerBaselineView {
    ServerBaselineView {
        command: s.command,
        url: s.url,
        transport: s.transport,
        approval: s.approval,
        env_keys: sorted_unique(s.env_keys),
        tools: Seq::empty(),
    }
}

/// Makes sure client `c` has an entry.
pub open spec fn touch_client(m: Seq<(Seq<char>, ClientBaselineView)>, c: Seq<char>) -> Seq<
    (Seq<char>, ClientBaselineView),
> {
    assoc_insert(m, c, client_or_default(m, c))
}

/// Stores server `name` of client `c`.
pub open spec fn put_server(
    m: Seq<(Seq<char>, ClientBaselineView)>,
    c: Seq<char>,
    name: Seq<char>,
    sb: ServerBaselineView,
) -> Seq<(Seq<char>, ClientBaselineView)> {
    assoc_insert(
        m,
        c,
        ClientBaselineView { servers: assoc_insert(client_or_default(m, c).servers, name, sb) },
    )
}

/// Stores the servers `ss` under client `c`, in order.
pub open spec fn put_servers(
    m: Seq<(Seq<char>, ClientBaselineView)>,
    c: Seq<char>,
    ss: Seq<ServerRefView>,
) -> Seq<(Seq<char>, ClientBaselineView)>
    decreases ss.len(),
{
    if ss.len() == 0 {
        m
    } else {
        put_server(put_servers(m, c, ss.drop_last()), c, ss.last().name, server_baseline_of(ss.last()))
    }
}

/// Stores every client snapshot of `cs`, in order.
pub open spec fn add_clients(m: Seq<(Seq<char>, ClientBaselineView)>, cs: Seq<ClientSnapshotView>) -> Seq<
    (Seq<char>, ClientBaselineView),
>
    decreases cs.len(),
{
    if cs.len() == 0 {
        m
    } else {
        let c = cs.last().client;
        put_servers(touch_client(add_clients(m, cs.drop_last()), c), c, cs.last().servers)
    }
}

/// The hash of a tool's description (of the empty text when it has none).
pub open spec fn tool_hash(t: ExposedToolView) -> Seq<char> {
    sha256_hex_spec(
        match t.description {
            Some(d) => d,
            None => Seq::empty(),
        },
    )
}

/// Stores one tool under its client and server.
pub open spec fn put_tool(m: Seq<(Seq<char>, ClientBaselineView)>, t: ExposedToolView) -> Seq<
    (Seq<char>, ClientBaselineView),
> {
    let cb = client_or_default(m, t.client);
    let sb = server_or_default(cb.servers, t.server);
    assoc_insert(
        m,
        t.client,
        ClientBaselineView {
            servers: assoc_insert(
                cb.servers,
                t.server,
                ServerBaselineView {
                    tools: assoc_insert(
                        sb.tools,
                        t.name,
                        ToolBaselineView { description_sha256: tool_hash(t) },
                    ),
                    ..sb
                },
            ),
        },
    )
}

/// Stores every tool of `ts`, in order.
pub open spec fn add_tools(m: Seq<(Seq<char>, ClientBaselineView)>, ts: Seq<ExposedToolView>) -> Seq<
    (Seq<char>, ClientBaselineView),
>
    decreases ts.len(),
{
    if ts.len() == 0 {
        m
    } else {
        put_tool(add_tools(m, ts.drop_last()), ts.last())
    }
}

/// The snapshot of a scan and the tools it listed.
pub open spec fn build_snapshot_spec(r: ScanResultView, ts: Seq<ExposedToolView>) -> SnapshotView {
    SnapshotView {
        schema_version: SCHEMA_VERSION,
        clients: add_tools(add_clients(Seq::empty(), r.clients), ts),
        findings: baseline_findings(r.findings),
    }
}


// ---------------------------------------------------------------------------
// The order of environment keys does not matter
// ---------------------------------------------------------------------------

/// The keys of `key_set(keys)` are sorted and are exactly the keys listed.
proof fn lemma_key_set(keys: Seq<Seq<char>>)
    ensures
        keys_sorted(key_set(keys)),
        forall|x: Seq<char>| has_key(key_set(keys), x) <==> keys.contains(x),
    decreases keys.len(),
{
    if keys.len() > 0 {
        let d = keys.drop_last();
        lemma_key_set(d);
        lemma_insert_sorted(key_set(d), keys.last(), ());
        assert forall|x: Seq<char>| has_key(key_set(keys), x) <==> keys.contains(x) by {
            lemma_insert_keys(key_set(d), keys.last(), (), x);
            if d.contains(x) {
                let i = choose|i: int| 0 <= i < d.len() && d[i] == x;
                assert(keys[i] == x);
            }
            if keys.contains(x) && x != keys.last() {
                let i = choose|i: int| 0 <= i < keys.len() && keys[i] == x;
                assert(d[i] == x);
            }
            if x == keys.last() {
                assert(keys[keys.len() - 1] == x);
            }
        }
    }
}

/// Whether two servers differ at most in the order and repetition of their
/// environment keys.
pub open spec fn same_but_env_order(a: ServerRefView, b: ServerRefView) -> bool {
    &&& ServerRefView { env_keys: Seq::empty(), ..a } == ServerRefView { env_keys: Seq::empty(), ..b }
    &&& forall|x: Seq<char>| a.env_keys.contains(x) <==> b.env_keys.contains(x)
}

/// Whether two scans differ at most in the order and repetition of their
/// servers' environment keys (and in what no snapshot records: whether a
/// client was detected, its config files and notes).
pub open spec fn scans_same_but_env_order(r1: ScanResultView, r2: ScanResultView) -> bool {
    &&& r1.findings == r2.findings
    &&& r1.clients.len() == r2.clients.len()
    &&& forall|i: int|
        0 <= i < r1.clients.len() ==> {
            &&& (#[trigger] r1.clients[i]).client == r2.clients[i].client
            &&& r1.clients[i].servers.len() == r2.clients[i].servers.len()
            &&& forall|j: int|
                0 <= j < r1.clients[i].servers.len() ==> same_but_env_order(
                    #[trigger] r1.clients[i].servers[j],
                    r2.clients[i].servers[j],
                )
        }
}

/// The stored keys are strictly increasing, and depend only on which keys are listed.
proof fn lemma_sorted_unique_set(a: Seq<Seq<char>>, b: Seq<Seq<char>>)
    ensures
        forall|i: int, j: int|
            0 <= i < j < sorted_unique(a).len() ==> text_lt(#[trigger] sorted_unique(a)[i], #[trigger] sorted_unique(a)[j]),
        (forall|x: Seq<char>| a.contains(x) <==> b.contains(x)) ==> sorted_unique(a) == sorted_unique(b),
{
    lemma_key_set(a);
    lemma_key_set(b);
    if forall|x: Seq<char>| a.contains(x) <==> b.contains(x) {
        assert forall|x: Seq<char>| has_key(key_set(a), x) <==> has_key(key_set(b), x) by {
            assert(a.contains(x) <==> b.contains(x));
        }
        lemma_sorted_keys_unique(key_set(a), key_set(b));
    }
}

proof fn lemma_put_servers_same(
    m: Seq<(Seq<char>, ClientBaselineView)>,
    c: Seq<char>,
    s1: Seq<ServerRefView>,
    s2: Seq<ServerRefView>,
)
    requires
        s1.len() == s2.len(),
        forall|j: int| 0 <= j < s1.len() ==> same_but_env_order(#[trigger] s1[j], s2[j]),
    ensures
        put_servers(m, c, s1) == put_servers(m, c, s2),
    decreases s1.len(),
{
    if s1.len() > 0 {
        let d1 = s1.drop_last();
        let d2 = s2.drop_last();
        assert forall|j: int| 0 <= j < d1.len() implies same_but_env_order(#[trigger] d1[j], d2[j]) by {
            assert(d1[j] == s1[j] && d2[j] == s2[j]);
        }
        lemma_put_servers_same(m, c, d1, d2);
        let a = s1.last();
        let b = s2.last();
        assert(same_but_env_order(s1[s1.len() - 1], s2[s1.len() - 1]));
        let ea = ServerRefView { env_keys: Seq::empty(), ..a };
        let eb = ServerRefView { env_keys: Seq::empty(), ..b };
        assert(ea.name == eb.name && ea.command == eb.command && ea.url == eb.url);
        assert(ea.transport == eb.transport && ea.approval == eb.approval);
        lemma_sorted_unique_set(a.env_keys, b.env_keys);
        assert(server_baseline_of(a) == server_baseline_of(b));
    }
}

proof fn lemma_add_clients_same(
    m: Seq<(Seq<char>, ClientBaselineView)>,
    c1: Seq<ClientSnapshotView>,
    c2: Seq<ClientSnapshotView>,
)
    requires
        c1.len() == c2.len(),
        forall|i: int|
            0 <= i < c1.len() ==> {
                &&& (#[trigger] c1[i]).client == c2[i].client
                &&& c1[i].servers.len() == c2[i].servers.len()
                &&& forall|j: int|
                    0 <= j < c1[i].servers.len() ==> same_but_env_order(
                        #[trigger] c1[i].servers[j],
                        c2[i].servers[j],
                    )
            },
    ensures
        add_clients(m, c1) == add_clients(m, c2),
    decreases c1.len(),
{
    if c1.len() > 0 {
        let d1 = c1.drop_last();
        let d2 = c2.drop_last();
        assert forall|i: int|
            0 <= i < d1.len() implies {
                &&& (#[trigger] d1[i]).client == d2[i].client
                &&& d1[i].servers.len() == d2[i].servers.len()
                &&& forall|j: int|
                    0 <= j < d1[i].servers.len() ==> same_but_env_order(
                        #[trigger] d1[i].servers[j],
                        d2[i].servers[j],
                    )
            } by {
            assert(d1[i] == c1[i] && d2[i] == c2[i]);
        }
        lemma_add_clients_same(m, d1, d2);
        let k = c1.len() - 1;
        assert(c1[k].client == c2[k].client);
        let base = touch_client(add_clients(m, d1), c1.last().client);
        lemma_put_servers_same(base, c1.last().client, c1.last().servers, c2.last().servers);
    }
}

/// Law: a snapshot does not depend on the order of a server's environment
/// keys or on keys listed twice: two scans that differ only there give the
/// same snapshot, and every stored key list is strictly increasing.
pub proof fn lemma_env_key_order_irrelevant(r1: ScanResultView, r2: ScanResultView, ts: Seq<ExposedToolView>)
    requires
        scans_same_but_env_order(r1, r2),
    ensures
        build_snapshot_spec(r1, ts) == build_snapshot_spec(r2, ts),
{
    lemma_add_clients_same(Seq::empty(), r1.clients, r2.clients);
}

/// Law: the environment keys a snapshot stores for a server are strictly
/// increasing (sorted, without repeats) and are exactly the keys it lists.
pub proof fn lemma_stored_env_keys(s: ServerRefView)
    ensures
        forall|i: int, j: int|
            0 <= i < j < server_baseline_of(s).env_keys.len() ==> text_lt(
                #[trigger] server_baseline_of(s).env_keys[i],
                #[trigger] server_baseline_of(s).env_keys[j],
            ),
        forall|x: Seq<char>| server_baseline_of(s).env_keys.contains(x) <==> s.env_keys.contains(x),
{
    lemma_sorted_unique_set(s.env_keys, s.env_keys);
    lemma_key_set(s.env_keys);
    let ks = key_set(s.env_keys);
    let u = sorted_unique(s.env_keys);
    assert forall|x: Seq<char>| u.contains(x) <==> s.env_keys.contains(x) by {
        if u.contains(x) {
            let i = choose|i: int| 0 <= i < u.len() && u[i] == x;
            assert(ks[i].0 == x);
        }
        if s.env_keys.contains(x) {
            assert(has_key(ks, x));
            let i = choose|i: int| 0 <= i < ks.len() && #[trigger] ks[i].0 == x;
            assert(u[i] == x);
        }
    }
}

/// Every key list and value list of a client map is in key order.
pub open spec fn wf_clients(m: Seq<(Seq<char>, ClientBaselineView)>) -> bool {
    &&& keys_sorted(m)
    &&& forall|i: int| 0 <= i < m.len() ==> wf_client(#[trigger] m[i].1)
}

pub open spec fn wf_client(cb: ClientBaselineView) -> bool {
    &&& keys_sorted(cb.servers)
    &&& forall|j: int| 0 <= j < cb.servers.len() ==> keys_sorted(#[trigger] cb.servers[j].1.tools)
}

/// Storing a well-formed client keeps a client map well formed.
pub proof fn lemma_wf_clients_insert(m: Seq<(Seq<char>, ClientBaselineView)>, k: Seq<char>, v: ClientBaselineView)
    requires
        wf_clients(m),
        wf_client(v),
    ensures
        wf_clients(assoc_insert(m, k, v)),
{
    lemma_insert_sorted(m, k, v);
    lemma_insert_entries(m, k, v);
    let t = assoc_insert(m, k, v);
    assert forall|i: int| 0 <= i < t.len() implies wf_client(#[trigger] t[i].1) by {
        if t[i] != (k, v) {
            let j = choose|j: int| 0 <= j < m.len() && m[j] == t[i];
            assert(wf_client(m[j].1));
        }
    }
}

/// Storing a server with sorted tools keeps a client well formed.
pub proof fn lemma_wf_client_insert(cb: ClientBaselineView, k: Seq<char>, v: ServerBaselineView)
    requires
        wf_client(cb),
        keys_sorted(v.tools),
    ensures
        wf_client(ClientBaselineView { servers: assoc_insert(cb.servers, k, v) }),
{
    lemma_insert_sorted(cb.servers, k, v);
    lemma_insert_entries(cb.servers, k, v);
    let t = assoc_insert(cb.servers, k, v);
    assert forall|j: int| 0 <= j < t.len() implies keys_sorted(#[trigger] t[j].1.tools) by {
        if t[j] != (k, v) {
            let i = choose|i: int| 0 <= i < cb.servers.len() && cb.servers[i] == t[j];
            assert(keys_sorted(cb.servers[i].1.tools));
        }
    }
}

/// The client found in a well-formed map is well formed.
pub proof fn lemma_wf_client_or_default(m: Seq<(Seq<char>, ClientBaselineView)>, c: Seq<char>)
    requires
        wf_clients(m),
    ensures
        wf_client(client_or_default(m, c)),
{
    if assoc_get(m, c) is Some {
        lemma_get_some(m, c);
        let j = choose|j: int| 0 <= j < m.len() && #[trigger] m[j].0 == c && m[j].1 == assoc_get(m, c).unwrap();
        assert(wf_client(m[j].1));
    }
}

/// The server found in a well-formed client has sorted tools.
pub proof fn lemma_wf_server_or_default(cb: ClientBaselineView, s: Seq<char>)
    requires
        wf_client(cb),
    ensures
        keys_sorted(server_or_default(cb.servers, s).tools),
{
    if assoc_get(cb.servers, s) is Some {
        lemma_get_some(cb.servers, s);
        let j = choose|j: int|
            0 <= j < cb.servers.len() && #[trigger] cb.servers[j].0 == s && cb.servers[j].1
                == assoc_get(cb.servers, s).unwrap();
        assert(keys_sorted(cb.servers[j].1.tools));
    }
}

/// Every description hash stored under a server is a hex SHA-256 digest.
pub open spec fn server_hashes_ok(sb: ServerBaselineView) -> bool {
    forall|k: int| 0 <= k < sb.tools.len() ==> is_hex_digest(#[trigger] sb.tools[k].1.description_sha256)
}

pub open spec fn client_hashes_ok(cb: ClientBaselineView) -> bool {
    forall|j: int| 0 <= j < cb.servers.len() ==> server_hashes_ok(#[trigger] cb.servers[j].1)
}

/// Every description hash anywhere in a client map is a hex SHA-256 digest.
pub open spec fn hashes_ok(m: Seq<(Seq<char>, ClientBaselineView)>) -> bool {
    forall|i: int| 0 <= i < m.len() ==> client_hashes_ok(#[trigger] m[i].1)
}

proof fn lemma_hashes_insert_client(m: Seq<(Seq<char>, ClientBaselineView)>, k: Seq<char>, v: ClientBaselineView)
    requires
        hashes_ok(m),
        client_hashes_ok(v),
    ensures
        hashes_ok(assoc_insert(m, k, v)),
{
    lemma_insert_entries(m, k, v);
    let t = assoc_insert(m, k, v);
    assert forall|i: int| 0 <= i < t.len() implies client_hashes_ok(#[trigger] t[i].1) by {
        if t[i] != (k, v) {
            let j = choose|j: int| 0 <= j < m.len() && m[j] == t[i];
            assert(client_hashes_ok(m[j].1));
        }
    }
}

proof fn lemma_hashes_insert_server(cb: ClientBaselineView, k: Seq<char>, v: ServerBaselineView)
    requires
        client_hashes_ok(cb),
        server_hashes_ok(v),
    ensures
        client_hashes_ok(ClientBaselineView { servers: assoc_insert(cb.servers, k, v) }),
{
    lemma_insert_entries(cb.servers, k, v);
    let t = assoc_insert(cb.servers, k, v);
    assert forall|j: int| 0 <= j < t.len() implies server_hashes_ok(#[trigger] t[j].1) by {
        if t[j] != (k, v) {
            let i = choose|i: int| 0 <= i < cb.servers.len() && cb.servers[i] == t[j];
            assert(server_hashes_ok(cb.servers[i].1));
        }
    }
}

proof fn lemma_hashes_insert_tool(sb: ServerBaselineView, k: Seq<char>, v: ToolBaselineView)
    requires
        server_hashes_ok(sb),
        is_hex_digest(v.description_sha256),
    ensures
        server_hashes_ok(ServerBaselineView { tools: assoc_insert(sb.tools, k, v), ..sb }),
{
    lemma_insert_entries(sb.tools, k, v);
    let t = assoc_insert(sb.tools, k, v);
    assert forall|j: int| 0 <= j < t.len() implies is_hex_digest(#[trigger] t[j].1.description_sha256) by {
        if t[j] != (k, v) {
            let i = choose|i: int| 0 <= i < sb.tools.len() && sb.tools[i] == t[j];
            assert(is_hex_digest(sb.tools[i].1.description_sha256));
        }
    }
}

proof fn lemma_hashes_client_or_default(m: Seq<(Seq<char>, ClientBaselineView)>, c: Seq<char>)
    requires
        hashes_ok(m),
    ensures
        client_hashes_ok(client_or_default(m, c)),
{
    if assoc_get(m, c) is Some {
        lemma_get_some(m, c);
        let j = choose|j: int| 0 <= j < m.len() && #[trigger] m[j].0 == c && m[j].1 == assoc_get(m, c).unwrap();
        assert(client_hashes_ok(m[j].1));
    }
}

proof fn lemma_hashes_server_or_default(cb: ClientBaselineView, s: Seq<char>)
    requires
        client_hashes_ok(cb),
    ensures
        server_hashes_ok(server_or_default(cb.servers, s)),
{
    if assoc_get(cb.servers, s) is Some {
        lemma_get_some(cb.servers, s);
        let j = choose|j: int|
            0 <= j < cb.servers.len() && #[trigger] cb.servers[j].0 == s && cb.servers[j].1
                == assoc_get(cb.servers, s).unwrap();
        assert(server_hashes_ok(cb.servers[j].1));
    }
}

proof fn lemma_hashes_put_servers(m: Seq<(Seq<char>, ClientBaselineView)>, c: Seq<char>, ss: Seq<ServerRefView>)
    requires
        hashes_ok(m),
    ensures
        hashes_ok(put_servers(m, c, ss)),
    decreases ss.len(),
{
    if ss.len() > 0 {
        lemma_hashes_put_servers(m, c, ss.drop_last());
        let m1 = put_servers(m, c, ss.drop_last());
        let cb = client_or_default(m1, c);
        let sb = server_baseline_of(ss.last());
        assert(sb.tools =~= Seq::<(Seq<char>, ToolBaselineView)>::empty());
        lemma_hashes_client_or_default(m1, c);
        lemma_hashes_insert_server(cb, ss.last().name, sb);
        lemma_hashes_insert_client(m1, c, ClientBaselineView { servers: assoc_insert(cb.servers, ss.last().name, sb) });
    }
}

proof fn lemma_hashes_add_clients(m: Seq<(Seq<char>, ClientBaselineView)>, cs: Seq<ClientSnapshotView>)
    requires
        hashes_ok(m),
    ensures
        hashes_ok(add_clients(m, cs)),
    decreases cs.len(),
{
    if cs.len() > 0 {
        lemma_hashes_add_clients(m, cs.drop_last());
        let m1 = add_clients(m, cs.drop_last());
        let c = cs.last().client;
        lemma_hashes_client_or_default(m1, c);
        lemma_hashes_insert_client(m1, c, client_or_default(m1, c));
        lemma_hashes_put_servers(touch_client(m1, c), c, cs.last().servers);
    }
}

proof fn lemma_hashes_add_tools(m: Seq<(Seq<char>, ClientBaselineView)>, ts: Seq<ExposedToolView>)
    requires
        hashes_ok(m),
        forall|i: int| 0 <= i < ts.len() ==> is_hex_digest(#[trigger] tool_hash(ts[i])),
    ensures
        hashes_ok(add_tools(m, ts)),
    decreases ts.len(),
{
    if ts.len() > 0 {
        let d = ts.drop_last();
        assert forall|i: int| 0 <= i < d.len() implies is_hex_digest(#[trigger] tool_hash(d[i])) by {
            assert(d[i] == ts[i]);
        }
        lemma_hashes_add_tools(m, d);
        let m1 = add_tools(m, d);
        let t = ts.last();
        assert(is_hex_digest(tool_hash(ts[ts.len() - 1])));
        let cb = client_or_default(m1, t.client);
        let sb = server_or_default(cb.servers, t.server);
        lemma_hashes_client_or_default(m1, t.client);
        lemma_hashes_server_or_default(cb, t.server);
        let tb = ToolBaselineView { description_sha256: tool_hash(t) };
        lemma_hashes_insert_tool(sb, t.name, tb);
        let sb2 = ServerBaselineView { tools: assoc_insert(sb.tools, t.name, tb), ..sb };
        lemma_hashes_insert_server(cb, t.server, sb2);
        lemma_hashes_insert_client(m1, t.client, ClientBaselineView { servers: assoc_insert(cb.servers, t.server, sb2) });
    }
}

fn empty_client() -> (r: ClientBaseline)
    ensures
        r.deep_view() == default_client(),
{
    let r = ClientBaseline { servers: Vec::new() };
    assert(r.deep_view().servers =~= Seq::<(Seq<char>, ServerBaselineView)>::empty());
    r
}

fn empty_server() -> (r: ServerBaseline)
    ensures
        r.deep_view() == default_server(),
{
    let r = ServerBaseline {
        command: None,
        url: None,
        transport: String::new(),
        approval: String::new(),
        env_keys: Vec::new(),
        tools: Vec::new(),
    };
    assert(r.deep_view().env_keys =~= Seq::<Seq<char>>::empty());
    assert(r.deep_view().tools =~= Seq::<(Seq<char>, ToolBaselineView)>::empty());
    r
}

fn copy_opt(o: &Option<String>) -> (r: Option<String>)
    ensures
        r.deep_view() == o.deep_view(),
{
    match o {
        Some(s) => Some(owned(s.as_str())),
        None => None,
    }
}

/// Takes the entry of `key` out for an update, or starts from `default`.
fn take_entry<V: DeepView>(entries: &mut Vec<(String, V)>, key: &str, default: V) -> (r: (
    Result<usize, usize>,
    V,
))
    requires
        keys_sorted(old(entries).deep_view()),
    ensures
        is_position(old(entries).deep_view(), key@, r.0),
        r.1.deep_view() == (match assoc_get(old(entries).deep_view(), key@) {
            Some(v) => v,
            None => default.deep_view(),
        }),
        final(entries).deep_view() == (match r.0 {
            Ok(i) => old(entries).deep_view().remove(i as int),
            Err(_) => old(entries).deep_view(),
        }),
{
    let ghost s = entries.deep_view();
    let pos = locate(entries, key);
    proof {
        lemma_insert_at(s, key@, default.deep_view(), pos);
    }
    match pos {
        Ok(i) => {
            let (_, v) = entries.remove(i);
            assert(entries.deep_view() =~= s.remove(i as int));
            (pos, v)
        },
        Err(_) => (pos, default),
    }
}

/// Puts an entry taken by `take_entry` back, with its new value.
fn put_entry<V: DeepView>(
    entries: &mut Vec<(String, V)>,
    Ghost(orig): Ghost<Seq<(Seq<char>, V::V)>>,
    pos: Result<usize, usize>,
    key: &str,
    value: V,
)
    requires
        keys_sorted(orig),
        is_position(orig, key@, pos),
        old(entries).deep_view() == (match pos {
            Ok(i) => orig.remove(i as int),
            Err(_) => orig,
        }),
    ensures
        final(entries).deep_view() == assoc_insert(orig, key@, value.deep_view()),
{
    let ghost vv = value.deep_view();
    proof {
        lemma_insert_at(orig, key@, vv, pos);
    }
    let i = match pos {
        Ok(i) => i,
        Err(i) => i,
    };
    let ghost before = entries.deep_view();
    assert(entries@.len() == before.len());
    let k = owned(key);
    let ghost kv = (k, value);
    entries.insert(i, (k, value));
    assert(entries.deep_view() =~= before.insert(i as int, (key@, vv))) by {
        assert(entries@ =~= old(entries)@.insert(i as int, kv));
    }
    match pos {
        Ok(_) => {
            assert(entries.deep_view() =~= orig.update(i as int, (key@, vv)));
        },
        Err(_) => {
            assert(entries.deep_view() =~= orig.insert(i as int, (key@, vv)));
        },
    }
}

/// The distinct keys of `keys`, sorted (std's `sort` then `dedup`).
fn sorted_unique_keys(keys: &Vec<String>) -> (r: Vec<String>)
    ensures
        r.deep_view() == sorted_unique(keys.deep_view()),
{
    let ghost ks = keys.deep_view();
    let mut set: Vec<(String, ())> = Vec::new();
    let n = keys.len();
    for i in 0..n
        invariant
            n == ks.len(),
            ks == keys.deep_view(),
            set.deep_view() == key_set(ks.take(i as int)),
            keys_sorted(set.deep_view()),
    {
        assert(ks.take(i + 1).drop_last() =~= ks.take(i as int));
        insert(&mut set, owned(keys[i].as_str()), ());
    }
    assert(ks.take(n as int) =~= ks);
    let mut r: Vec<String> = Vec::new();
    let m = set.len();
    for j in 0..m
        invariant
            m == set.deep_view().len(),
            r.deep_view().len() == j,
            forall|x: int| 0 <= x < j ==> #[trigger] r.deep_view()[x] == set.deep_view()[x].0,
    {
        assert(set.deep_view()[j as int].0 == set[j as int].0@);
        let ghost before = r.deep_view();
        r.push(owned(set[j].0.as_str()));
        assert(r.deep_view() =~= before.push(set.deep_view()[j as int].0));
    }
    assert(r.deep_view() =~= sorted_unique(keys.deep_view()));
    r
}

/// What a declared server contributes to a snapshot.
fn server_baseline(server: &crate::ir::ServerRef) -> (r: ServerBaseline)
    ensures
        r.deep_view() == server_baseline_of(server@),
        keys_sorted(r.deep_view().tools),
{
    let r = ServerBaseline {
        command: copy_opt(&server.command),
        url: copy_opt(&server.url),
        transport: owned(server.transport.as_str()),
        approval: owned(server.approval.as_str()),
        env_keys: sorted_unique_keys(&server.env_keys),
        tools: Vec::new(),
    };
    assert(r.deep_view().tools =~= Seq::<(Seq<char>, ToolBaselineView)>::empty());
    r
}

/// The hash of a tool's description (of the empty text when it has none).
fn description_hash(t: &ExposedTool) -> (r: String)
    ensures
        r@ == tool_hash(t@),
        is_hex_digest(r@),
{
    match &t.description {
        Some(d) => sha256_hex(d.as_str()),
        None => {
            let e = String::new();
            sha256_hex(e.as_str())
        },
    }
}

/// Builds the snapshot of a scan and the tools it listed.
pub fn build_snapshot(result: &ScanResult, tools: &[ExposedTool]) -> (snap: Snapshot)
    ensures
        snap.deep_view() == build_snapshot_spec(result@, tools.deep_view()),
        wf_clients(snap.deep_view().clients),
        hashes_ok(snap.deep_view().clients),
{
    let ghost rv = result@;
    let mut clients: Vec<(String, ClientBaseline)> = Vec::new();
    let nc = result.clients.len();
    for i in 0..nc
        invariant
            nc == rv.clients.len(),
            rv == result@,
            clients.deep_view() == add_clients(Seq::empty(), rv.clients.take(i as int)),
            wf_clients(clients.deep_view()),
    {
        assert(rv.clients.take(i + 1).drop_last() =~= rv.clients.take(i as int));
        let client = &result.clients[i];
        assert(client@ == rv.clients[i as int]);
        let c = client.client.as_str();
        let ghost m0 = clients.deep_view();
        let (pos, cb) = take_entry(&mut clients, c, empty_client());
        proof {
            lemma_wf_client_or_default(m0, c@);
            lemma_wf_clients_insert(m0, c@, cb.deep_view());
        }
        put_entry(&mut clients, Ghost(m0), pos, c, cb);
        let ghost m_touched = clients.deep_view();
        let ns = client.servers.len();
        for j in 0..ns
            invariant
                ns == client@.servers.len(),
                m_touched == touch_client(m0, c@),
                c@ == client@.client,
                clients.deep_view() == put_servers(m_touched, c@, client@.servers.take(j as int)),
                wf_clients(clients.deep_view()),
        {
            assert(client@.servers.take(j + 1).drop_last() =~= client@.servers.take(j as int));
            let server = &client.servers[j];
            assert(server@ == client@.servers[j as int]);
            let sb = server_baseline(server);
            let ghost m1 = clients.deep_view();
            let (pos, mut cb) = take_entry(&mut clients, c, empty_client());
            proof {
                lemma_wf_client_or_default(m1, c@);
            }
            let ghost cb0 = cb.deep_view();
            insert(&mut cb.servers, owned(server.name.as_str()), sb);
            proof {
                lemma_wf_client_insert(cb0, server@.name, server_baseline_of(server@));
                lemma_wf_clients_insert(m1, c@, cb.deep_view());
            }
            put_entry(&mut clients, Ghost(m1), pos, c, cb);
        }
        assert(client@.servers.take(ns as int) =~= client@.servers);
    }
    assert(rv.clients.take(nc as int) =~= rv.clients);

    let ghost tv = tools.deep_view();
    let ghost after_clients = clients.deep_view();
    let nt = tools.len();
    for k in 0..nt
        invariant
            nt == tv.len(),
            tv == tools.deep_view(),
            clients.deep_view() == add_tools(after_clients, tv.take(k as int)),
            wf_clients(clients.deep_view()),
            forall|j: int| 0 <= j < k ==> is_hex_digest(#[trigger] tool_hash(tv[j])),
    {
        assert(tv.take(k + 1).drop_last() =~= tv.take(k as int));
        let tool = &tools[k];
        assert(tool@ == tv[k as int]);
        let hash = description_hash(tool);
        let ghost m1 = clients.deep_view();
        let (pos, mut cb) = take_entry(&mut clients, tool.client.as_str(), empty_client());
        proof {
            lemma_wf_client_or_default(m1, tool@.client);
        }
        let ghost cb0 = cb.deep_view();
        let ghost servers0 = cb.servers.deep_view();
        let (spos, mut sb) = take_entry(&mut cb.servers, tool.server.as_str(), empty_server());
        proof {
            lemma_wf_server_or_default(cb0, tool@.server);
        }
        insert(&mut sb.tools, owned(tool.name.as_str()), ToolBaseline { description_sha256: hash });
        let ghost sbv = sb.deep_view();
        put_entry(&mut cb.servers, Ghost(servers0), spos, tool.server.as_str(), sb);
        proof {
            lemma_wf_client_insert(cb0, tool@.server, sbv);
            lemma_wf_clients_insert(m1, tool@.client, cb.deep_view());
        }
        put_entry(&mut clients, Ghost(m1), pos, tool.client.as_str(), cb);
    }
    assert(tv.take(nt as int) =~= tv);
    proof {
        lemma_hashes_add_clients(Seq::empty(), rv.clients);
        lemma_hashes_add_tools(after_clients, tv);
    }

    let mut findings: Vec<FindingBaseline> = Vec::new();
    let nf = result.findings.len();
    for f in 0..nf
        invariant
            nf == rv.findings.len(),
            rv == result@,
            findings.deep_view() == baseline_findings(rv.findings.take(f as int)),
    {
        assert(rv.findings.take(f + 1).drop_last() =~= rv.findings.take(f as int));
        let finding = &result.findings[f];
        assert(finding@ == rv.findings[f as int]);
        let ghost before = findings.deep_view();
        if is_ci_gating_severity(finding.severity.as_str()) {
            findings.push(finding_baseline(finding));
            assert(findings.deep_view() =~= before.push(finding_baseline_spec(finding@)));
        } else {
            assert(findings.deep_view() =~= before);
        }
    }
    assert(rv.findings.take(nf as int) =~= rv.findings);
    Snapshot { schema_version: SCHEMA_VERSION, clients, findings }
}

// ---------------------------------------------------------------------------
// Comparing a scan with a baseline
// ---------------------------------------------------------------------------

/// The baseline of server `s` of client `c` in `m`, if any.
pub open spec fn server_at(m: Seq<(Seq<char>, ClientBaselineView)>, c: Seq<char>, s: Seq<char>) -> Option<
    ServerBaselineView,
> {
    match assoc_get(m, c) {
        Some(cb) => assoc_get(cb.servers, s),
        None => None,
    }
}

/// The baseline of tool `t` of server `s` of client `c` in `m`, if any.
pub open spec fn tool_at(
    m: Seq<(Seq<char>, ClientBaselineView)>,
    c: Seq<char>,
    s: Seq<char>,
    t: Seq<char>,
) -> Option<ToolBaselineView> {
    match server_at(m, c, s) {
        Some(sb) => assoc_get(sb.tools, t),
        None => None,
    }
}

/// Servers `ss` of client `c` that `other` lacks, in order.
pub open spec fn missing_servers_in(
    other: Seq<(Seq<char>, ClientBaselineView)>,
    c: Seq<char>,
    ss: Seq<(Seq<char>, ServerBaselineView)>,
) -> Seq<ServerIdView>
    decreases ss.len(),
{
    if ss.len() == 0 {
        Seq::empty()
    } else {
        missing_servers_in(other, c, ss.drop_last()) + (if server_at(other, c, ss.last().0) is None {
            seq![ServerIdView { client: c, server: ss.last().0 }]
        } else {
            Seq::empty()
        })
    }
}

/// A server of client `c` among `ss` that the baseline holds and that differs
/// from it is reported among the changed servers, with the differing fields.
proof fn lemma_changed_in_reported(
    base: Seq<(Seq<char>, ClientBaselineView)>,
    c: Seq<char>,
    ss: Seq<(Seq<char>, ServerBaselineView)>,
    j: int,
)
    requires
        0 <= j < ss.len(),
        server_at(base, c, ss[j].0) matches Some(b) && server_differs(b, ss[j].1),
    ensures
        exists|k: int|
            0 <= k < changed_servers_in(base, c, ss).len() && #[trigger] changed_servers_in(base, c, ss)[k].id
                == (ServerIdView { client: c, server: ss[j].0 }) && lists_differences(
                changed_servers_in(base, c, ss)[k].fields,
                server_at(base, c, ss[j].0).unwrap(),
                ss[j].1,
            ),
    decreases ss.len(),
{
    let pre = changed_servers_in(base, c, ss.drop_last());
    let all = changed_servers_in(base, c, ss);
    if j < ss.len() - 1 {
        lemma_changed_in_reported(base, c, ss.drop_last(), j);
        assert(ss.drop_last()[j] == ss[j]);
        let k = choose|k: int|
            0 <= k < pre.len() && #[trigger] pre[k].id == (ServerIdView { client: c, server: ss[j].0 })
                && lists_differences(pre[k].fields, server_at(base, c, ss[j].0).unwrap(), ss[j].1);
        assert(all[k] == pre[k]);
    } else {
        let b = server_at(base, c, ss[j].0).unwrap();
        lemma_changed_fields(b, ss[j].1);
        assert(ss.last() == ss[j]);
        assert(all[pre.len() as int].id == ServerIdView { client: c, server: ss[j].0 });
    }
}

/// Law: a server that both the baseline and the current scan hold, and that
/// differs from the baseline in its command, URL, environment keys, transport
/// or approval, is reported as changed, naming exactly the fields that differ.
pub proof fn lemma_changed_server_reported(
    base: Seq<(Seq<char>, ClientBaselineView)>,
    cur: Seq<(Seq<char>, ClientBaselineView)>,
    i: int,
    j: int,
)
    requires
        0 <= i < cur.len(),
        0 <= j < cur[i].1.servers.len(),
        server_at(base, cur[i].0, cur[i].1.servers[j].0) matches Some(b) && server_differs(
            b,
            cur[i].1.servers[j].1,
        ),
    ensures
        exists|k: int|
            0 <= k < changed_servers_spec(base, cur).len() && #[trigger] changed_servers_spec(base, cur)[k].id
                == (ServerIdView { client: cur[i].0, server: cur[i].1.servers[j].0 }) && lists_differences(
                changed_servers_spec(base, cur)[k].fields,
                server_at(base, cur[i].0, cur[i].1.servers[j].0).unwrap(),
                cur[i].1.servers[j].1,
            ),
    decreases cur.len(),
{
    let pre = changed_servers_spec(base, cur.drop_last());
    let all = changed_servers_spec(base, cur);
    let id = ServerIdView { client: cur[i].0, server: cur[i].1.servers[j].0 };
    let b = server_at(base, cur[i].0, cur[i].1.servers[j].0).unwrap();
    if i < cur.len() - 1 {
        lemma_changed_server_reported(base, cur.drop_last(), i, j);
        assert(cur.drop_last()[i] == cur[i]);
        let k = choose|k: int|
            0 <= k < pre.len() && #[trigger] pre[k].id == id && lists_differences(
                pre[k].fields,
                b,
                cur[i].1.servers[j].1,
            );
        assert(all[k] == pre[k]);
    } else {
        assert(cur.last() == cur[i]);
        let part = changed_servers_in(base, cur[i].0, cur[i].1.servers);
        lemma_changed_in_reported(base, cur[i].0, cur[i].1.servers, j);
        let k = choose|k: int|
            0 <= k < part.len() && #[trigger] part[k].id == id && lists_differences(
                part[k].fields,
                b,
                cur[i].1.servers[j].1,
            );
        assert(all[pre.len() + k] == part[k]);
    }
}

/// Servers of `m` that `other` lacks, client by client.
pub open spec fn missing_servers(
    other: Seq<(Seq<char>, ClientBaselineView)>,
    m: Seq<(Seq<char>, ClientBaselineView)>,
) -> Seq<ServerIdView>
    decreases m.len(),
{
    if m.len() == 0 {
        Seq::empty()
    } else {
        missing_servers(other, m.drop_last()) + missing_servers_in(other, m.last().0, m.last().1.servers)
    }
}

/// The names of the compared server fields that differ.
pub open spec fn changed_fields_spec(b: ServerBaselineView, c: ServerBaselineView) -> Seq<Seq<char>> {
    (if b.command != c.command {
        seq!["command"@]
    } else {
        Seq::empty()
    }) + (if b.url != c.url {
        seq!["url"@]
    } else {
        Seq::empty()
    }) + (if b.env_keys != c.env_keys {
        seq!["env_keys"@]
    } else {
        Seq::empty()
    }) + (if b.transport != c.transport {
        seq!["transport"@]
    } else {
        Seq::empty()
    }) + (if b.approval != c.approval {
        seq!["approval"@]
    } else {
        Seq::empty()
    })
}

/// Whether `fields` names exactly the compared fields in which `b` and `c`
/// differ: command, url, env_keys, transport and approval.
pub open spec fn lists_differences(fields: Seq<Seq<char>>, b: ServerBaselineView, c: ServerBaselineView) -> bool {
    &&& (fields.contains("command"@) <==> b.command != c.command)
    &&& (fields.contains("url"@) <==> b.url != c.url)
    &&& (fields.contains("env_keys"@) <==> b.env_keys != c.env_keys)
    &&& (fields.contains("transport"@) <==> b.transport != c.transport)
    &&& (fields.contains("approval"@) <==> b.approval != c.approval)
}

/// How many of the compared fields differ between `b` and `c`.
pub open spec fn differing_fields(b: ServerBaselineView, c: ServerBaselineView) -> nat {
    (if b.command != c.command { 1nat } else { 0nat }) + (if b.url != c.url { 1nat } else { 0nat }) + (
    if b.env_keys != c.env_keys {
        1nat
    } else {
        0nat
    }) + (if b.transport != c.transport { 1nat } else { 0nat }) + (if b.approval != c.approval {
        1nat
    } else {
        0nat
    })
}

/// Whether `b` and `c` differ in one of the compared fields.
pub open spec fn server_differs(b: ServerBaselineView, c: ServerBaselineView) -> bool {
    b.command != c.command || b.url != c.url || b.env_keys != c.env_keys || b.transport != c.transport
        || b.approval != c.approval
}

/// A field name when `changed`, nothing otherwise.
spec fn field_if(changed: bool, name: Seq<char>) -> Seq<Seq<char>> {
    if changed {
        seq![name]
    } else {
        Seq::empty()
    }
}

proof fn lemma_field_if(changed: bool, name: Seq<char>, x: Seq<char>)
    ensures
        field_if(changed, name).contains(x) <==> (changed && name == x),
{
    if changed {
        assert(field_if(changed, name)[0] == name);
    }
}

/// Law: the changed-field list of a server names a field exactly when the
/// baseline and the current server differ in it, each such field once.
pub proof fn lemma_changed_fields(b: ServerBaselineView, c: ServerBaselineView)
    ensures
        lists_differences(changed_fields_spec(b, c), b, c),
        changed_fields_spec(b, c).len() == differing_fields(b, c),
        changed_fields_spec(b, c).len() > 0 <==> server_differs(b, c),
{
    reveal_strlit("command");
    reveal_strlit("url");
    reveal_strlit("env_keys");
    reveal_strlit("transport");
    reveal_strlit("approval");
    let n0 = "command"@;
    let n1 = "url"@;
    let n2 = "env_keys"@;
    let n3 = "transport"@;
    let n4 = "approval"@;
    assert(n0.len() == 7 && n1.len() == 3 && n2.len() == 8 && n3.len() == 9 && n4.len() == 8);
    assert(n2[0] != n4[0]);
    let p0 = field_if(b.command != c.command, n0);
    let p1 = field_if(b.url != c.url, n1);
    let p2 = field_if(b.env_keys != c.env_keys, n2);
    let p3 = field_if(b.transport != c.transport, n3);
    let p4 = field_if(b.approval != c.approval, n4);
    let f = changed_fields_spec(b, c);
    assert(f == p0 + p1 + p2 + p3 + p4);
    let names = seq![n0, n1, n2, n3, n4];
    assert forall|k: int| 0 <= k < 5 implies (f.contains(#[trigger] names[k]) <==> (p0.contains(names[k])
        || p1.contains(names[k]) || p2.contains(names[k]) || p3.contains(names[k]) || p4.contains(
        names[k],
    ))) by {
        let x = names[k];
        lemma_seq_concat_contains_all_elements(p0, p1, x);
        lemma_seq_concat_contains_all_elements(p0 + p1, p2, x);
        lemma_seq_concat_contains_all_elements(p0 + p1 + p2, p3, x);
        lemma_seq_concat_contains_all_elements(p0 + p1 + p2 + p3, p4, x);
    }
    lemma_field_if(b.command != c.command, n0, n0);
    lemma_field_if(b.url != c.url, n1, n0);
    lemma_field_if(b.env_keys != c.env_keys, n2, n0);
    lemma_field_if(b.transport != c.transport, n3, n0);
    lemma_field_if(b.approval != c.approval, n4, n0);
    assert(f.contains(n0) <==> b.command != c.command) by { assert(names[0] == n0); }
    lemma_field_if(b.command != c.command, n0, n1);
    lemma_field_if(b.url != c.url, n1, n1);
    lemma_field_if(b.env_keys != c.env_keys, n2, n1);
    lemma_field_if(b.transport != c.transport, n3, n1);
    lemma_field_if(b.approval != c.approval, n4, n1);
    assert(f.contains(n1) <==> b.url != c.url) by { assert(names[1] == n1); }
    lemma_field_if(b.command != c.command, n0, n2);
    lemma_field_if(b.url != c.url, n1, n2);
    lemma_field_if(b.env_keys != c.env_keys, n2, n2);
    lemma_field_if(b.transport != c.transport, n3, n2);
    lemma_field_if(b.approval != c.approval, n4, n2);
    assert(f.contains(n2) <==> b.env_keys != c.env_keys) by { assert(names[2] == n2); }
    lemma_field_if(b.command != c.command, n0, n3);
    lemma_field_if(b.url != c.url, n1, n3);
    lemma_field_if(b.env_keys != c.env_keys, n2, n3);
    lemma_field_if(b.transport != c.transport, n3, n3);
    lemma_field_if(b.approval != c.approval, n4, n3);
    assert(f.contains(n3) <==> b.transport != c.transport) by { assert(names[3] == n3); }
    lemma_field_if(b.command != c.command, n0, n4);
    lemma_field_if(b.url != c.url, n1, n4);
    lemma_field_if(b.env_keys != c.env_keys, n2, n4);
    lemma_field_if(b.transport != c.transport, n3, n4);
    lemma_field_if(b.approval != c.approval, n4, n4);
    assert(f.contains(n4) <==> b.approval != c.approval) by { assert(names[4] == n4); }
}

/// Servers `ss` of client `c` present in `base` with changed fields.
pub open spec fn changed_servers_in(
    base: Seq<(Seq<char>, ClientBaselineView)>,
    c: Seq<char>,
    ss: Seq<(Seq<char>, ServerBaselineView)>,
) -> Seq<ChangedServerView>
    decreases ss.len(),
{
    if ss.len() == 0 {
        Seq::empty()
    } else {
        changed_servers_in(base, c, ss.drop_last()) + match server_at(base, c, ss.last().0) {
            Some(bs) => {
                let f = changed_fields_spec(bs, ss.last().1);
                if f.len() > 0 {
                    seq![
                        ChangedServerView {
                            id: ServerIdView { client: c, server: ss.last().0 },
                            fields: f,
                        },
                    ]
                } else {
                    Seq::empty()
                }
            },
            None => Seq::empty(),
        }
    }
}

/// Servers of `cur` present in `base` with changed fields, client by client.
pub open spec fn changed_servers_spec(
    base: Seq<(Seq<char>, ClientBaselineView)>,
    cur: Seq<(Seq<char>, ClientBaselineView)>,
) -> Seq<ChangedServerView>
    decreases cur.len(),
{
    if cur.len() == 0 {
        Seq::empty()
    } else {
        changed_servers_spec(base, cur.drop_last()) + changed_servers_in(
            base,
            cur.last().0,
            cur.last().1.servers,
        )
    }
}

/// Tools `ts` of server `s` of client `c` that `other` lacks.
pub open spec fn missing_tools_of(
    other: Seq<(Seq<char>, ClientBaselineView)>,
    c: Seq<char>,
    s: Seq<char>,
    ts: Seq<(Seq<char>, ToolBaselineView)>,
) -> Seq<ToolIdView>
    decreases ts.len(),
{
    if ts.len() == 0 {
        Seq::empty()
    } else {
        missing_tools_of(other, c, s, ts.drop_last()) + (if tool_at(other, c, s, ts.last().0) is None {
            seq![ToolIdView { client: c, server: s, tool: ts.last().0 }]
        } else {
            Seq::empty()
        })
    }
}

/// Tools of the servers `ss` of client `c` that `other` lacks.
pub open spec fn missing_tools_in(
    other: Seq<(Seq<char>, ClientBaselineView)>,
    c: Seq<char>,
    ss: Seq<(Seq<char>, ServerBaselineView)>,
) -> Seq<ToolIdView>
    decreases ss.len(),
{
    if ss.len() == 0 {
        Seq::empty()
    } else {
        missing_tools_in(other, c, ss.drop_last()) + missing_tools_of(
            other,
            c,
            ss.last().0,
            ss.last().1.tools,
        )
    }
}

/// Tools of `m` that `other` lacks, client by client and server by server.
pub open spec fn missing_tools(
    other: Seq<(Seq<char>, ClientBaselineView)>,
    m: Seq<(Seq<char>, ClientBaselineView)>,
) -> Seq<ToolIdView>
    decreases m.len(),
{
    if m.len() == 0 {
        Seq::empty()
    } else {
        missing_tools(other, m.drop_last()) + missing_tools_in(other, m.last().0, m.last().1.servers)
    }
}

/// Tools `ts` of server `s` of client `c` whose description hash differs in `base`.
pub open spec fn changed_tools_of(
    base: Seq<(Seq<char>, ClientBaselineView)>,
    c: Seq<char>,
    s: Seq<char>,
    ts: Seq<(Seq<char>, ToolBaselineView)>,
) -> Seq<ChangedToolView>
    decreases ts.len(),
{
    if ts.len() == 0 {
        Seq::empty()
    } else {
        changed_tools_of(base, c, s, ts.drop_last()) + match tool_at(base, c, s, ts.last().0) {
            Some(bt) => if bt.description_sha256 != ts.last().1.description_sha256 {
                seq![
                    ChangedToolView {
                        id: ToolIdView { client: c, server: s, tool: ts.last().0 },
                        base_description_sha256: bt.description_sha256,
                        current_description_sha256: ts.last().1.description_sha256,
                    },
                ]
            } else {
                Seq::empty()
            },
            None => Seq::empty(),
        }
    }
}

pub open spec fn changed_tools_in(
    base: Seq<(Seq<char>, ClientBaselineView)>,
    c: Seq<char>,
    ss: Seq<(Seq<char>, ServerBaselineView)>,
) -> Seq<ChangedToolView>
    decreases ss.len(),
{
    if ss.len() == 0 {
        Seq::empty()
    } else {
        changed_tools_in(base, c, ss.drop_last()) + changed_tools_of(
            base,
            c,
            ss.last().0,
            ss.last().1.tools,
        )
    }
}

/// Tools of `cur` whose description hash differs in `base`.
pub open spec fn changed_tools_spec(
    base: Seq<(Seq<char>, ClientBaselineView)>,
    cur: Seq<(Seq<char>, ClientBaselineView)>,
) -> Seq<ChangedToolView>
    decreases cur.len(),
{
    if cur.len() == 0 {
        Seq::empty()
    } else {
        changed_tools_spec(base, cur.drop_last()) + changed_tools_in(
            base,
            cur.last().0,
            cur.last().1.servers,
        )
    }
}

/// Whether some baseline finding has the fingerprint `fp`.
pub open spec fn has_fingerprint(fs: Seq<FindingBaselineView>, fp: Seq<char>) -> bool {
    exists|k: int| 0 <= k < fs.len() && #[trigger] fs[k].fingerprint == fp
}

/// The gating findings of `fs` whose fingerprint the baseline does not hold.
pub open spec fn new_findings_spec(base: Seq<FindingBaselineView>, fs: Seq<FindingView>) -> Seq<FindingView>
    decreases fs.len(),
{
    if fs.len() == 0 {
        Seq::empty()
    } else {
        new_findings_spec(base, fs.drop_last()) + (if gating(fs.last().severity) && !has_fingerprint(
            base,
            fingerprint_spec(fs.last()),
        ) {
            seq![fs.last()]
        } else {
            Seq::empty()
        })
    }
}

/// The diff of a scan (and its tools) against a baseline.
pub open spec fn compare_spec(base: SnapshotView, r: ScanResultView, ts: Seq<ExposedToolView>) -> DiffView {
    let cur = build_snapshot_spec(r, ts).clients;
    DiffView {
        added_servers: missing_servers(base.clients, cur),
        removed_servers: missing_servers(cur, base.clients),
        changed_servers: changed_servers_spec(base.clients, cur),
        added_tools: missing_tools(base.clients, cur),
        removed_tools: missing_tools(cur, base.clients),
        changed_tools: changed_tools_spec(base.clients, cur),
        new_findings: new_findings_spec(base.findings, r.findings),
    }
}

/// The value stored under `key` (the first entry with that key).
fn find_entry<'a, V: DeepView>(entries: &'a Vec<(String, V)>, key: &str) -> (r: Option<&'a V>)
    ensures
        r.deep_view() == assoc_get(entries.deep_view(), key@),
{
    let ghost s = entries.deep_view();
    let n = entries.len();
    let mut i: usize = 0;
    assert(s.skip(0) =~= s);
    while i < n
        invariant
            n == s.len(),
            s == entries.deep_view(),
            i <= n,
            assoc_get(s, key@) == assoc_get(s.skip(i as int), key@),
        decreases n - i,
    {
        assert(s.skip(i as int)[0] == s[i as int]);
        assert(s[i as int].0 == entries[i as int].0@);
        if text_eq(entries[i].0.as_str(), key) {
            return Some(&entries[i].1);
        }
        assert(s.skip(i as int).drop_first() =~= s.skip(i + 1));
        i = i + 1;
    }
    None
}

fn server_in<'a>(m: &'a Vec<(String, ClientBaseline)>, c: &str, s: &str) -> (r: Option<
    &'a ServerBaseline,
>)
    ensures
        r.deep_view() == server_at(m.deep_view(), c@, s@),
{
    match find_entry(m, c) {
        Some(cb) => find_entry(&cb.servers, s),
        None => None,
    }
}

fn tool_in<'a>(m: &'a Vec<(String, ClientBaseline)>, c: &str, s: &str, t: &str) -> (r: Option<
    &'a ToolBaseline,
>)
    ensures
        r.deep_view() == tool_at(m.deep_view(), c@, s@, t@),
{
    match server_in(m, c, s) {
        Some(sb) => find_entry(&sb.tools, t),
        None => None,
    }
}

fn opt_text_eq(a: &Option<String>, b: &Option<String>) -> (r: bool)
    ensures
        r == (a.deep_view() == b.deep_view()),
{
    match (a, b) {
        (Some(x), Some(y)) => text_eq(x.as_str(), y.as_str()),
        (None, None) => true,
        _ => false,
    }
}

fn texts_eq(a: &Vec<String>, b: &Vec<String>) -> (r: bool)
    ensures
        r == (a.deep_view() == b.deep_view()),
{
    if a.len() != b.len() {
        assert(a.deep_view().len() != b.deep_view().len());
        return false;
    }
    let n = a.len();
    for i in 0..n
        invariant
            n == a@.len(),
            n == b@.len(),
            forall|j: int| 0 <= j < i ==> a.deep_view()[j] == b.deep_view()[j],
    {
        if !text_eq(a[i].as_str(), b[i].as_str()) {
            assert(a.deep_view()[i as int] != b.deep_view()[i as int]);
            return false;
        }
    }
    assert(a.deep_view() =~= b.deep_view());
    true
}

/// The names of the compared fields that differ between two server baselines.
fn changed_server_fields(base: &ServerBaseline, cur: &ServerBaseline) -> (fields: Vec<String>)
    ensures
        fields.deep_view() == changed_fields_spec(base.deep_view(), cur.deep_view()),
{
    let mut fields: Vec<String> = Vec::new();
    if !opt_text_eq(&base.command, &cur.command) {
        fields.push(owned("command"));
    }
    let ghost f1 = fields.deep_view();
    if !opt_text_eq(&base.url, &cur.url) {
        fields.push(owned("url"));
    }
    let ghost f2 = fields.deep_view();
    if !texts_eq(&base.env_keys, &cur.env_keys) {
        fields.push(owned("env_keys"));
    }
    let ghost f3 = fields.deep_view();
    if !text_eq(base.transport.as_str(), cur.transport.as_str()) {
        fields.push(owned("transport"));
    }
    let ghost f4 = fields.deep_view();
    if !text_eq(base.approval.as_str(), cur.approval.as_str()) {
        fields.push(owned("approval"));
    }
    assert(fields.deep_view() =~= changed_fields_spec(base.deep_view(), cur.deep_view()));
    fields
}

fn server_id(c: &str, s: &str) -> (r: ServerId)
    ensures
        r.deep_view() == (ServerIdView { client: c@, server: s@ }),
{
    ServerId { client: owned(c), server: owned(s) }
}

fn tool_id(c: &str, s: &str, t: &str) -> (r: ToolId)
    ensures
        r.deep_view() == (ToolIdView { client: c@, server: s@, tool: t@ }),
{
    ToolId { client: owned(c), server: owned(s), tool: owned(t) }
}

/// Servers of `m` that `other` lacks.
fn missing_server_ids(other: &Vec<(String, ClientBaseline)>, m: &Vec<(String, ClientBaseline)>) -> (r: Vec<ServerId>)
    ensures
        r.deep_view() == missing_servers(other.deep_view(), m.deep_view()),
{
    let ghost mv = m.deep_view();
    let mut r: Vec<ServerId> = Vec::new();
    let n = m.len();
    for i in 0..n
        invariant
            n == mv.len(),
            mv == m.deep_view(),
            r.deep_view() == missing_servers(other.deep_view(), mv.take(i as int)),
    {
        assert(mv.take(i + 1).drop_last() =~= mv.take(i as int));
        let c = m[i].0.as_str();
        let cb = &m[i].1;
        let ghost ss = cb.servers.deep_view();
        assert(mv[i as int] == (c@, cb.deep_view()));
        let ghost before = r.deep_view();
        let ns = cb.servers.len();
        for j in 0..ns
            invariant
                ns == ss.len(),
                ss == cb.servers.deep_view(),
                r.deep_view() == before + missing_servers_in(other.deep_view(), c@, ss.take(j as int)),
        {
            assert(ss.take(j + 1).drop_last() =~= ss.take(j as int));
            let s = cb.servers[j].0.as_str();
            assert(ss[j as int].0 == s@);
            let ghost prev = r.deep_view();
            if server_in(other, c, s).is_none() {
                r.push(server_id(c, s));
                assert(r.deep_view() =~= prev.push(ServerIdView { client: c@, server: s@ }));
            }
            assert(r.deep_view() =~= before + missing_servers_in(other.deep_view(), c@, ss.take(j + 1)));
        }
        assert(ss.take(ns as int) =~= ss);
    }
    assert(mv.take(n as int) =~= mv);
    r
}

/// Servers of `cur` present in `base` whose compared fields changed.
fn changed_server_entries(base: &Vec<(String, ClientBaseline)>, cur: &Vec<(String, ClientBaseline)>) -> (r: Vec<ChangedServer>)
    ensures
        r.deep_view() == changed_servers_spec(base.deep_view(), cur.deep_view()),
{
    let ghost mv = cur.deep_view();
    let mut r: Vec<ChangedServer> = Vec::new();
    let n = cur.len();
    for i in 0..n
        invariant
            n == mv.len(),
            mv == cur.deep_view(),
            r.deep_view() == changed_servers_spec(base.deep_view(), mv.take(i as int)),
    {
        assert(mv.take(i + 1).drop_last() =~= mv.take(i as int));
        let c = cur[i].0.as_str();
        let cb = &cur[i].1;
        let ghost ss = cb.servers.deep_view();
        assert(mv[i as int] == (c@, cb.deep_view()));
        let ghost before = r.deep_view();
        let ns = cb.servers.len();
        for j in 0..ns
            invariant
                ns == ss.len(),
                ss == cb.servers.deep_view(),
                r.deep_view() == before + changed_servers_in(base.deep_view(), c@, ss.take(j as int)),
        {
            assert(ss.take(j + 1).drop_last() =~= ss.take(j as int));
            let s = cb.servers[j].0.as_str();
            let cs = &cb.servers[j].1;
            assert(ss[j as int] == (s@, cs.deep_view()));
            let ghost prev = r.deep_view();
            match server_in(base, c, s) {
                Some(bs) => {
                    let fields = changed_server_fields(bs, cs);
                    if fields.len() > 0 {
                        let item = ChangedServer { id: server_id(c, s), fields };
                        r.push(item);
                        assert(r.deep_view() =~= prev.push(item.deep_view()));
                    }
                },
                None => {},
            }
            assert(r.deep_view() =~= before + changed_servers_in(base.deep_view(), c@, ss.take(j + 1)));
        }
        assert(ss.take(ns as int) =~= ss);
    }
    assert(mv.take(n as int) =~= mv);
    r
}

/// Tools of `m` that `other` lacks.
fn missing_tool_ids(other: &Vec<(String, ClientBaseline)>, m: &Vec<(String, ClientBaseline)>) -> (r: Vec<ToolId>)
    ensures
        r.deep_view() == missing_tools(other.deep_view(), m.deep_view()),
{
    let ghost mv = m.deep_view();
    let mut r: Vec<ToolId> = Vec::new();
    let n = m.len();
    for i in 0..n
        invariant
            n == mv.len(),
            mv == m.deep_view(),
            r.deep_view() == missing_tools(other.deep_view(), mv.take(i as int)),
    {
        assert(mv.take(i + 1).drop_last() =~= mv.take(i as int));
        let c = m[i].0.as_str();
        let cb = &m[i].1;
        let ghost ss = cb.servers.deep_view();
        assert(mv[i as int] == (c@, cb.deep_view()));
        let ghost before = r.deep_view();
        let ns = cb.servers.len();
        for j in 0..ns
            invariant
                ns == ss.len(),
                ss == cb.servers.deep_view(),
                r.deep_view() == before + missing_tools_in(other.deep_view(), c@, ss.take(j as int)),
        {
            assert(ss.take(j + 1).drop_last() =~= ss.take(j as int));
            let s = cb.servers[j].0.as_str();
            let sb = &cb.servers[j].1;
            let ghost ts = sb.tools.deep_view();
            assert(ss[j as int] == (s@, sb.deep_view()));
            let ghost mid = r.deep_view();
            let nt = sb.tools.len();
            for k in 0..nt
                invariant
                    nt == ts.len(),
                    ts == sb.tools.deep_view(),
                    r.deep_view() == mid + missing_tools_of(other.deep_view(), c@, s@, ts.take(k as int)),
            {
                assert(ts.take(k + 1).drop_last() =~= ts.take(k as int));
                let t = sb.tools[k].0.as_str();
                assert(ts[k as int].0 == t@);
                let ghost prev = r.deep_view();
                if tool_in(other, c, s, t).is_none() {
                    r.push(tool_id(c, s, t));
                    assert(r.deep_view() =~= prev.push(ToolIdView { client: c@, server: s@, tool: t@ }));
                }
                assert(r.deep_view() =~= mid + missing_tools_of(other.deep_view(), c@, s@, ts.take(k + 1)));
            }
            assert(ts.take(nt as int) =~= ts);
            assert(r.deep_view() =~= before + missing_tools_in(other.deep_view(), c@, ss.take(j + 1)));
        }
        assert(ss.take(ns as int) =~= ss);
    }
    assert(mv.take(n as int) =~= mv);
    r
}

/// Tools of `cur` whose description hash differs from `base`.
fn changed_tool_entries(base: &Vec<(String, ClientBaseline)>, cur: &Vec<(String, ClientBaseline)>) -> (r: Vec<ChangedTool>)
    ensures
        r.deep_view() == changed_tools_spec(base.deep_view(), cur.deep_view()),
{
    let ghost mv = cur.deep_view();
    let mut r: Vec<ChangedTool> = Vec::new();
    let n = cur.len();
    for i in 0..n
        invariant
            n == mv.len(),
            mv == cur.deep_view(),
            r.deep_view() == changed_tools_spec(base.deep_view(), mv.take(i as int)),
    {
        assert(mv.take(i + 1).drop_last() =~= mv.take(i as int));
        let c = cur[i].0.as_str();
        let cb = &cur[i].1;
        let ghost ss = cb.servers.deep_view();
        assert(mv[i as int] == (c@, cb.deep_view()));
        let ghost before = r.deep_view();
        let ns = cb.servers.len();
        for j in 0..ns
            invariant
                ns == ss.len(),
                ss == cb.servers.deep_view(),
                r.deep_view() == before + changed_tools_in(base.deep_view(), c@, ss.take(j as int)),
        {
            assert(ss.take(j + 1).drop_last() =~= ss.take(j as int));
            let s = cb.servers[j].0.as_str();
            let sb = &cb.servers[j].1;
            let ghost ts = sb.tools.deep_view();
            assert(ss[j as int] == (s@, sb.deep_view()));
            let ghost mid = r.deep_view();
            let nt = sb.tools.len();
            for k in 0..nt
                invariant
                    nt == ts.len(),
                    ts == sb.tools.deep_view(),
                    r.deep_view() == mid + changed_tools_of(base.deep_view(), c@, s@, ts.take(k as int)),
            {
                assert(ts.take(k + 1).drop_last() =~= ts.take(k as int));
                let t = sb.tools[k].0.as_str();
                let ct = &sb.tools[k].1;
                assert(ts[k as int] == (t@, ct.deep_view()));
                let ghost prev = r.deep_view();
                match tool_in(base, c, s, t) {
                    Some(bt) => {
                        if !text_eq(bt.description_sha256.as_str(), ct.description_sha256.as_str()) {
                            let item = ChangedTool {
                                id: tool_id(c, s, t),
                                base_description_sha256: owned(bt.description_sha256.as_str()),
                                current_description_sha256: owned(ct.description_sha256.as_str()),
                            };
                            r.push(item);
                            assert(r.deep_view() =~= prev.push(item.deep_view()));
                        }
                    },
                    None => {},
                }
                assert(r.deep_view() =~= mid + changed_tools_of(base.deep_view(), c@, s@, ts.take(k + 1)));
            }
            assert(ts.take(nt as int) =~= ts);
            assert(r.deep_view() =~= before + changed_tools_in(base.deep_view(), c@, ss.take(j + 1)));
        }
        assert(ss.take(ns as int) =~= ss);
    }
    assert(mv.take(n as int) =~= mv);
    r
}

/// Appends the tool parts of the comparison to `diff`: tools added, removed,
/// and with changed descriptions.
fn compare_tools(base: &Snapshot, cur: &Snapshot, diff: &mut Diff)
    ensures
        final(diff).deep_view() == (DiffView {
            added_tools: old(diff).deep_view().added_tools + missing_tools(
                base.deep_view().clients,
                cur.deep_view().clients,
            ),
            removed_tools: old(diff).deep_view().removed_tools + missing_tools(
                cur.deep_view().clients,
                base.deep_view().clients,
            ),
            changed_tools: old(diff).deep_view().changed_tools + changed_tools_spec(
                base.deep_view().clients,
                cur.deep_view().clients,
            ),
            ..old(diff).deep_view()
        }),
{
    let mut added = missing_tool_ids(&base.clients, &cur.clients);
    let mut changed = changed_tool_entries(&base.clients, &cur.clients);
    let mut removed = missing_tool_ids(&cur.clients, &base.clients);
    let ghost (a0, c0, r0) = (diff.added_tools.deep_view(), diff.changed_tools.deep_view(), diff.removed_tools.deep_view());
    let ghost (a1, c1, r1) = (added.deep_view(), changed.deep_view(), removed.deep_view());
    diff.added_tools.append(&mut added);
    diff.changed_tools.append(&mut changed);
    diff.removed_tools.append(&mut removed);
    assert(diff.added_tools.deep_view() =~= a0 + a1);
    assert(diff.changed_tools.deep_view() =~= c0 + c1);
    assert(diff.removed_tools.deep_view() =~= r0 + r1);
}

/// Whether some baseline finding has the fingerprint `fp`.
fn fingerprint_known(base: &Vec<FindingBaseline>, fp: &str) -> (r: bool)
    ensures
        r == has_fingerprint(base.deep_view(), fp@),
{
    let n = base.len();
    for k in 0..n
        invariant
            n == base@.len(),
            forall|j: int| 0 <= j < k ==> base.deep_view()[j].fingerprint != fp@,
    {
        if text_eq(base[k].fingerprint.as_str(), fp) {
            assert(base.deep_view()[k as int].fingerprint == fp@);
            return true;
        }
    }
    false
}

fn copy_finding(f: &Finding) -> (r: Finding)
    ensures
        r@ == f@,
{
    Finding {
        rule_id: owned(f.rule_id.as_str()),
        severity: owned(f.severity.as_str()),
        category: owned(f.category.as_str()),
        client: owned(f.client.as_str()),
        server: owned(f.server.as_str()),
        message: owned(f.message.as_str()),
        evidence: owned(f.evidence.as_str()),
        confidence_pct: f.confidence_pct,
    }
}

/// Compares a scan (and the tools it listed) with a baseline.
pub fn compare(base: &Snapshot, cur_result: &ScanResult, cur_tools: &[ExposedTool]) -> (diff: Diff)
    ensures
        diff.deep_view() == compare_spec(base.deep_view(), cur_result@, cur_tools.deep_view()),
{
    let cur = build_snapshot(cur_result, cur_tools);
    let mut diff = Diff {
        added_servers: missing_server_ids(&base.clients, &cur.clients),
        removed_servers: missing_server_ids(&cur.clients, &base.clients),
        changed_servers: changed_server_entries(&base.clients, &cur.clients),
        added_tools: Vec::new(),
        removed_tools: Vec::new(),
        changed_tools: Vec::new(),
        new_findings: Vec::new(),
    };
    let ghost before = diff.deep_view();
    compare_tools(base, &cur, &mut diff);
    assert(before.added_tools + missing_tools(base.deep_view().clients, cur.deep_view().clients)
        =~= missing_tools(base.deep_view().clients, cur.deep_view().clients));
    assert(before.removed_tools + missing_tools(cur.deep_view().clients, base.deep_view().clients)
        =~= missing_tools(cur.deep_view().clients, base.deep_view().clients));
    assert(before.changed_tools + changed_tools_spec(base.deep_view().clients, cur.deep_view().clients)
        =~= changed_tools_spec(base.deep_view().clients, cur.deep_view().clients));

    let ghost fs = cur_result@.findings;
    let n = cur_result.findings.len();
    let mut new_findings: Vec<Finding> = Vec::new();
    for i in 0..n
        invariant
            n == fs.len(),
            fs == cur_result@.findings,
            new_findings.deep_view() == new_findings_spec(base.deep_view().findings, fs.take(i as int)),
    {
        assert(fs.take(i + 1).drop_last() =~= fs.take(i as int));
        let f = &cur_result.findings[i];
        assert(f@ == fs[i as int]);
        let ghost prev = new_findings.deep_view();
        if is_ci_gating_severity(f.severity.as_str()) {
            let fp = finding_fingerprint(f);
            if !fingerprint_known(&base.findings, fp.as_str()) {
                new_findings.push(copy_finding(f));
                assert(new_findings.deep_view() =~= prev.push(f@));
            }
        }
        assert(new_findings.deep_view() =~= new_findings_spec(base.deep_view().findings, fs.take(i + 1)));
    }
    assert(fs.take(n as int) =~= fs);
    diff.new_findings = new_findings;
    diff
}

/// Whether the diff holds a new finding of high severity (in any ASCII case).
pub fn has_new_high_finding(diff: &Diff) -> (r: bool)
    ensures
        r == exists|i: int|
            0 <= i < diff.deep_view().new_findings.len() && eq_ignore_ascii_case_spec(
                #[trigger] diff.deep_view().new_findings[i].severity,
                "high"@,
            ),
{
    let n = diff.new_findings.len();
    for i in 0..n
        invariant
            n == diff.new_findings@.len(),
            forall|j: int|
                0 <= j < i ==> !eq_ignore_ascii_case_spec(
                    #[trigger] diff.deep_view().new_findings[j].severity,
                    "high"@,
                ),
    {
        if eq_ignore_ascii_case(diff.new_findings[i].severity.as_str(), "high") {
            assert(eq_ignore_ascii_case_spec(diff.deep_view().new_findings[i as int].severity, "high"@));
            return true;
        }
    }
    false
}

// ---------------------------------------------------------------------------
// Rendering a diff
// ---------------------------------------------------------------------------

/// "\n<title> (<n>)\n".
pub open spec fn section_title(title: Seq<char>, n: nat) -> Seq<char> {
    "\n"@ + title + " ("@ + decimal(n) + ")\n"@
}

pub open spec fn server_id_lines(ids: Seq<ServerIdView>) -> Seq<char>
    decreases ids.len(),
{
    if ids.len() == 0 {
        Seq::empty()
    } else {
        server_id_lines(ids.drop_last()) + "  "@ + ids.last().client + "."@ + ids.last().server + "\n"@
    }
}

pub open spec fn server_ids_section(title: Seq<char>, ids: Seq<ServerIdView>) -> Seq<char> {
    section_title(title, ids.len()) + if ids.len() == 0 {
        "  -\n"@
    } else {
        server_id_lines(ids)
    }
}

pub open spec fn changed_server_lines(cs: Seq<ChangedServerView>) -> Seq<char>
    decreases cs.len(),
{
    if cs.len() == 0 {
        Seq::empty()
    } else {
        changed_server_lines(cs.drop_last()) + "  "@ + cs.last().id.client + "."@ + cs.last().id.server
            + ": "@ + crate::text::join_spec(cs.last().fields, ", "@) + "\n"@
    }
}

pub open spec fn changed_servers_section(cs: Seq<ChangedServerView>) -> Seq<char> {
    section_title("Changed servers"@, cs.len()) + if cs.len() == 0 {
        "  -\n"@
    } else {
        changed_server_lines(cs)
    }
}

pub open spec fn tool_id_lines(ids: Seq<ToolIdView>) -> Seq<char>
    decreases ids.len(),
{
    if ids.len() == 0 {
        Seq::empty()
    } else {
        tool_id_lines(ids.drop_last()) + "  "@ + ids.last().client + "."@ + ids.last().server + "."@
            + ids.last().tool + "\n"@
    }
}

pub open spec fn tool_ids_section(title: Seq<char>, ids: Seq<ToolIdView>) -> Seq<char> {
    section_title(title, ids.len()) + if ids.len() == 0 {
        "  -\n"@
    } else {
        tool_id_lines(ids)
    }
}

/// The first 12 bytes of a hash, or the whole text where it cannot be cut there.
pub open spec fn short_hash_spec(h: Seq<char>) -> Seq<char> {
    if 12 <= crate::text::byte_len(h) && vstd::utf8::is_char_boundary(vstd::utf8::encode_utf8(h), 12) {
        crate::text::byte_range(h, 0, 12)
    } else {
        h
    }
}

pub open spec fn changed_tool_lines(cs: Seq<ChangedToolView>) -> Seq<char>
    decreases cs.len(),
{
    if cs.len() == 0 {
        Seq::empty()
    } else {
        changed_tool_lines(cs.drop_last()) + "  "@ + cs.last().id.client + "."@ + cs.last().id.server
            + "."@ + cs.last().id.tool + ": "@ + short_hash_spec(cs.last().base_description_sha256)
            + " -> "@ + short_hash_spec(cs.last().current_description_sha256) + "\n"@
    }
}

pub open spec fn changed_tools_section(cs: Seq<ChangedToolView>) -> Seq<char> {
    section_title("Changed tools"@, cs.len()) + if cs.len() == 0 {
        "  -\n"@
    } else {
        changed_tool_lines(cs)
    }
}

pub open spec fn finding_lines(fs: Seq<FindingView>) -> Seq<char>
    decreases fs.len(),
{
    if fs.len() == 0 {
        Seq::empty()
    } else {
        finding_lines(fs.drop_last()) + "  ["@ + fs.last().severity + "] "@ + fs.last().rule_id + " "@
            + fs.last().client + "."@ + fs.last().server + ": "@ + fs.last().message + "\n"@
    }
}

pub open spec fn findings_section(fs: Seq<FindingView>) -> Seq<char> {
    section_title("New high/medium findings"@, fs.len()) + if fs.len() == 0 {
        "  -\n"@
    } else {
        finding_lines(fs)
    }
}

/// The terminal text of a diff.
pub open spec fn render_diff_spec(d: DiffView) -> Seq<char> {
    "Baseline diff\n"@ + server_ids_section("Added servers"@, d.added_servers) + server_ids_section(
        "Removed servers"@,
        d.removed_servers,
    ) + changed_servers_section(d.changed_servers) + tool_ids_section("Added tools"@, d.added_tools)
        + tool_ids_section("Removed tools"@, d.removed_tools) + changed_tools_section(d.changed_tools)
        + findings_section(d.new_findings)
}

fn write_title(out: &mut String, title: &str, n: usize)
    ensures
        final(out)@ == old(out)@ + section_title(title@, n as nat),
{
    out.append("\n");
    out.append(title);
    out.append(" (");
    let d = decimal_string(n);
    out.append(d.as_str());
    out.append(")\n");
}

fn write_server_ids(out: &mut String, title: &str, ids: &[ServerId])
    ensures
        final(out)@ == old(out)@ + server_ids_section(title@, ids.deep_view()),
{
    let ghost start = out@;
    write_title(out, title, ids.len());
    if ids.len() == 0 {
        out.append("  -\n");
        return;
    }
    let ghost head = out@;
    let n = ids.len();
    for i in 0..n
        invariant
            n == ids@.len(),
            out@ == head + server_id_lines(ids.deep_view().take(i as int)),
    {
        assert(ids.deep_view().take(i + 1).drop_last() =~= ids.deep_view().take(i as int));
        out.append("  ");
        out.append(ids[i].client.as_str());
        out.append(".");
        out.append(ids[i].server.as_str());
        out.append("\n");
    }
    assert(ids.deep_view().take(n as int) =~= ids.deep_view());
}

fn write_changed_servers(out: &mut String, changed: &[ChangedServer])
    ensures
        final(out)@ == old(out)@ + changed_servers_section(changed.deep_view()),
{
    write_title(out, "Changed servers", changed.len());
    if changed.len() == 0 {
        out.append("  -\n");
        return;
    }
    let ghost head = out@;
    let n = changed.len();
    for i in 0..n
        invariant
            n == changed@.len(),
            out@ == head + changed_server_lines(changed.deep_view().take(i as int)),
    {
        assert(changed.deep_view().take(i + 1).drop_last() =~= changed.deep_view().take(i as int));
        let item = &changed[i];
        out.append("  ");
        out.append(item.id.client.as_str());
        out.append(".");
        out.append(item.id.server.as_str());
        out.append(": ");
        let fields = crate::text::join(item.fields.as_slice(), ", ");
        out.append(fields.as_str());
        out.append("\n");
    }
    assert(changed.deep_view().take(n as int) =~= changed.deep_view());
}

fn write_tool_ids(out: &mut String, title: &str, ids: &[ToolId])
    ensures
        final(out)@ == old(out)@ + tool_ids_section(title@, ids.deep_view()),
{
    write_title(out, title, ids.len());
    if ids.len() == 0 {
        out.append("  -\n");
        return;
    }
    let ghost head = out@;
    let n = ids.len();
    for i in 0..n
        invariant
            n == ids@.len(),
            out@ == head + tool_id_lines(ids.deep_view().take(i as int)),
    {
        assert(ids.deep_view().take(i + 1).drop_last() =~= ids.deep_view().take(i as int));
        out.append("  ");
        out.append(ids[i].client.as_str());
        out.append(".");
        out.append(ids[i].server.as_str());
        out.append(".");
        out.append(ids[i].tool.as_str());
        out.append("\n");
    }
    assert(ids.deep_view().take(n as int) =~= ids.deep_view());
}

/// The first 12 bytes of a hash, when it can be cut there.
fn short_hash(hash: &str) -> (r: String)
    ensures
        r@ == short_hash_spec(hash@),
{
    let n = hash.as_bytes().len();
    if 12 <= n && hash.is_char_boundary(12) {
        proof {
            vstd::utf8::encode_utf8_valid_utf8(hash@);
            vstd::utf8::is_char_boundary_start_end_of_seq(vstd::utf8::encode_utf8(hash@));
        }
        crate::text::byte_slice(hash, 0, 12)
    } else {
        owned(hash)
    }
}

fn changed_tool_line(item: &ChangedTool) -> (r: String)
    ensures
        r@ == "  "@ + item.deep_view().id.client + "."@ + item.deep_view().id.server + "."@
            + item.deep_view().id.tool + ": "@ + short_hash_spec(item.deep_view().base_description_sha256)
            + " -> "@ + short_hash_spec(item.deep_view().current_description_sha256) + "\n"@,
{
    let mut out = owned("  ");
    out.append(item.id.client.as_str());
    out.append(".");
    out.append(item.id.server.as_str());
    out.append(".");
    out.append(item.id.tool.as_str());
    out.append(": ");
    let a = short_hash(item.base_description_sha256.as_str());
    out.append(a.as_str());
    out.append(" -> ");
    let b = short_hash(item.current_description_sha256.as_str());
    out.append(b.as_str());
    out.append("\n");
    out
}

fn write_changed_tools(out: &mut String, changed: &[ChangedTool])
    ensures
        final(out)@ == old(out)@ + changed_tools_section(changed.deep_view()),
{
    write_title(out, "Changed tools", changed.len());
    if changed.len() == 0 {
        out.append("  -\n");
        return;
    }
    let ghost head = out@;
    let n = changed.len();
    for i in 0..n
        invariant
            n == changed@.len(),
            out@ == head + changed_tool_lines(changed.deep_view().take(i as int)),
    {
        assert(changed.deep_view().take(i + 1).drop_last() =~= changed.deep_view().take(i as int));
        let line = changed_tool_line(&changed[i]);
        out.append(line.as_str());
    }
    assert(changed.deep_view().take(n as int) =~= changed.deep_view());
}

fn finding_line(f: &Finding) -> (r: String)
    ensures
        r@ == "  ["@ + f@.severity + "] "@ + f@.rule_id + " "@ + f@.client + "."@ + f@.server + ": "@
            + f@.message + "\n"@,
{
    let mut out = owned("  [");
    out.append(f.severity.as_str());
    out.append("] ");
    out.append(f.rule_id.as_str());
    out.append(" ");
    out.append(f.client.as_str());
    out.append(".");
    out.append(f.server.as_str());
    out.append(": ");
    out.append(f.message.as_str());
    out.append("\n");
    out
}

fn write_findings(out: &mut String, findings: &[Finding])
    ensures
        final(out)@ == old(out)@ + findings_section(findings.deep_view()),
{
    write_title(out, "New high/medium findings", findings.len());
    if findings.len() == 0 {
        out.append("  -\n");
        return;
    }
    let ghost head = out@;
    let n = findings.len();
    for i in 0..n
        invariant
            n == findings@.len(),
            out@ == head + finding_lines(findings.deep_view().take(i as int)),
    {
        assert(findings.deep_view().take(i + 1).drop_last() =~= findings.deep_view().take(i as int));
        let line = finding_line(&findings[i]);
        out.append(line.as_str());
    }
    assert(findings.deep_view().take(n as int) =~= findings.deep_view());
}

/// Renders a diff for the terminal.
pub fn render_diff_terminal(diff: &Diff) -> (out: String)
    ensures
        out@ == render_diff_spec(diff.deep_view()),
{
    let mut out = owned("Baseline diff\n");
    write_server_ids(&mut out, "Added servers", diff.added_servers.as_slice());
    write_server_ids(&mut out, "Removed servers", diff.removed_servers.as_slice());
    write_changed_servers(&mut out, diff.changed_servers.as_slice());
    write_tool_ids(&mut out, "Added tools", diff.added_tools.as_slice());
    write_tool_ids(&mut out, "Removed tools", diff.removed_tools.as_slice());
    write_changed_tools(&mut out, diff.changed_tools.as_slice());
    write_findings(&mut out, diff.new_findings.as_slice());
    out
}

// ---------------------------------------------------------------------------
// The law of self-comparison
// ---------------------------------------------------------------------------

proof fn lemma_wf_put_server(
    m: Seq<(Seq<char>, ClientBaselineView)>,
    c: Seq<char>,
    name: Seq<char>,
    sb: ServerBaselineView,
)
    requires
        wf_clients(m),
        keys_sorted(sb.tools),
    ensures
        wf_clients(put_server(m, c, name, sb)),
{
    let cb = client_or_default(m, c);
    lemma_wf_client_or_default(m, c);
    lemma_wf_client_insert(cb, name, sb);
    lemma_wf_clients_insert(m, c, ClientBaselineView { servers: assoc_insert(cb.servers, name, sb) });
}

proof fn lemma_wf_put_servers(m: Seq<(Seq<char>, ClientBaselineView)>, c: Seq<char>, ss: Seq<ServerRefView>)
    requires
        wf_clients(m),
    ensures
        wf_clients(put_servers(m, c, ss)),
    decreases ss.len(),
{
    if ss.len() > 0 {
        lemma_wf_put_servers(m, c, ss.drop_last());
        assert(server_baseline_of(ss.last()).tools =~= Seq::<(Seq<char>, ToolBaselineView)>::empty());
        lemma_wf_put_server(
            put_servers(m, c, ss.drop_last()),
            c,
            ss.last().name,
            server_baseline_of(ss.last()),
        );
    }
}

proof fn lemma_wf_add_clients(m: Seq<(Seq<char>, ClientBaselineView)>, cs: Seq<ClientSnapshotView>)
    requires
        wf_clients(m),
    ensures
        wf_clients(add_clients(m, cs)),
    decreases cs.len(),
{
    if cs.len() > 0 {
        lemma_wf_add_clients(m, cs.drop_last());
        let m1 = add_clients(m, cs.drop_last());
        let c = cs.last().client;
        lemma_wf_client_or_default(m1, c);
        lemma_wf_clients_insert(m1, c, client_or_default(m1, c));
        lemma_wf_put_servers(touch_client(m1, c), c, cs.last().servers);
    }
}

proof fn lemma_wf_add_tools(m: Seq<(Seq<char>, ClientBaselineView)>, ts: Seq<ExposedToolView>)
    requires
        wf_clients(m),
    ensures
        wf_clients(add_tools(m, ts)),
    decreases ts.len(),
{
    if ts.len() > 0 {
        lemma_wf_add_tools(m, ts.drop_last());
        let m1 = add_tools(m, ts.drop_last());
        let t = ts.last();
        let cb = client_or_default(m1, t.client);
        let sb = server_or_default(cb.servers, t.server);
        lemma_wf_client_or_default(m1, t.client);
        lemma_wf_server_or_default(cb, t.server);
        let tb = ToolBaselineView { description_sha256: tool_hash(t) };
        lemma_insert_sorted(sb.tools, t.name, tb);
        let sb2 = ServerBaselineView { tools: assoc_insert(sb.tools, t.name, tb), ..sb };
        lemma_wf_client_insert(cb, t.server, sb2);
        lemma_wf_clients_insert(m1, t.client, ClientBaselineView { servers: assoc_insert(cb.servers, t.server, sb2) });
    }
}

/// Every snapshot that `build_snapshot` describes keeps all its keys in order.
pub proof fn lemma_snapshot_well_formed(r: ScanResultView, ts: Seq<ExposedToolView>)
    ensures
        wf_clients(build_snapshot_spec(r, ts).clients),
{
    lemma_wf_add_clients(Seq::empty(), r.clients);
    lemma_wf_add_tools(add_clients(Seq::empty(), r.clients), ts);
}

/// In a well-formed map, each server of entry `i` is found under its keys.
proof fn lemma_server_found(m: Seq<(Seq<char>, ClientBaselineView)>, i: int, j: int)
    requires
        wf_clients(m),
        0 <= i < m.len(),
        0 <= j < m[i].1.servers.len(),
    ensures
        server_at(m, m[i].0, m[i].1.servers[j].0) == Some(m[i].1.servers[j].1),
{
    lemma_get_at(m, i);
    assert(wf_client(m[i].1));
    lemma_get_at(m[i].1.servers, j);
}

proof fn lemma_tool_found(m: Seq<(Seq<char>, ClientBaselineView)>, i: int, j: int, k: int)
    requires
        wf_clients(m),
        0 <= i < m.len(),
        0 <= j < m[i].1.servers.len(),
        0 <= k < m[i].1.servers[j].1.tools.len(),
    ensures
        tool_at(m, m[i].0, m[i].1.servers[j].0, m[i].1.servers[j].1.tools[k].0) == Some(
            m[i].1.servers[j].1.tools[k].1,
        ),
{
    lemma_server_found(m, i, j);
    assert(wf_client(m[i].1));
    assert(keys_sorted(m[i].1.servers[j].1.tools));
    lemma_get_at(m[i].1.servers[j].1.tools, k);
}

proof fn lemma_self_servers_in(m: Seq<(Seq<char>, ClientBaselineView)>, i: int, k: int)
    requires
        wf_clients(m),
        0 <= i < m.len(),
        0 <= k <= m[i].1.servers.len(),
    ensures
        missing_servers_in(m, m[i].0, m[i].1.servers.take(k)) =~= Seq::<ServerIdView>::empty(),
        changed_servers_in(m, m[i].0, m[i].1.servers.take(k)) =~= Seq::<ChangedServerView>::empty(),
        missing_tools_in(m, m[i].0, m[i].1.servers.take(k)) =~= Seq::<ToolIdView>::empty(),
        changed_tools_in(m, m[i].0, m[i].1.servers.take(k)) =~= Seq::<ChangedToolView>::empty(),
    decreases k,
{
    if k > 0 {
        let ss = m[i].1.servers;
        lemma_self_servers_in(m, i, k - 1);
        assert(ss.take(k).drop_last() =~= ss.take(k - 1));
        assert(ss.take(k).last() == ss[k - 1]);
        lemma_server_found(m, i, k - 1);
        assert(changed_fields_spec(ss[k - 1].1, ss[k - 1].1) =~= Seq::<Seq<char>>::empty());
        lemma_self_tools_of(m, i, k - 1, ss[k - 1].1.tools.len() as int);
        assert(ss[k - 1].1.tools.take(ss[k - 1].1.tools.len() as int) =~= ss[k - 1].1.tools);
    }
}

proof fn lemma_self_tools_of(m: Seq<(Seq<char>, ClientBaselineView)>, i: int, j: int, k: int)
    requires
        wf_clients(m),
        0 <= i < m.len(),
        0 <= j < m[i].1.servers.len(),
        0 <= k <= m[i].1.servers[j].1.tools.len(),
    ensures
        missing_tools_of(m, m[i].0, m[i].1.servers[j].0, m[i].1.servers[j].1.tools.take(k))
            =~= Seq::<ToolIdView>::empty(),
        changed_tools_of(m, m[i].0, m[i].1.servers[j].0, m[i].1.servers[j].1.tools.take(k))
            =~= Seq::<ChangedToolView>::empty(),
    decreases k,
{
    if k > 0 {
        let ts = m[i].1.servers[j].1.tools;
        lemma_self_tools_of(m, i, j, k - 1);
        assert(ts.take(k).drop_last() =~= ts.take(k - 1));
        assert(ts.take(k).last() == ts[k - 1]);
        lemma_tool_found(m, i, j, k - 1);
    }
}

proof fn lemma_self_clients(m: Seq<(Seq<char>, ClientBaselineView)>, n: int)
    requires
        wf_clients(m),
        0 <= n <= m.len(),
    ensures
        missing_servers(m, m.take(n)) =~= Seq::<ServerIdView>::empty(),
        changed_servers_spec(m, m.take(n)) =~= Seq::<ChangedServerView>::empty(),
        missing_tools(m, m.take(n)) =~= Seq::<ToolIdView>::empty(),
        changed_tools_spec(m, m.take(n)) =~= Seq::<ChangedToolView>::empty(),
    decreases n,
{
    if n > 0 {
        lemma_self_clients(m, n - 1);
        assert(m.take(n).drop_last() =~= m.take(n - 1));
        assert(m.take(n).last() == m[n - 1]);
        lemma_self_servers_in(m, n - 1, m[n - 1].1.servers.len() as int);
        assert(m[n - 1].1.servers.take(m[n - 1].1.servers.len() as int) =~= m[n - 1].1.servers);
    }
}

proof fn lemma_baseline_holds(fs: Seq<FindingView>, i: int)
    requires
        0 <= i < fs.len(),
        gating(fs[i].severity),
    ensures
        has_fingerprint(baseline_findings(fs), fingerprint_spec(fs[i])),
    decreases fs.len(),
{
    let pre = baseline_findings(fs.drop_last());
    if i < fs.len() - 1 {
        lemma_baseline_holds(fs.drop_last(), i);
        assert(fs.drop_last()[i] == fs[i]);
        let k = choose|k: int| 0 <= k < pre.len() && #[trigger] pre[k].fingerprint == fingerprint_spec(fs[i]);
        assert(baseline_findings(fs)[k] == pre[k]);
    } else {
        assert(fs.last() == fs[i]);
        assert(baseline_findings(fs) =~= pre.push(finding_baseline_spec(fs[i])));
        assert(baseline_findings(fs)[pre.len() as int].fingerprint == fingerprint_spec(fs[i]));
    }
}

proof fn lemma_no_new_findings(fs: Seq<FindingView>, n: int)
    requires
        0 <= n <= fs.len(),
    ensures
        new_findings_spec(baseline_findings(fs), fs.take(n)) =~= Seq::<FindingView>::empty(),
    decreases n,
{
    if n > 0 {
        lemma_no_new_findings(fs, n - 1);
        assert(fs.take(n).drop_last() =~= fs.take(n - 1));
        assert(fs.take(n).last() == fs[n - 1]);
        if gating(fs[n - 1].severity) {
            lemma_baseline_holds(fs, n - 1);
        }
    }
}

/// Law: a scan compared with its own baseline shows no change at all: no
/// server or tool added, removed or changed, and no new finding.
pub proof fn lemma_compare_with_own_baseline(r: ScanResultView, ts: Seq<ExposedToolView>)
    ensures
        compare_spec(build_snapshot_spec(r, ts), r, ts) == (DiffView {
            added_servers: Seq::empty(),
            removed_servers: Seq::empty(),
            changed_servers: Seq::empty(),
            added_tools: Seq::empty(),
            removed_tools: Seq::empty(),
            changed_tools: Seq::empty(),
            new_findings: Seq::empty(),
        }),
{
    let m = build_snapshot_spec(r, ts).clients;
    lemma_snapshot_well_formed(r, ts);
    lemma_self_clients(m, m.len() as int);
    assert(m.take(m.len() as int) =~= m);
    lemma_no_new_findings(r.findings, r.findings.len() as int);
    assert(r.findings.take(r.findings.len() as int) =~= r.findings);
}

} // verus!
