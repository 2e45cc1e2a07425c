//! Client adapters: turn each client's parsed MCP config into the model.
//!
//! Reading the files and parsing them is left to the caller, which hands each
//! adapter a [`ConfigSource`] per config location.

pub mod claude_code;
pub mod cline;
pub mod codex;
pub mod cursor;
pub mod goose;
pub mod vscode;

use vstd::prelude::*;

use crate::config::{
    env_of, env_spec, flag_of, get_field, get_flag, get_text, get_text_list, is_nonempty_list,
    key_is, lemma_env_consistent, lookup_field, nonempty_list, parse_document, table_entries, text_list, text_of, document,
    texts_sorted, ConfigFormat, ConfigValue,
};
use crate::ir::{ClientSnapshot, ClientSnapshotView, ServerRef, ServerRefView};
use crate::text::{cat, owned, text_eq, to_lowercase_text, unicode_lower};

verus! {

/// The supported clients.
#[derive(Debug, Clone, Copy, PartialEq, Eq, Structural)]
pub enum ClientKind {
    ClaudeCode,
    Cursor,
    Codex,
    Vscode,
    Cline,
    Goose,
}

/// The name a client is reported under.
pub open spec fn client_name(k: ClientKind) -> Seq<char> {
    match k {
        ClientKind::ClaudeCode => "claude_code"@,
        ClientKind::Cursor => "cursor"@,
        ClientKind::Codex => "codex"@,
        ClientKind::Vscode => "vscode"@,
        ClientKind::Cline => "cline"@,
        ClientKind::Goose => "goose"@,
    }
}

impl ClientKind {
    /// The name this client is reported under.
    pub fn name(self) -> (r: &'static str)
        ensures
            r@ == client_name(self),
    {
        match self {
            ClientKind::ClaudeCode => "claude_code",
            ClientKind::Cursor => "cursor",
            ClientKind::Codex => "codex",
            ClientKind::Vscode => "vscode",
            ClientKind::Cline => "cline",
            ClientKind::Goose => "goose",
        }
    }
}

/// All supported clients, in scan order.
pub fn all() -> (r: Vec<(&'static str, ClientKind)>)
    ensures
        r@.len() == 6,
        r@[0].1 == ClientKind::ClaudeCode,
        r@[1].1 == ClientKind::Cursor,
        r@[2].1 == ClientKind::Codex,
        r@[3].1 == ClientKind::Vscode,
        r@[4].1 == ClientKind::Cline,
        r@[5].1 == ClientKind::Goose,
        forall|i: int| 0 <= i < r@.len() ==> (#[trigger] r@[i]).0@ == client_name(r@[i].1),
{
    let mut r: Vec<(&'static str, ClientKind)> = Vec::new();
    r.push((ClientKind::ClaudeCode.name(), ClientKind::ClaudeCode));
    r.push((ClientKind::Cursor.name(), ClientKind::Cursor));
    r.push((ClientKind::Codex.name(), ClientKind::Codex));
    r.push((ClientKind::Vscode.name(), ClientKind::Vscode));
    r.push((ClientKind::Cline.name(), ClientKind::Cline));
    r.push((ClientKind::Goose.name(), ClientKind::Goose));
    r
}

/// What was found at one config location.
pub enum ConfigRead {
    /// No readable file there.
    Missing,
    /// A file that did not parse; the parser's message.
    Malformed(String),
    /// The parsed document.
    Parsed(ConfigValue),
}

/// One config location of a client: its displayed path, whether it belongs
/// to the project (rather than the user), and what was read there.
pub struct ConfigSource {
    pub path: String,
    pub project: bool,
    pub read: ConfigRead,
}

/// The format that a client's config files are written in.
pub open spec fn client_format_spec(kind: ClientKind) -> ConfigFormat {
    match kind {
        ClientKind::Codex => ConfigFormat::Toml,
        ClientKind::Goose => ConfigFormat::Yaml,
        _ => ConfigFormat::Json,
    }
}

/// The format that a client's config files are written in (see [`client_format_spec`]).
pub fn client_format(kind: ClientKind) -> (r: ConfigFormat)
    ensures
        r == client_format_spec(kind),
{
    match kind {
        ClientKind::Codex => ConfigFormat::Toml,
        ClientKind::Goose => ConfigFormat::Yaml,
        _ => ConfigFormat::Json,
    }
}

/// What was found at a config location, from the text of the file there
/// (`None` when there is no readable file): the parsed document, or the
/// parser's message.
pub fn read_config(format: ConfigFormat, text: Option<&str>) -> (r: ConfigRead)
    ensures
        text is None ==> r is Missing,
        text matches Some(t) ==> match document(format, t@) {
            Ok(d) => r == ConfigRead::Parsed(d),
            Err(m) => r matches ConfigRead::Malformed(e) && e@ == m,
        },
{
    match text {
        None => ConfigRead::Missing,
        Some(t) => match parse_document(format, t) {
            Ok(d) => ConfigRead::Parsed(d),
            Err(e) => ConfigRead::Malformed(e),
        },
    }
}

/// The note recorded for a config file that did not parse.
pub open spec fn parse_failure(path: Seq<char>, err: Seq<char>) -> Seq<char> {
    "failed to parse "@ + path + ": "@ + err
}

/// The note for a config file that did not parse.
pub fn parse_failure_note(path: &str, err: &str) -> (r: String)
    ensures
        r@ == parse_failure(path@, err@),
{
    let a = cat("failed to parse ", path);
    let b = cat(a.as_str(), ": ");
    cat(b.as_str(), err)
}

/// The scope a client's server is declared in.
pub open spec fn scope_spec(kind: ClientKind, project: bool) -> Seq<char> {
    match kind {
        ClientKind::Vscode => "project"@,
        ClientKind::ClaudeCode | ClientKind::Codex => if project {
            "project"@
        } else {
            "user"@
        },
        _ => "user"@,
    }
}

/// "stdio" with a command, else "http" with a URL, else "unknown".
pub open spec fn launch_transport(command: Option<Seq<char>>, url: Option<Seq<char>>) -> Seq<char> {
    if command is Some {
        "stdio"@
    } else if url is Some {
        "http"@
    } else {
        "unknown"@
    }
}

/// The approval of a server: "disabled", else "auto" when it auto-approves, else "on-request".
pub open spec fn approval_spec(disabled: bool, auto: bool) -> Seq<char> {
    if disabled {
        "disabled"@
    } else if auto {
        "auto"@
    } else {
        "on-request"@
    }
}

/// A declared type, lower-cased, with a fallback when the field is not text.
pub open spec fn declared_type(cfg: ConfigValue, key: Seq<char>, fallback: Seq<char>) -> Seq<char> {
    unicode_lower(
        match text_of(lookup_field(cfg, key)) {
            Some(t) => t,
            None => fallback,
        },
    )
}

/// The transport of a server entry of `kind`.
pub open spec fn transport_spec(kind: ClientKind, cfg: ConfigValue) -> Seq<char> {
    let command = text_of(lookup_field(cfg, "command"@));
    let url = text_of(lookup_field(cfg, "url"@));
    match kind {
        ClientKind::Cline => if declared_type(cfg, "transportType"@, ""@) == "http"@ || url is Some {
            "http"@
        } else {
            "stdio"@
        },
        ClientKind::Vscode => if declared_type(cfg, "type"@, "stdio"@) == "http"@ || url is Some {
            "http"@
        } else {
            "stdio"@
        },
        ClientKind::Codex => if command is Some {
            "stdio"@
        } else {
            "unknown"@
        },
        _ => launch_transport(command, url),
    }
}

/// Whether a server entry of `kind` is switched off.
pub open spec fn disabled_spec(kind: ClientKind, cfg: ConfigValue) -> bool {
    match kind {
        ClientKind::Vscode | ClientKind::Codex => false,
        ClientKind::Goose => flag_of(lookup_field(cfg, "enabled"@)) == Some(false),
        _ => flag_of(lookup_field(cfg, "disabled"@)) == Some(true),
    }
}

/// The server that entry `name` of a `kind` config at `path` declares. The
/// values under `env` are read only when `read_values` is set (for live
/// introspection, which passes them to the servers it starts); otherwise only
/// the names of the environment variables are taken.
pub open spec fn server_spec(
    kind: ClientKind,
    name: Seq<char>,
    cfg: ConfigValue,
    path: Seq<char>,
    project: bool,
    read_values: bool,
) -> ServerRefView {
    let disabled = disabled_spec(kind, cfg);
    let auto = kind == ClientKind::Cline && nonempty_list(lookup_field(cfg, "autoApprove"@));
    let env = env_spec(lookup_field(cfg, "env"@));
    ServerRefView {
        client: client_name(kind),
        name,
        scope: scope_spec(kind, project),
        transport: transport_spec(kind, cfg),
        command: text_of(lookup_field(cfg, "command"@)),
        args: text_list(lookup_field(cfg, "args"@)),
        url: if kind == ClientKind::Codex {
            None
        } else {
            text_of(lookup_field(cfg, "url"@))
        },
        env_keys: env.0,
        env_values: if read_values {
            env.1
        } else {
            Seq::empty()
        },
        approval: approval_spec(disabled, auto),
        disabled,
        raw_source: if kind == ClientKind::Vscode {
            Seq::empty()
        } else {
            path
        },
    }
}

/// The servers that a table of entries declares: one per entry whose key is
/// text and whose value is a table, in entry order.
pub open spec fn servers_spec(
    kind: ClientKind,
    es: Seq<(Option<String>, ConfigValue)>,
    path: Seq<char>,
    project: bool,
    read_values: bool,
) -> Seq<ServerRefView>
    decreases es.len(),
{
    if es.len() == 0 {
        Seq::empty()
    } else {
        let rest = servers_spec(kind, es.drop_last(), path, project, read_values);
        match es.last().0 {
            Some(name) => if es.last().1 is Table {
                rest.push(server_spec(kind, name@, es.last().1, path, project, read_values))
            } else {
                rest
            },
            None => rest,
        }
    }
}

/// The servers declared under field `key` of `doc`, when it is a table.
pub open spec fn servers_under(
    kind: ClientKind,
    doc: ConfigValue,
    key: Seq<char>,
    path: Seq<char>,
    project: bool,
    read_values: bool,
) -> Seq<ServerRefView> {
    match table_entries(lookup_field(doc, key)) {
        Some(es) => servers_spec(kind, es, path, project, read_values),
        None => Seq::empty(),
    }
}

/// The server that entry `name` of a `kind` config declares.
pub fn server_entry(kind: ClientKind, name: &str, cfg: &ConfigValue, path: &str, project: bool, read_values: bool) -> (r:
    ServerRef)
    requires
        cfg is Table,
    ensures
        r@ == server_spec(kind, name@, *cfg, path@, project, read_values),
{
    let command = get_text(get_field(cfg, "command"));
    let url = match kind {
        ClientKind::Codex => None,
        _ => get_text(get_field(cfg, "url")),
    };
    let found_url = get_text(get_field(cfg, "url"));
    let transport = match kind {
        ClientKind::Cline => {
            let declared = match get_text(get_field(cfg, "transportType")) {
                Some(t) => t,
                None => owned(""),
            };
            let lowered = to_lowercase_text(declared.as_str());
            if text_eq(lowered.as_str(), "http") || found_url.is_some() {
                owned("http")
            } else {
                owned("stdio")
            }
        },
        ClientKind::Vscode => {
            let declared = match get_text(get_field(cfg, "type")) {
                Some(t) => t,
                None => owned("stdio"),
            };
            let lowered = to_lowercase_text(declared.as_str());
            if text_eq(lowered.as_str(), "http") || found_url.is_some() {
                owned("http")
            } else {
                owned("stdio")
            }
        },
        ClientKind::Codex => {
            if command.is_some() {
                owned("stdio")
            } else {
                owned("unknown")
            }
        },
        _ => {
            if command.is_some() {
                owned("stdio")
            } else if found_url.is_some() {
                owned("http")
            } else {
                owned("unknown")
            }
        },
    };
    let disabled = match kind {
        ClientKind::Vscode | ClientKind::Codex => false,
        ClientKind::Goose => match get_flag(get_field(cfg, "enabled")) {
            Some(b) => !b,
            None => false,
        },
        _ => match get_flag(get_field(cfg, "disabled")) {
            Some(b) => b,
            None => false,
        },
    };
    let auto = match kind {
        ClientKind::Cline => is_nonempty_list(get_field(cfg, "autoApprove")),
        _ => false,
    };
    let approval = if disabled {
        owned("disabled")
    } else if auto {
        owned("auto")
    } else {
        owned("on-request")
    };
    let scope = match kind {
        ClientKind::Vscode => owned("project"),
        ClientKind::ClaudeCode | ClientKind::Codex => if project {
            owned("project")
        } else {
            owned("user")
        },
        _ => owned("user"),
    };
    let (env_keys, found_values) = env_of(get_field(cfg, "env"));
    let env_values = if read_values {
        found_values
    } else {
        let none: Vec<(String, String)> = Vec::new();
        assert(none.deep_view() =~= Seq::<(Seq<char>, Seq<char>)>::empty());
        none
    };
    let args = get_text_list(get_field(cfg, "args"));
    let raw_source = match kind {
        ClientKind::Vscode => String::new(),
        _ => owned(path),
    };
    ServerRef {
        client: owned(kind.name()),
        name: owned(name),
        scope,
        transport,
        command,
        args,
        url,
        env_keys,
        env_values,
        approval,
        disabled,
        raw_source,
    }
}

/// The servers that a table of entries declares (see [`servers_spec`]).
pub fn servers_in(
    kind: ClientKind,
    es: &Vec<(Option<String>, ConfigValue)>,
    path: &str,
    project: bool,
    read_values: bool,
) -> (r: Vec<ServerRef>)
    ensures
        r.deep_view() == servers_spec(kind, es@, path@, project, read_values),
{
    let mut out: Vec<ServerRef> = Vec::new();
    let n = es.len();
    for i in 0..n
        invariant
            n == es@.len(),
            out.deep_view() == servers_spec(kind, es@.take(i as int), path@, project, read_values),
    {
        assert(es@.take(i + 1).drop_last() =~= es@.take(i as int));
        assert(es@.take(i + 1).last() == es@[i as int]);
        match &es[i].0 {
            Some(name) => {
                match &es[i].1 {
                    ConfigValue::Table(_) => {
                        let s = server_entry(kind, name.as_str(), &es[i].1, path, project, read_values);
                        out.push(s);
                    },
                    _ => {},
                }
            },
            None => {},
        }
        assert(out.deep_view() =~= servers_spec(kind, es@.take(i + 1), path@, project, read_values));
    }
    assert(es@.take(n as int) =~= es@);
    out
}

/// Law: every server that a client's config declares is reported under that
/// client, carries the entry's name, and has a transport and an approval out
/// of the fixed vocabularies.
pub proof fn lemma_servers_belong_to_client(
    kind: ClientKind,
    es: Seq<(Option<String>, ConfigValue)>,
    path: Seq<char>,
    project: bool,
    read_values: bool,
    i: int,
)
    requires
        0 <= i < servers_spec(kind, es, path, project, read_values).len(),
    ensures
        servers_spec(kind, es, path, project, read_values)[i].client == client_name(kind),
        exists|j: int|
            0 <= j < es.len() && key_is(#[trigger] es[j].0, servers_spec(kind, es, path, project, read_values)[i].name),
        ({
            let t = servers_spec(kind, es, path, project, read_values)[i].transport;
            t == "stdio"@ || t == "http"@ || t == "unknown"@
        }),
        ({
            let a = servers_spec(kind, es, path, project, read_values)[i].approval;
            a == "disabled"@ || a == "auto"@ || a == "on-request"@
        }),
    decreases es.len(),
{
    let rest = servers_spec(kind, es.drop_last(), path, project, read_values);
    if i < rest.len() {
        lemma_servers_belong_to_client(kind, es.drop_last(), path, project, read_values, i);
        let j = choose|j: int| 0 <= j < es.drop_last().len() && key_is(#[trigger] es.drop_last()[j].0, rest[i].name);
        assert(es[j] == es.drop_last()[j]);
    } else {
        let last = es.len() - 1;
        assert(key_is(es[last].0, servers_spec(kind, es, path, project, read_values)[i].name));
    }
}

/// The servers declared under field `key` of `doc` (see [`servers_under`]).
pub fn servers_at(kind: ClientKind, doc: &ConfigValue, key: &str, path: &str, project: bool, read_values: bool) -> (r:
    Vec<ServerRef>)
    ensures
        r.deep_view() == servers_under(kind, *doc, key@, path@, project, read_values),
{
    match get_field(doc, key) {
        Some(ConfigValue::Table(es)) => servers_in(kind, es, path, project, read_values),
        _ => Vec::new(),
    }
}

/// A client none of whose config files is there.
pub open spec fn missing_snapshot(kind: ClientKind) -> ClientSnapshotView {
    ClientSnapshotView {
        client: client_name(kind),
        detected: false,
        config_files: Seq::empty(),
        servers: Seq::empty(),
        notes: Seq::empty(),
    }
}

/// A client whose one config file at `path` did not parse.
pub open spec fn malformed_snapshot(kind: ClientKind, path: Seq<char>, err: Seq<char>) -> ClientSnapshotView {
    ClientSnapshotView {
        client: client_name(kind),
        detected: true,
        config_files: seq![path],
        servers: Seq::empty(),
        notes: seq![parse_failure(path, err)],
    }
}

/// A client whose one config file at `path` declares `servers`.
pub open spec fn found_snapshot(
    kind: ClientKind,
    path: Seq<char>,
    servers: Seq<ServerRefView>,
    notes: Seq<Seq<char>>,
) -> ClientSnapshotView {
    ClientSnapshotView {
        client: client_name(kind),
        detected: true,
        config_files: seq![path],
        servers,
        notes,
    }
}

/// The snapshot of a client with no readable config.
pub fn missing(kind: ClientKind) -> (r: ClientSnapshot)
    ensures
        r@ == missing_snapshot(kind),
{
    let r = ClientSnapshot {
        client: owned(kind.name()),
        detected: false,
        config_files: Vec::new(),
        servers: Vec::new(),
        notes: Vec::new(),
    };
    assert(r@.config_files =~= Seq::<Seq<char>>::empty());
    assert(r@.notes =~= Seq::<Seq<char>>::empty());
    assert(r@.servers =~= Seq::<ServerRefView>::empty());
    r
}

/// The snapshot of a client whose one config file did not parse.
pub fn malformed(kind: ClientKind, path: &str, err: &str) -> (r: ClientSnapshot)
    ensures
        r@ == malformed_snapshot(kind, path@, err@),
{
    let mut files: Vec<String> = Vec::new();
    files.push(owned(path));
    let mut notes: Vec<String> = Vec::new();
    notes.push(parse_failure_note(path, err));
    let r = ClientSnapshot {
        client: owned(kind.name()),
        detected: true,
        config_files: files,
        servers: Vec::new(),
        notes,
    };
    assert(r@.config_files =~= seq![path@]);
    assert(r@.notes =~= seq![parse_failure(path@, err@)]);
    assert(r@.servers =~= Seq::<ServerRefView>::empty());
    r
}

/// The snapshot of a client whose one config file declares `servers`.
pub fn found(kind: ClientKind, path: &str, servers: Vec<ServerRef>, notes: Vec<String>) -> (r:
    ClientSnapshot)
    ensures
        r@ == found_snapshot(kind, path@, servers.deep_view(), notes.deep_view()),
{
    let mut files: Vec<String> = Vec::new();
    files.push(owned(path));
    let r = ClientSnapshot { client: owned(kind.name()), detected: true, config_files: files, servers, notes };
    assert(r@.config_files =~= seq![path@]);
    r
}

/// What the config files of a multi-file client hold together: the files
/// that parsed, the servers they declare under `key`, and a note per file
/// that did not parse. Missing files are skipped.
pub open spec fn gather_spec(kind: ClientKind, srcs: Seq<ConfigSource>, key: Seq<char>, read_values: bool) -> (
    Seq<Seq<char>>,
    Seq<ServerRefView>,
    Seq<Seq<char>>,
)
    decreases srcs.len(),
{
    if srcs.len() == 0 {
        (Seq::empty(), Seq::empty(), Seq::empty())
    } else {
        let rest = gather_spec(kind, srcs.drop_last(), key, read_values);
        let src = srcs.last();
        match src.read {
            ConfigRead::Missing => rest,
            ConfigRead::Malformed(e) => (rest.0, rest.1, rest.2.push(parse_failure(src.path@, e@))),
            ConfigRead::Parsed(doc) => (
                rest.0.push(src.path@),
                rest.1 + servers_under(kind, doc, key, src.path@, src.project, read_values),
                rest.2,
            ),
        }
    }
}

/// The snapshot of a client that reads several config files, in order.
pub open spec fn gathered_snapshot(kind: ClientKind, srcs: Seq<ConfigSource>, key: Seq<char>, read_values: bool) -> ClientSnapshotView {
    let g = gather_spec(kind, srcs, key, read_values);
    ClientSnapshotView {
        client: client_name(kind),
        detected: g.0.len() > 0,
        config_files: g.0,
        servers: g.1,
        notes: g.2,
    }
}

/// The snapshot of a client that reads the config files `srcs` (see [`gathered_snapshot`]).
pub fn gather(kind: ClientKind, srcs: &Vec<ConfigSource>, key: &str, read_values: bool) -> (r: ClientSnapshot)
    ensures
        r@ == gathered_snapshot(kind, srcs@, key@, read_values),
{
    let mut files: Vec<String> = Vec::new();
    let mut servers: Vec<ServerRef> = Vec::new();
    let mut notes: Vec<String> = Vec::new();
    let n = srcs.len();
    for i in 0..n
        invariant
            n == srcs@.len(),
            (files.deep_view(), servers.deep_view(), notes.deep_view()) == gather_spec(
                kind,
                srcs@.take(i as int),
                key@,
                read_values,
            ),
    {
        assert(srcs@.take(i + 1).drop_last() =~= srcs@.take(i as int));
        assert(srcs@.take(i + 1).last() == srcs@[i as int]);
        let src = &srcs[i];
        match &src.read {
            ConfigRead::Missing => {},
            ConfigRead::Malformed(e) => {
                notes.push(parse_failure_note(src.path.as_str(), e.as_str()));
            },
            ConfigRead::Parsed(doc) => {
                files.push(owned(src.path.as_str()));
                let mut found = servers_at(kind, doc, key, src.path.as_str(), src.project, read_values);
                let ghost before = servers.deep_view();
                let ghost added = found.deep_view();
                servers.append(&mut found);
                assert(servers.deep_view() =~= before + added);
            },
        }
    }
    assert(srcs@.take(n as int) =~= srcs@);
    let detected = files.len() > 0;
    ClientSnapshot { client: owned(kind.name()), detected, config_files: files, servers, notes }
}


// ---------------------------------------------------------------------------
// The shape of what the adapters report
// ---------------------------------------------------------------------------

/// What holds of every server an adapter of `kind` reports: it names the
/// client, its transport and scope come from the fixed vocabularies, its
/// transport agrees with its command and URL (for Cline and VS Code a server
/// with a URL is always remote), its environment keys are sorted, and it is
/// disabled exactly when its approval says so.
pub open spec fn server_shape(kind: ClientKind, s: ServerRefView) -> bool {
    &&& s.client == client_name(kind)
    &&& (s.transport == "stdio"@ || s.transport == "http"@ || s.transport == "unknown"@)
    &&& ((kind == ClientKind::Cline || kind == ClientKind::Vscode) ==> {
        // A server with a URL is remote, whatever type it declares; these
        // clients never report an unknown transport.
        &&& (s.url is Some ==> s.transport == "http"@)
        &&& s.transport != "unknown"@
    })
    &&& ((kind != ClientKind::Cline && kind != ClientKind::Vscode) ==> {
        // A launch command means a local process; without one, a URL means
        // a remote server.
        &&& (s.command is Some <==> s.transport == "stdio"@)
        &&& (kind != ClientKind::Codex ==> (s.transport == "http"@ <==> (s.command is None && s.url is Some)))
    })
    &&& (s.scope == "project"@ || s.scope == "user"@)
    &&& texts_sorted(s.env_keys)
    &&& (s.disabled <==> s.approval == "disabled"@)
}

/// What holds of every snapshot an adapter of `kind` reports: it names the
/// client, it is detected exactly when it lists a config file, and every
/// server has the shape above.
pub open spec fn snapshot_shape(kind: ClientKind, snap: ClientSnapshotView) -> bool {
    &&& snap.client == client_name(kind)
    &&& (snap.detected <==> snap.config_files.len() > 0)
    &&& forall|i: int| 0 <= i < snap.servers.len() ==> server_shape(kind, #[trigger] snap.servers[i])
}

/// Every server entry has the shape of [`server_shape`].
pub proof fn lemma_server_shape(
    kind: ClientKind,
    name: Seq<char>,
    cfg: ConfigValue,
    path: Seq<char>,
    project: bool,
    read_values: bool,
)
    ensures
        server_shape(kind, server_spec(kind, name, cfg, path, project, read_values)),
{
    reveal_strlit("disabled");
    reveal_strlit("auto");
    reveal_strlit("on-request");
    reveal_strlit("stdio");
    reveal_strlit("http");
    reveal_strlit("unknown");
    assert("disabled"@.len() == 8);
    assert("auto"@.len() == 4);
    assert("on-request"@.len() == 10);
    assert("stdio"@.len() == 5);
    assert("http"@.len() == 4);
    assert("unknown"@.len() == 7);
    lemma_env_consistent(lookup_field(cfg, "env"@));
}

/// Every server of a table of entries has the shape of [`server_shape`].
pub proof fn lemma_servers_shape(
    kind: ClientKind,
    es: Seq<(Option<String>, ConfigValue)>,
    path: Seq<char>,
    project: bool,
    read_values: bool,
)
    ensures
        forall|i: int|
            0 <= i < servers_spec(kind, es, path, project, read_values).len() ==> server_shape(
                kind,
                #[trigger] servers_spec(kind, es, path, project, read_values)[i],
            ),
    decreases es.len(),
{
    if es.len() > 0 {
        lemma_servers_shape(kind, es.drop_last(), path, project, read_values);
        let rest = servers_spec(kind, es.drop_last(), path, project, read_values);
        let all = servers_spec(kind, es, path, project, read_values);
        match es.last().0 {
            Some(name) => {
                lemma_server_shape(kind, name@, es.last().1, path, project, read_values);
            },
            None => {},
        }
        assert forall|i: int| 0 <= i < all.len() implies server_shape(kind, #[trigger] all[i]) by {
            if i < rest.len() {
                assert(all[i] == rest[i]);
            }
        }
    }
}

/// Every server under a field has the shape of [`server_shape`].
pub proof fn lemma_servers_under_shape(
    kind: ClientKind,
    doc: ConfigValue,
    key: Seq<char>,
    path: Seq<char>,
    project: bool,
    read_values: bool,
)
    ensures
        forall|i: int|
            0 <= i < servers_under(kind, doc, key, path, project, read_values).len() ==> server_shape(
                kind,
                #[trigger] servers_under(kind, doc, key, path, project, read_values)[i],
            ),
{
    match table_entries(lookup_field(doc, key)) {
        Some(es) => lemma_servers_shape(kind, es, path, project, read_values),
        None => {},
    }
}

/// A one-file client's snapshot has the shape of [`snapshot_shape`] when its
/// servers do.
pub proof fn lemma_file_snapshot_shape(
    kind: ClientKind,
    path: Seq<char>,
    servers: Seq<ServerRefView>,
    notes: Seq<Seq<char>>,
    err: Seq<char>,
)
    requires
        forall|i: int| 0 <= i < servers.len() ==> server_shape(kind, #[trigger] servers[i]),
    ensures
        snapshot_shape(kind, missing_snapshot(kind)),
        snapshot_shape(kind, malformed_snapshot(kind, path, err)),
        snapshot_shape(kind, found_snapshot(kind, path, servers, notes)),
{
}

/// Law: the snapshot of a client that reads several config files has the
/// shape of [`snapshot_shape`].
pub proof fn lemma_gathered_shape(kind: ClientKind, srcs: Seq<ConfigSource>, key: Seq<char>, read_values: bool)
    ensures
        snapshot_shape(kind, gathered_snapshot(kind, srcs, key, read_values)),
{
    lemma_gathered_servers_shape(kind, srcs, key, read_values);
}

proof fn lemma_gathered_servers_shape(kind: ClientKind, srcs: Seq<ConfigSource>, key: Seq<char>, read_values: bool)
    ensures
        forall|i: int|
            0 <= i < gather_spec(kind, srcs, key, read_values).1.len() ==> server_shape(
                kind,
                #[trigger] gather_spec(kind, srcs, key, read_values).1[i],
            ),
    decreases srcs.len(),
{
    if srcs.len() > 0 {
        lemma_gathered_servers_shape(kind, srcs.drop_last(), key, read_values);
        let rest = gather_spec(kind, srcs.drop_last(), key, read_values);
        let src = srcs.last();
        match src.read {
            ConfigRead::Parsed(doc) => {
                lemma_servers_under_shape(kind, doc, key, src.path@, src.project, read_values);
                let added = servers_under(kind, doc, key, src.path@, src.project, read_values);
                assert forall|i: int|
                    0 <= i < (rest.1 + added).len() implies server_shape(kind, #[trigger] (rest.1 + added)[i]) by {
                    if i < rest.1.len() {
                        assert((rest.1 + added)[i] == rest.1[i]);
                    } else {
                        assert((rest.1 + added)[i] == added[i - rest.1.len()]);
                    }
                }
            },
            _ => {},
        }
    }
}

} // verus!
