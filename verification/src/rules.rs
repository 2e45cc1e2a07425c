//! Config-only risk rules over the declared servers (TG-001 .. TG-005).

use vstd::prelude::*;

use crate::ir::{rule_is, Finding, FindingView, ServerRef, ServerRefView};
use crate::seqs::{
    indices, lemma_filter_all, lemma_filter_empty, lemma_filter_none, lemma_indices_push, lemma_map_push,
};
use crate::matching::{regex_find, regex_first};
use crate::text::{byte_range, byte_slice, cat, debug_quoted, debug_text, join, join_spec, owned, text_eq, trim, trim_spec};

verus! {

/// Launch commands that fetch, pipe into a shell, open raw sockets or decode payloads.
pub const SUSPICIOUS_PATTERN: &'static str =
    r"(?i)(curl|wget|bash\s+-c|sh\s+-c|\|\s*sh|\|\s*bash|nc\s+-|/dev/tcp|eval\s|base64\s+-d|powershell)";

/// Environment variable names that look like secrets.
pub const SECRET_PATTERN: &'static str =
    r"(?i)(TOKEN|SECRET|API[_-]?KEY|PASSWORD|PASSWD|CREDENTIAL|PRIVATE[_-]?KEY|ACCESS[_-]?KEY)";

/// The text that a server is launched with: the command, a space, and the
/// arguments joined by spaces.
pub open spec fn command_blob(command: Option<Seq<char>>, args: Seq<Seq<char>>) -> Seq<char> {
    (match command {
        Some(c) => c,
        None => Seq::empty(),
    }) + " "@ + join_spec(args, " "@)
}

/// The text of the first suspicious match in the launch text, if any.
pub open spec fn suspicious_spec(command: Option<Seq<char>>, args: Seq<Seq<char>>) -> Option<Seq<char>> {
    let blob = command_blob(command, args);
    match regex_first(SUSPICIOUS_PATTERN@, blob) {
        Some(span) => Some(byte_range(blob, span.0 as int, span.1 as int)),
        None => None,
    }
}

/// Whether an environment key looks like a secret.
pub open spec fn is_secret_key(k: Seq<char>) -> bool {
    regex_first(SECRET_PATTERN@, k) is Some
}

/// A finding about server `s`.
pub open spec fn server_finding(
    s: ServerRefView,
    rule_id: Seq<char>,
    severity: Seq<char>,
    category: Seq<char>,
    message: Seq<char>,
    evidence: Seq<char>,
    confidence_pct: u8,
) -> FindingView {
    FindingView {
        rule_id,
        severity,
        category,
        client: s.client,
        server: s.name,
        message,
        evidence,
        confidence_pct,
    }
}

/// TG-003: the launch command matches a suspicious pattern.
pub open spec fn command_findings(s: ServerRefView) -> Seq<FindingView> {
    command_findings_with(s, suspicious_spec(s.command, s.args))
}

/// TG-003 given the suspicious text that the launch command matched, if any.
pub open spec fn command_findings_with(s: ServerRefView, matched: Option<Seq<char>>) -> Seq<FindingView> {
    match matched {
        Some(m) => seq![
            server_finding(
                s,
                "TG-003"@,
                "high"@,
                "suspicious_command"@,
                "Launch command/args match a suspicious pattern: "@ + debug_quoted(m)
                    + ". A poisoned tool could drive this to exfiltrate data or exec payloads."@,
                trim_spec(command_blob(s.command, s.args)),
                60,
            ),
        ],
        None => Seq::empty(),
    }
}

/// TG-004 for one secret-like environment key.
pub open spec fn secret_finding(s: ServerRefView, k: Seq<char>) -> FindingView {
    server_finding(
        s,
        "TG-004"@,
        "medium"@,
        "over_broad_perm"@,
        "Server receives secret-like env var "@ + debug_quoted(k)
            + ". If the tool description is poisoned, the model may exfiltrate its value."@,
        "env key: "@ + k,
        50,
    )
}

/// TG-004 for every secret-like key among `keys`, in order.
pub open spec fn secret_findings(s: ServerRefView, keys: Seq<Seq<char>>) -> Seq<FindingView>
    decreases keys.len(),
{
    if keys.len() == 0 {
        Seq::empty()
    } else {
        secret_findings(s, keys.drop_last()) + (if is_secret_key(keys.last()) {
            seq![secret_finding(s, keys.last())]
        } else {
            Seq::empty()
        })
    }
}

/// Whether flag `i` is set (a missing flag is not).
pub open spec fn flagged(flags: Seq<bool>, i: int) -> bool {
    0 <= i < flags.len() && flags[i]
}

/// TG-004 for every key among `keys` whose flag (by position) is set, in order.
pub open spec fn secret_findings_with(s: ServerRefView, keys: Seq<Seq<char>>, flags: Seq<bool>) -> Seq<
    FindingView,
>
    decreases keys.len(),
{
    if keys.len() == 0 {
        Seq::empty()
    } else {
        secret_findings_with(s, keys.drop_last(), flags) + (if flagged(flags, keys.len() - 1) {
            seq![secret_finding(s, keys.last())]
        } else {
            Seq::empty()
        })
    }
}

/// With each key flagged exactly when it looks like a secret, the flagged
/// findings are the secret findings.
proof fn lemma_secret_flags(s: ServerRefView, keys: Seq<Seq<char>>, flags: Seq<bool>)
    requires
        forall|i: int| 0 <= i < keys.len() ==> flagged(flags, i) == is_secret_key(#[trigger] keys[i]),
    ensures
        secret_findings(s, keys) == secret_findings_with(s, keys, flags),
    decreases keys.len(),
{
    if keys.len() > 0 {
        let d = keys.drop_last();
        assert forall|i: int| 0 <= i < d.len() implies flagged(flags, i) == is_secret_key(#[trigger] d[i]) by {
            assert(d[i] == keys[i]);
        }
        lemma_secret_flags(s, d, flags);
        assert(flagged(flags, keys.len() - 1) == is_secret_key(keys[keys.len() - 1]));
    }
}

/// TG-001: the client auto-approves the server's tools.
pub open spec fn approval_findings(s: ServerRefView) -> Seq<FindingView> {
    if s.approval == "auto"@ {
        seq![
            server_finding(
                s,
                "TG-001"@,
                "medium"@,
                "over_broad_perm"@,
                "Tools are auto-approved: the agent may call them without per-call confirmation."@,
                "autoApprove set"@,
                80,
            ),
        ]
    } else {
        Seq::empty()
    }
}

/// TG-005: the server is reached over the network.
pub open spec fn remote_findings(s: ServerRefView) -> Seq<FindingView> {
    if (s.transport == "http"@ || s.transport == "sse"@) && s.url is Some {
        seq![
            server_finding(
                s,
                "TG-005"@,
                "low"@,
                "over_broad_perm"@,
                "Remote MCP transport ("@ + s.transport + ") to "@ + s.url.unwrap()
                    + ". Tool descriptions travel over the network and can change server-side."@,
                s.url.unwrap(),
                40,
            ),
        ]
    } else {
        Seq::empty()
    }
}

/// TG-002: the server is declared but disabled.
pub open spec fn disabled_findings(s: ServerRefView) -> Seq<FindingView> {
    if s.disabled {
        seq![
            server_finding(
                s,
                "TG-002"@,
                "info"@,
                "runtime_fault"@,
                "Server is disabled in config (not active, but still declared)."@,
                "disabled=true"@,
                90,
            ),
        ]
    } else {
        Seq::empty()
    }
}

/// All findings for one server, in rule order.
pub open spec fn server_findings(s: ServerRefView) -> Seq<FindingView> {
    command_findings(s) + secret_findings(s, s.env_keys) + approval_findings(s) + remote_findings(
        s,
    ) + disabled_findings(s)
}

/// All findings for one server, given the suspicious text its launch command
/// matched and, by position, which of its environment keys look like secrets.
pub open spec fn server_findings_with(s: ServerRefView, matched: Option<Seq<char>>, secret: Seq<bool>) -> Seq<
    FindingView,
> {
    command_findings_with(s, matched) + secret_findings_with(s, s.env_keys, secret) + approval_findings(s)
        + remote_findings(s) + disabled_findings(s)
}

/// All findings for `servers`, server by server.
pub open spec fn evaluate_spec(servers: Seq<ServerRefView>) -> Seq<FindingView>
    decreases servers.len(),
{
    if servers.len() == 0 {
        Seq::empty()
    } else {
        evaluate_spec(servers.drop_last()) + server_findings(servers.last())
    }
}

/// The launch text of a server: command, a space, and the arguments joined by spaces.
fn command_blob_text(command: Option<&str>, args: &[String]) -> (r: String)
    ensures
        r@ == command_blob(command.deep_view(), args.deep_view()),
{
    let mut r = match command {
        Some(c) => owned(c),
        None => String::new(),
    };
    r.append(" ");
    let joined = join(args, " ");
    r.append(joined.as_str());
    r
}

/// The text of the first suspicious match in a server's launch text.
pub fn suspicious_command_match(command: Option<&str>, args: &[String]) -> (r: Option<String>)
    ensures
        r.deep_view() == suspicious_spec(command.deep_view(), args.deep_view()),
{
    let blob = command_blob_text(command, args);
    match regex_find(SUSPICIOUS_PATTERN, blob.as_str()) {
        Some(span) => Some(byte_slice(blob.as_str(), span.0, span.1)),
        None => None,
    }
}

/// A finding about `s` with the given texts.
fn make_finding(
    s: &ServerRef,
    rule_id: &str,
    severity: &str,
    category: &str,
    message: String,
    evidence: String,
    confidence_pct: u8,
) -> (f: Finding)
    ensures
        f@ == server_finding(
            s@,
            rule_id@,
            severity@,
            category@,
            message@,
            evidence@,
            confidence_pct,
        ),
{
    Finding {
        rule_id: owned(rule_id),
        severity: owned(severity),
        category: owned(category),
        client: owned(s.client.as_str()),
        server: owned(s.name.as_str()),
        message,
        evidence,
        confidence_pct,
    }
}

/// The findings for server `s`, given the suspicious text that its launch
/// command matched (if any) and, by position, which of its environment keys
/// look like secrets.
#[verifier::spinoff_prover]
#[verifier::rlimit(40)]
pub fn server_findings_given(s: &ServerRef, matched: Option<String>, secret: &[bool]) -> (r: Vec<Finding>)
    ensures
        r.deep_view() == server_findings_with(s@, matched.deep_view(), secret@),
{
    let mut out: Vec<Finding> = Vec::new();
    let ghost start = out.deep_view();
    let command = match &s.command {
        Some(c) => Some(c.as_str()),
        None => None,
    };
    assert(command.deep_view() == s@.command);
    if let Some(m) = matched {
        let mut message = owned("Launch command/args match a suspicious pattern: ");
        let quoted = debug_text(m.as_str());
        message.append(quoted.as_str());
        message.append(
            ". A poisoned tool could drive this to exfiltrate data or exec payloads.",
        );
        let blob = command_blob_text(command, s.args.as_slice());
        let evidence = trim(blob.as_str());
        out.push(make_finding(s, "TG-003", "high", "suspicious_command", message, evidence, 60));
    }
    assert(out.deep_view() =~= start + command_findings_with(s@, matched.deep_view()));

    let ghost before_keys = out.deep_view();
    let n = s.env_keys.len();
    for i in 0..n
        invariant
            n == s.env_keys@.len(),
            out.deep_view() =~= before_keys + secret_findings_with(s@, s@.env_keys.take(i as int), secret@),
    {
        assert(s@.env_keys.take(i + 1).drop_last() =~= s@.env_keys.take(i as int));
        let k = s.env_keys[i].as_str();
        assert(k@ == s@.env_keys.take(i + 1).last());
        let ghost prev = out.deep_view();
        let hit = i < secret.len() && secret[i];
        assert(hit == flagged(secret@, i as int));
        if hit {
            let mut message = owned("Server receives secret-like env var ");
            let quoted = debug_text(k);
            message.append(quoted.as_str());
            message.append(
                ". If the tool description is poisoned, the model may exfiltrate its value.",
            );
            let evidence = cat("env key: ", k);
            let f = make_finding(s, "TG-004", "medium", "over_broad_perm", message, evidence, 50);
            assert(f@ == secret_finding(s@, k@));
            out.push(f);
            assert(out.deep_view() =~= prev.push(secret_finding(s@, k@)));
        } else {
            assert(out.deep_view() =~= prev);
        }
    }
    assert(s@.env_keys.take(n as int) =~= s@.env_keys);

    let ghost before_auto = out.deep_view();
    if text_eq(s.approval.as_str(), "auto") {
        out.push(
            make_finding(
                s,
                "TG-001",
                "medium",
                "over_broad_perm",
                owned(
                    "Tools are auto-approved: the agent may call them without per-call confirmation.",
                ),
                owned("autoApprove set"),
                80,
            ),
        );
    }
    assert(out.deep_view() =~= before_auto + approval_findings(s@));

    let ghost before_remote = out.deep_view();
    if text_eq(s.transport.as_str(), "http") || text_eq(s.transport.as_str(), "sse") {
        if let Some(url) = &s.url {
            let mut message = owned("Remote MCP transport (");
            message.append(s.transport.as_str());
            message.append(") to ");
            message.append(url.as_str());
            message.append(
                ". Tool descriptions travel over the network and can change server-side.",
            );
            out.push(
                make_finding(s, "TG-005", "low", "over_broad_perm", message, owned(url.as_str()), 40),
            );
        }
    }
    assert(out.deep_view() =~= before_remote + remote_findings(s@));

    let ghost before_disabled = out.deep_view();
    if s.disabled {
        out.push(
            make_finding(
                s,
                "TG-002",
                "info",
                "runtime_fault",
                owned("Server is disabled in config (not active, but still declared)."),
                owned("disabled=true"),
                90,
            ),
        );
    }
    assert(out.deep_view() =~= before_disabled + disabled_findings(s@));
    out
}

/// Appends the findings for one server.
fn push_server_findings(s: &ServerRef, out: &mut Vec<Finding>)
    ensures
        final(out).deep_view() == old(out).deep_view() + server_findings(s@),
{
    let command = match &s.command {
        Some(c) => Some(c.as_str()),
        None => None,
    };
    assert(command.deep_view() == s@.command);
    let matched = suspicious_command_match(command, s.args.as_slice());
    let mut secret: Vec<bool> = Vec::new();
    let n = s.env_keys.len();
    for i in 0..n
        invariant
            n == s.env_keys@.len(),
            secret@.len() == i,
            forall|j: int| 0 <= j < i ==> flagged(secret@, j) == is_secret_key(#[trigger] s@.env_keys[j]),
    {
        assert(s@.env_keys[i as int] == s.env_keys@[i as int]@);
        let hit = regex_find(SECRET_PATTERN, s.env_keys[i].as_str());
        secret.push(hit.is_some());
        assert(flagged(secret@, i as int) == is_secret_key(s@.env_keys[i as int]));
    }
    proof {
        lemma_secret_flags(s@, s@.env_keys, secret@);
    }
    let mut found = server_findings_given(s, matched, secret.as_slice());
    let ghost before = out.deep_view();
    let ghost added = found.deep_view();
    out.append(&mut found);
    assert(out.deep_view() =~= before + added);
}

/// Evaluates the config rules on every server, in order.
pub fn evaluate(servers: &[ServerRef]) -> (out: Vec<Finding>)
    ensures
        out.deep_view() == evaluate_spec(servers.deep_view()),
{
    let mut out: Vec<Finding> = Vec::new();
    let n = servers.len();
    for i in 0..n
        invariant
            n == servers@.len(),
            out.deep_view() == evaluate_spec(servers.deep_view().take(i as int)),
    {
        assert(servers.deep_view().take(i + 1).drop_last() =~= servers.deep_view().take(i as int));
        push_server_findings(&servers[i], &mut out);
    }
    assert(servers.deep_view().take(n as int) =~= servers.deep_view());
    out
}

/// Law: the rules judge each server on its own, so evaluating two lists of
/// servers one after the other gives the findings of both, in order.
pub proof fn lemma_evaluate_concat(a: Seq<ServerRefView>, b: Seq<ServerRefView>)
    ensures
        evaluate_spec(a + b) == evaluate_spec(a) + evaluate_spec(b),
    decreases b.len(),
{
    if b.len() == 0 {
        assert(a + b =~= a);
    } else {
        lemma_evaluate_concat(a, b.drop_last());
        assert((a + b).drop_last() =~= a + b.drop_last());
    }
}

/// Law: every finding names the client and server of a server it was raised for.
pub proof fn lemma_findings_name_their_server(servers: Seq<ServerRefView>, i: int)
    requires
        0 <= i < evaluate_spec(servers).len(),
    ensures
        exists|j: int|
            0 <= j < servers.len() && #[trigger] servers[j].client == evaluate_spec(servers)[i].client
                && servers[j].name == evaluate_spec(servers)[i].server,
    decreases servers.len(),
{
    let prefix = evaluate_spec(servers.drop_last());
    let s = servers.last();
    if i < prefix.len() {
        lemma_findings_name_their_server(servers.drop_last(), i);
        let j = choose|j: int|
            0 <= j < servers.drop_last().len() && #[trigger] servers.drop_last()[j].client
                == prefix[i].client && servers.drop_last()[j].name == prefix[i].server;
        assert(servers[j] == servers.drop_last()[j]);
    } else {
        lemma_server_findings_name(s, i - prefix.len());
        assert(servers[servers.len() - 1] == s);
    }
}

/// Each finding for one server names that server.
proof fn lemma_server_findings_name(s: ServerRefView, i: int)
    requires
        0 <= i < server_findings(s).len(),
    ensures
        server_findings(s)[i].client == s.client,
        server_findings(s)[i].server == s.name,
{
    lemma_secret_findings_name(s, s.env_keys);
    let a = command_findings(s);
    let b = secret_findings(s, s.env_keys);
    let c = approval_findings(s);
    let d = remote_findings(s);
    let e = disabled_findings(s);
    if i < a.len() {
    } else if i < a.len() + b.len() {
        assert(server_findings(s)[i] == b[i - a.len()]);
    } else if i < a.len() + b.len() + c.len() {
    } else if i < a.len() + b.len() + c.len() + d.len() {
    } else {
    }
}

proof fn lemma_secret_findings_name(s: ServerRefView, keys: Seq<Seq<char>>)
    ensures
        forall|i: int|
            0 <= i < secret_findings(s, keys).len() ==> (#[trigger] secret_findings(s, keys)[i]).client
                == s.client && secret_findings(s, keys)[i].server == s.name,
    decreases keys.len(),
{
    if keys.len() > 0 {
        lemma_secret_findings_name(s, keys.drop_last());
        let pre = secret_findings(s, keys.drop_last());
        assert forall|i: int| 0 <= i < secret_findings(s, keys).len() implies (
        #[trigger] secret_findings(s, keys)[i]).client == s.client && secret_findings(
            s,
            keys,
        )[i].server == s.name by {
            if i < pre.len() {
                assert(secret_findings(s, keys)[i] == pre[i]);
            }
        }
    }
}

// ---------------------------------------------------------------------------
// One TG-004 finding per secret-like key
// ---------------------------------------------------------------------------

/// Whether the key at position `i` is flagged in `flags`.
pub open spec fn flagged_at(flags: Seq<bool>) -> spec_fn(int) -> bool {
    |i: int| flagged(flags, i)
}

/// Whether a key looks like a secret.
pub open spec fn secret_key() -> spec_fn(Seq<char>) -> bool {
    |k: Seq<char>| is_secret_key(k)
}

/// The TG-004 finding that server `s` receives the secret-like key `k`:
/// severity medium, category over_broad_perm, a message quoting the key,
/// evidence "env key: " and the key, confidence 50.
pub open spec fn tg004_for(s: ServerRefView) -> spec_fn(Seq<char>) -> FindingView {
    |k: Seq<char>|
        FindingView {
            rule_id: "TG-004"@,
            severity: "medium"@,
            category: "over_broad_perm"@,
            client: s.client,
            server: s.name,
            message: "Server receives secret-like env var "@ + debug_quoted(k)
                + ". If the tool description is poisoned, the model may exfiltrate its value."@,
            evidence: "env key: "@ + k,
            confidence_pct: 50,
        }
}

/// The TG-004 finding for the key at position `i` of `s`'s keys `keys`.
pub open spec fn tg004_at(s: ServerRefView, keys: Seq<Seq<char>>) -> spec_fn(int) -> FindingView {
    |i: int| tg004_for(s)(keys[i])
}

proof fn lemma_rule_ids_differ()
    ensures
        "TG-001"@ != "TG-004"@,
        "TG-002"@ != "TG-004"@,
        "TG-003"@ != "TG-004"@,
        "TG-005"@ != "TG-004"@,
{
    reveal_strlit("TG-001");
    reveal_strlit("TG-002");
    reveal_strlit("TG-003");
    reveal_strlit("TG-004");
    reveal_strlit("TG-005");
    assert("TG-001"@[5] != "TG-004"@[5]);
    assert("TG-002"@[5] != "TG-004"@[5]);
    assert("TG-003"@[5] != "TG-004"@[5]);
    assert("TG-005"@[5] != "TG-004"@[5]);
}

/// Only the TG-004 part of a server's findings is raised by TG-004.
proof fn lemma_tg004_part(a: Seq<FindingView>, b: Seq<FindingView>, c: Seq<FindingView>, d: Seq<FindingView>, e: Seq<FindingView>)
    requires
        forall|i: int| 0 <= i < a.len() ==> (#[trigger] a[i]).rule_id == "TG-003"@,
        forall|i: int| 0 <= i < b.len() ==> (#[trigger] b[i]).rule_id == "TG-004"@,
        forall|i: int| 0 <= i < c.len() ==> (#[trigger] c[i]).rule_id == "TG-001"@,
        forall|i: int| 0 <= i < d.len() ==> (#[trigger] d[i]).rule_id == "TG-005"@,
        forall|i: int| 0 <= i < e.len() ==> (#[trigger] e[i]).rule_id == "TG-002"@,
    ensures
        (a + b + c + d + e).filter(rule_is("TG-004"@)) == b,
{
    let p = rule_is("TG-004"@);
    lemma_rule_ids_differ();
    lemma_filter_none(a, p);
    lemma_filter_all(b, p);
    lemma_filter_none(c, p);
    lemma_filter_none(d, p);
    lemma_filter_none(e, p);
    Seq::filter_distributes_over_add(a, b, p);
    Seq::filter_distributes_over_add(a + b, c, p);
    Seq::filter_distributes_over_add(a + b + c, d, p);
    Seq::filter_distributes_over_add(a + b + c + d, e, p);
    assert(Seq::<FindingView>::empty() + b + Seq::<FindingView>::empty() + Seq::<FindingView>::empty()
        + Seq::<FindingView>::empty() =~= b);
}

/// The flagged findings of the first `n` keys are the TG-004 findings of the
/// flagged positions, in order.
proof fn lemma_flagged_prefix(s: ServerRefView, keys: Seq<Seq<char>>, flags: Seq<bool>, n: int)
    requires
        0 <= n <= keys.len(),
    ensures
        secret_findings_with(s, keys.take(n), flags) == indices(n as nat).filter(flagged_at(flags)).map_values(
            tg004_at(s, keys),
        ),
    decreases n,
{
    let f = secret_findings_with(s, keys.take(n), flags);
    if n == 0 {
        assert(keys.take(0) =~= Seq::<Seq<char>>::empty());
        lemma_filter_empty(flagged_at(flags));
        assert(indices(0) =~= Seq::<int>::empty());
        assert(Seq::<int>::empty().map_values(tg004_at(s, keys)) =~= Seq::<FindingView>::empty());
    } else {
        lemma_flagged_prefix(s, keys, flags, n - 1);
        let g = secret_findings_with(s, keys.take(n - 1), flags);
        assert(keys.take(n).drop_last() =~= keys.take(n - 1));
        assert(keys.take(n).last() == keys[n - 1]);
        lemma_indices_push((n - 1) as nat);
        indices((n - 1) as nat).lemma_filter_push(n - 1, flagged_at(flags));
        if flagged(flags, n - 1) {
            assert(f =~= g.push(secret_finding(s, keys[n - 1])));
            lemma_map_push(indices((n - 1) as nat).filter(flagged_at(flags)), n - 1, tg004_at(s, keys));
        } else {
            assert(f =~= g);
        }
    }
}

/// The secret findings of `keys` are the TG-004 findings of its secret-like keys, in order.
proof fn lemma_secret_keys(s: ServerRefView, keys: Seq<Seq<char>>)
    ensures
        secret_findings(s, keys) == keys.filter(secret_key()).map_values(tg004_for(s)),
    decreases keys.len(),
{
    let f = secret_findings(s, keys);
    if keys.len() == 0 {
        assert(keys =~= Seq::<Seq<char>>::empty());
        lemma_filter_empty(secret_key());
        assert(Seq::<Seq<char>>::empty().map_values(tg004_for(s)) =~= Seq::<FindingView>::empty());
    } else {
        let d = keys.drop_last();
        lemma_secret_keys(s, d);
        let g = secret_findings(s, d);
        assert(d.push(keys.last()) =~= keys);
        d.lemma_filter_push(keys.last(), secret_key());
        if is_secret_key(keys.last()) {
            assert(f =~= g.push(secret_finding(s, keys.last())));
            lemma_map_push(d.filter(secret_key()), keys.last(), tg004_for(s));
        } else {
            assert(f =~= g);
        }
    }
}

/// Law: given which of a server's environment keys are flagged as
/// secret-like, its TG-004 findings are exactly one per flagged key, in key
/// order, each the finding of [`tg004_for`] for that key (evidence "env key: "
/// and the key), whatever the other keys and rules give.
pub proof fn lemma_one_finding_per_flagged_key(s: ServerRefView, matched: Option<Seq<char>>, secret: Seq<bool>)
    ensures
        server_findings_with(s, matched, secret).filter(rule_is("TG-004"@)) == indices(s.env_keys.len()).filter(
            flagged_at(secret),
        ).map_values(tg004_at(s, s.env_keys)),
{
    lemma_flagged_prefix(s, s.env_keys, secret, s.env_keys.len() as int);
    assert(s.env_keys.take(s.env_keys.len() as int) =~= s.env_keys);
    let b = secret_findings_with(s, s.env_keys, secret);
    let is = indices(s.env_keys.len()).filter(flagged_at(secret));
    assert forall|i: int| 0 <= i < b.len() implies (#[trigger] b[i]).rule_id == "TG-004"@ by {
        assert(b[i] == tg004_at(s, s.env_keys)(is[i]));
    }
    lemma_tg004_part(
        command_findings_with(s, matched),
        secret_findings_with(s, s.env_keys, secret),
        approval_findings(s),
        remote_findings(s),
        disabled_findings(s),
    );
}

/// Law: a server's TG-004 findings are exactly one per environment key that
/// looks like a secret, in key order, each the finding of [`tg004_for`] for
/// that key.
pub proof fn lemma_one_finding_per_secret_key(s: ServerRefView)
    ensures
        server_findings(s).filter(rule_is("TG-004"@)) == s.env_keys.filter(secret_key()).map_values(tg004_for(s)),
{
    lemma_secret_keys(s, s.env_keys);
    let b = secret_findings(s, s.env_keys);
    let ks = s.env_keys.filter(secret_key());
    assert forall|i: int| 0 <= i < b.len() implies (#[trigger] b[i]).rule_id == "TG-004"@ by {
        assert(b[i] == tg004_for(s)(ks[i]));
    }
    lemma_tg004_part(
        command_findings(s),
        secret_findings(s, s.env_keys),
        approval_findings(s),
        remote_findings(s),
        disabled_findings(s),
    );
}

} // verus!
