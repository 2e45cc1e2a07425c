//! The content of a SARIF 2.1.0 log: one rule per distinct rule id, one result
//! per finding. Turning it into JSON text is left to the caller.

use vstd::prelude::*;

use crate::ir::{Finding, FindingView};
use crate::report::INFORMATION_URI;
use crate::text::{owned, push_char, text_eq};

verus! {

/// One reporting rule.
#[derive(Debug, Clone)]
pub struct SarifRule {
    pub id: String,
    pub name: String,
    pub short_description: String,
    pub tags: Vec<String>,
}

/// One result.
#[derive(Debug, Clone)]
pub struct SarifResult {
    pub rule_id: String,
    pub level: String,
    pub message: String,
    pub fully_qualified_name: String,
    pub fingerprint: String,
}

/// A SARIF log with a single run.
#[derive(Debug, Clone)]
pub struct SarifLog {
    pub schema: String,
    pub version: String,
    pub driver_name: String,
    pub information_uri: String,
    pub rules: Vec<SarifRule>,
    pub results: Vec<SarifResult>,
}

pub struct SarifRuleView {
    pub id: Seq<char>,
    pub name: Seq<char>,
    pub short_description: Seq<char>,
    pub tags: Seq<Seq<char>>,
}

pub struct SarifResultView {
    pub rule_id: Seq<char>,
    pub level: Seq<char>,
    pub message: Seq<char>,
    pub fully_qualified_name: Seq<char>,
    pub fingerprint: Seq<char>,
}

pub struct SarifLogView {
    pub schema: Seq<char>,
    pub version: Seq<char>,
    pub driver_name: Seq<char>,
    pub information_uri: Seq<char>,
    pub rules: Seq<SarifRuleView>,
    pub results: Seq<SarifResultView>,
}

impl DeepView for SarifRule {
    type V = SarifRuleView;

    open spec fn deep_view(&self) -> SarifRuleView {
        SarifRuleView {
            id: self.id@,
            name: self.name@,
            short_description: self.short_description@,
            tags: self.tags.deep_view(),
        }
    }
}

impl DeepView for SarifResult {
    type V = SarifResultView;

    open spec fn deep_view(&self) -> SarifResultView {
        SarifResultView {
            rule_id: self.rule_id@,
            level: self.level@,
            message: self.message@,
            fully_qualified_name: self.fully_qualified_name@,
            fingerprint: self.fingerprint@,
        }
    }
}

impl DeepView for SarifLog {
    type V = SarifLogView;

    open spec fn deep_view(&self) -> SarifLogView {
        SarifLogView {
            schema: self.schema@,
            version: self.version@,
            driver_name: self.driver_name@,
            information_uri: self.information_uri@,
            rules: self.rules.deep_view(),
            results: self.results.deep_view(),
        }
    }
}

/// The SARIF schema the log follows.
pub const SARIF_SCHEMA: &'static str =
    "https://docs.oasis-open.org/sarif/sarif/v2.1.0/cs01/schemas/sarif-schema-2.1.0.json";

/// (name, short description) of a rule id; unknown ids describe themselves.
pub open spec fn rule_meta_spec(id: Seq<char>) -> (Seq<char>, Seq<char>) {
    if id == "TG-001"@ {
        ("auto-approve"@, "Tools are auto-approved; the agent may call them without confirmation."@)
    } else if id == "TG-002"@ {
        ("disabled-server"@, "Server is disabled in config."@)
    } else if id == "TG-003"@ {
        ("suspicious-command"@, "Launch command/args match a suspicious pattern."@)
    } else if id == "TG-004"@ {
        ("secret-env"@, "Server receives a secret-like environment variable."@)
    } else if id == "TG-005"@ {
        ("remote-transport"@, "Remote MCP transport; descriptions are network-controlled."@)
    } else if id == "TG-101"@ {
        ("hidden-stealth-directive"@, "Tool description hides a stealth directive from the user."@)
    } else if id == "TG-102"@ {
        ("cross-tool-exfil-call"@, "Tool description instructs the model to call another (sink) tool."@)
    } else if id == "TG-103"@ {
        ("sensitive-path-ref"@, "Tool description references a sensitive path or secret."@)
    } else {
        (id, id)
    }
}

/// The SARIF level of a severity.
pub open spec fn level_spec(severity: Seq<char>) -> Seq<char> {
    if severity == "high"@ {
        "error"@
    } else if severity == "medium"@ {
        "warning"@
    } else {
        "note"@
    }
}

/// One FNV-1a step.
pub open spec fn fnv_step(h: u64, b: u8) -> u64 {
    vstd::wrapping::u64_specs::wrapping_mul(h ^ (b as u64), 0x100000001b3u64)
}

/// 64-bit FNV-1a of `bytes`.
pub open spec fn fnv1a64_spec(bytes: Seq<u8>) -> u64
    decreases bytes.len(),
{
    if bytes.len() == 0 {
        0xcbf29ce484222325u64
    } else {
        fnv_step(fnv1a64_spec(bytes.drop_last()), bytes.last())
    }
}

/// The last `width` lower-case hex digits of `n`, zero-padded.
pub open spec fn hex_fixed(n: nat, width: nat) -> Seq<char>
    decreases width,
{
    if width == 0 {
        Seq::empty()
    } else {
        hex_fixed(n / 16, (width - 1) as nat).push(crate::text::hex_digit(n % 16))
    }
}

/// The fingerprint of a finding: 16 hex digits of FNV-1a over its texts joined by NUL.
pub open spec fn sarif_fingerprint_spec(f: FindingView) -> Seq<char> {
    let nul = seq!['\0'];
    hex_fixed(
        fnv1a64_spec(
            vstd::utf8::encode_utf8(
                f.rule_id + nul + f.client + nul + f.server + nul + f.message + nul + f.evidence,
            ),
        ) as nat,
        16,
    )
}

/// The distinct rule ids of `fs`, in order of first occurrence.
pub open spec fn distinct_rule_ids(fs: Seq<FindingView>) -> Seq<Seq<char>>
    decreases fs.len(),
{
    if fs.len() == 0 {
        Seq::empty()
    } else {
        let d = distinct_rule_ids(fs.drop_last());
        if d.contains(fs.last().rule_id) {
            d
        } else {
            d.push(fs.last().rule_id)
        }
    }
}

pub open spec fn sarif_rule_spec(id: Seq<char>) -> SarifRuleView {
    SarifRuleView {
        id,
        name: rule_meta_spec(id).0,
        short_description: rule_meta_spec(id).1,
        tags: seq!["security"@, "mcp"@, "agent"@],
    }
}

pub open spec fn sarif_result_spec(f: FindingView) -> SarifResultView {
    SarifResultView {
        rule_id: f.rule_id,
        level: level_spec(f.severity),
        message: f.message,
        fully_qualified_name: f.client + "/"@ + f.server,
        fingerprint: sarif_fingerprint_spec(f),
    }
}

/// The SARIF log of some findings.
pub open spec fn build_spec(fs: Seq<FindingView>) -> SarifLogView {
    SarifLogView {
        schema: SARIF_SCHEMA@,
        version: "2.1.0"@,
        driver_name: "ToolGlass"@,
        information_uri: INFORMATION_URI@,
        rules: distinct_rule_ids(fs).map_values(|id: Seq<char>| sarif_rule_spec(id)),
        results: fs.map_values(|f: FindingView| sarif_result_spec(f)),
    }
}

/// (name, short description) of a rule id.
fn rule_meta(rule_id: &str) -> (r: (String, String))
    ensures
        r.0@ == rule_meta_spec(rule_id@).0,
        r.1@ == rule_meta_spec(rule_id@).1,
{
    if text_eq(rule_id, "TG-001") {
        (owned("auto-approve"), owned("Tools are auto-approved; the agent may call them without confirmation."))
    } else if text_eq(rule_id, "TG-002") {
        (owned("disabled-server"), owned("Server is disabled in config."))
    } else if text_eq(rule_id, "TG-003") {
        (owned("suspicious-command"), owned("Launch command/args match a suspicious pattern."))
    } else if text_eq(rule_id, "TG-004") {
        (owned("secret-env"), owned("Server receives a secret-like environment variable."))
    } else if text_eq(rule_id, "TG-005") {
        (owned("remote-transport"), owned("Remote MCP transport; descriptions are network-controlled."))
    } else if text_eq(rule_id, "TG-101") {
        (owned("hidden-stealth-directive"), owned("Tool description hides a stealth directive from the user."))
    } else if text_eq(rule_id, "TG-102") {
        (owned("cross-tool-exfil-call"), owned("Tool description instructs the model to call another (sink) tool."))
    } else if text_eq(rule_id, "TG-103") {
        (owned("sensitive-path-ref"), owned("Tool description references a sensitive path or secret."))
    } else {
        (owned(rule_id), owned(rule_id))
    }
}

/// The SARIF level of a severity.
fn level(severity: &str) -> (r: &'static str)
    ensures
        r@ == level_spec(severity@),
{
    if text_eq(severity, "high") {
        "error"
    } else if text_eq(severity, "medium") {
        "warning"
    } else {
        "note"
    }
}

/// 64-bit FNV-1a.
fn fnv1a64(bytes: &[u8]) -> (h: u64)
    ensures
        h == fnv1a64_spec(bytes@),
{
    let mut hash: u64 = 0xcbf29ce484222325u64;
    let n = bytes.len();
    for i in 0..n
        invariant
            n == bytes@.len(),
            hash == fnv1a64_spec(bytes@.take(i as int)),
    {
        assert(bytes@.take(i + 1).drop_last() =~= bytes@.take(i as int));
        hash = hash ^ (bytes[i] as u64);
        hash = hash.wrapping_mul(0x100000001b3u64);
    }
    assert(bytes@.take(n as int) =~= bytes@);
    hash
}

/// The last `width` lower-case hex digits of `n`, zero-padded.
fn hex_fixed_text(n: u64, width: usize) -> (r: String)
    ensures
        r@ == hex_fixed(n as nat, width as nat),
    decreases width,
{
    if width == 0 {
        String::new()
    } else {
        let mut r = hex_fixed_text(n / 16, width - 1);
        push_char(&mut r, crate::text::hex_digit_char((n % 16) as u8));
        r
    }
}

/// The fingerprint of a finding.
fn fingerprint(finding: &Finding) -> (r: String)
    ensures
        r@ == sarif_fingerprint_spec(finding@),
{
    let mut text = owned(finding.rule_id.as_str());
    push_char(&mut text, '\0');
    text.append(finding.client.as_str());
    push_char(&mut text, '\0');
    text.append(finding.server.as_str());
    push_char(&mut text, '\0');
    text.append(finding.message.as_str());
    push_char(&mut text, '\0');
    text.append(finding.evidence.as_str());
    let ghost nul = seq!['\0'];
    assert(text@ =~= finding@.rule_id + nul + finding@.client + nul + finding@.server + nul
        + finding@.message + nul + finding@.evidence);
    hex_fixed_text(fnv1a64(text.as_str().as_bytes()), 16)
}

/// Whether `ids` holds `id`.
fn contains_text(ids: &Vec<String>, id: &str) -> (r: bool)
    ensures
        r == ids.deep_view().contains(id@),
{
    let n = ids.len();
    for k in 0..n
        invariant
            n == ids@.len(),
            forall|j: int| 0 <= j < k ==> ids.deep_view()[j] != id@,
    {
        if text_eq(ids[k].as_str(), id) {
            assert(ids.deep_view()[k as int] == id@);
            return true;
        }
    }
    false
}

fn sarif_rule(id: &str) -> (r: SarifRule)
    ensures
        r.deep_view() == sarif_rule_spec(id@),
{
    let (name, short) = rule_meta(id);
    let mut tags: Vec<String> = Vec::new();
    tags.push(owned("security"));
    tags.push(owned("mcp"));
    tags.push(owned("agent"));
    let r = SarifRule { id: owned(id), name, short_description: short, tags };
    assert(r.deep_view().tags =~= seq!["security"@, "mcp"@, "agent"@]);
    r
}

fn sarif_result(f: &Finding) -> (r: SarifResult)
    ensures
        r.deep_view() == sarif_result_spec(f@),
{
    let mut fqn = owned(f.client.as_str());
    fqn.append("/");
    fqn.append(f.server.as_str());
    SarifResult {
        rule_id: owned(f.rule_id.as_str()),
        level: owned(level(f.severity.as_str())),
        message: owned(f.message.as_str()),
        fully_qualified_name: fqn,
        fingerprint: fingerprint(f),
    }
}

/// The SARIF log of some findings: rules deduplicated in order of first use,
/// one result per finding in order.
pub fn build(findings: &[Finding]) -> (log: SarifLog)
    ensures
        log.deep_view() == build_spec(findings.deep_view()),
{
    let ghost fv = findings.deep_view();
    let mut rule_ids: Vec<String> = Vec::new();
    let n = findings.len();
    for i in 0..n
        invariant
            n == fv.len(),
            fv == findings.deep_view(),
            rule_ids.deep_view() == distinct_rule_ids(fv.take(i as int)),
    {
        assert(fv.take(i + 1).drop_last() =~= fv.take(i as int));
        let id = findings[i].rule_id.as_str();
        assert(fv[i as int].rule_id == id@);
        if !contains_text(&rule_ids, id) {
            let ghost prev = rule_ids.deep_view();
            rule_ids.push(owned(id));
            assert(rule_ids.deep_view() =~= prev.push(id@));
        }
    }
    assert(fv.take(n as int) =~= fv);

    let ghost ids = rule_ids.deep_view();
    let mut rules: Vec<SarifRule> = Vec::new();
    let m = rule_ids.len();
    for j in 0..m
        invariant
            m == ids.len(),
            ids == rule_ids.deep_view(),
            rules.deep_view() =~= ids.take(j as int).map_values(|id: Seq<char>| sarif_rule_spec(id)),
    {
        let ghost prev = rules.deep_view();
        let rule = sarif_rule(rule_ids[j].as_str());
        rules.push(rule);
        assert(rules.deep_view() =~= prev.push(sarif_rule_spec(ids[j as int])));
        assert(ids.take(j + 1).map_values(|id: Seq<char>| sarif_rule_spec(id)) =~= ids.take(
            j as int,
        ).map_values(|id: Seq<char>| sarif_rule_spec(id)).push(sarif_rule_spec(ids[j as int])));
    }
    assert(ids.take(m as int) =~= ids);

    let mut results: Vec<SarifResult> = Vec::new();
    for i in 0..n
        invariant
            n == fv.len(),
            fv == findings.deep_view(),
            results.deep_view() =~= fv.take(i as int).map_values(|f: FindingView| sarif_result_spec(f)),
    {
        let ghost prev = results.deep_view();
        let r = sarif_result(&findings[i]);
        results.push(r);
        assert(results.deep_view() =~= prev.push(sarif_result_spec(fv[i as int])));
        assert(fv.take(i + 1).map_values(|f: FindingView| sarif_result_spec(f)) =~= fv.take(
            i as int,
        ).map_values(|f: FindingView| sarif_result_spec(f)).push(sarif_result_spec(fv[i as int])));
    }
    assert(fv.take(n as int) =~= fv);

    SarifLog {
        schema: owned(SARIF_SCHEMA),
        version: owned("2.1.0"),
        driver_name: owned("ToolGlass"),
        information_uri: owned(INFORMATION_URI),
        rules,
        results,
    }
}

/// Law: the SARIF rules are distinct.
pub proof fn lemma_rule_ids_distinct(fs: Seq<FindingView>)
    ensures
        distinct_rule_ids(fs).no_duplicates(),
    decreases fs.len(),
{
    if fs.len() > 0 {
        lemma_rule_ids_distinct(fs.drop_last());
    }
}

/// Law: every finding's rule has an entry among the SARIF rules.
pub proof fn lemma_rule_ids_cover(fs: Seq<FindingView>, i: int)
    requires
        0 <= i < fs.len(),
    ensures
        distinct_rule_ids(fs).contains(fs[i].rule_id),
    decreases fs.len(),
{
    let d = distinct_rule_ids(fs.drop_last());
    if i < fs.len() - 1 {
        lemma_rule_ids_cover(fs.drop_last(), i);
        assert(fs.drop_last()[i] == fs[i]);
        if !d.contains(fs.last().rule_id) {
            let k = choose|k: int| 0 <= k < d.len() && d[k] == fs[i].rule_id;
            assert(d.push(fs.last().rule_id)[k] == fs[i].rule_id);
        }
    } else {
        if !d.contains(fs.last().rule_id) {
            assert(d.push(fs.last().rule_id)[d.len() as int] == fs[i].rule_id);
        }
    }
}

} // verus!
