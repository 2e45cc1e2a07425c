//! Tool-poisoning rules (TG-101 .. TG-103) and the cross-tool flow graph over
//! the descriptions that live servers expose.

use vstd::prelude::*;
use vstd::string::StringSliceAdditionalSpecFns;
use vstd::utf8::*;

use crate::ir::{
    rule_is, ExposedTool, ExposedToolView, Finding, FindingView, FlowEdge, FlowEdgeView,
};
use crate::seqs::{lemma_filter_all, lemma_filter_empty, lemma_filter_none, lemma_map_push};
use crate::matching::{
    regex_captures, regex_captures_all, regex_find, regex_first, valid_span,
};
use crate::text::{
    byte_len, byte_range, byte_slice, cat, chars_of, debug_quoted, debug_text, from_chars, owned,
    text_eq, trim, trim_spec,
};

verus! {

broadcast use vstd::utf8::group_utf8_lib;

/// Directives that tell the model to hide something from the user.
pub const STEALTH_PATTERN: &'static str =
    r"(?i)(do not (mention|reveal|show|tell|quote|disclose)|never (mention|reveal|tell|quote|disclose)|for the assistant only|secret(ly)? instruction|ignore (the )?(previous|above)|disregard (the )?(previous|above)|do not let the user know)";

/// Sensitive paths and secret-like words.
pub const SENSITIVE_PATTERN: &'static str =
    r"(?i)(private_notes|\.ssh|id_rsa|\.env\b|secret|token|password|passwd|credentials|/etc/|\.aws|\.config/gcloud|\.npmrc|\.git-credentials)";

/// References to another tool inside a description.
pub const REFERENCE_PATTERN: &'static str =
    r"(?i)`([a-zA-Z0-9_.\-]+)`|call (?:the )?([a-zA-Z0-9_.\-]+)(?: tool)?|invoke (?:the )?([a-zA-Z0-9_.\-]+)|use (?:the )?([a-zA-Z0-9_.\-]+)(?: tool)?";

/// How many bytes of context an excerpt keeps on each side of a match.
pub const EXCERPT_PAD: usize = 60;

// ---------------------------------------------------------------------------
// Excerpts
// ---------------------------------------------------------------------------

/// The largest character boundary of `b` at or below `i`.
pub open spec fn floor_boundary(b: Seq<u8>, i: int) -> int
    decreases i,
{
    if i <= 0 || is_char_boundary(b, i) {
        i
    } else {
        floor_boundary(b, i - 1)
    }
}

/// The smallest character boundary of `b` at or above `i` (or `i` itself past the end).
pub open spec fn ceil_boundary(b: Seq<u8>, i: int) -> int
    decreases b.len() - i,
{
    if i >= b.len() || is_char_boundary(b, i) {
        i
    } else {
        ceil_boundary(b, i + 1)
    }
}

/// The excerpt of `t` around the byte span `start..end`: `pad` bytes of context
/// on each side, widened to whole characters, with "..." where text was cut.
pub open spec fn excerpt_spec(t: Seq<char>, start: int, end: int, pad: int) -> Seq<char> {
    let b = encode_utf8(t);
    let s = floor_boundary(b, if start > pad { start - pad } else { 0 });
    let e = ceil_boundary(b, if end + pad < b.len() { end + pad } else { b.len() as int });
    (if s > 0 {
        "..."@
    } else {
        Seq::empty()
    }) + byte_range(t, s, e) + (if e < b.len() {
        "..."@
    } else {
        Seq::empty()
    })
}

proof fn lemma_floor_boundary(b: Seq<u8>, i: int)
    requires
        valid_utf8(b),
        0 <= i <= b.len(),
    ensures
        0 <= floor_boundary(b, i) <= i,
        is_char_boundary(b, floor_boundary(b, i)),
    decreases i,
{
    if i > 0 && !is_char_boundary(b, i) {
        lemma_floor_boundary(b, i - 1);
    }
}

proof fn lemma_ceil_boundary(b: Seq<u8>, i: int)
    requires
        valid_utf8(b),
        0 <= i <= b.len(),
    ensures
        i <= ceil_boundary(b, i) <= b.len(),
        is_char_boundary(b, ceil_boundary(b, i)),
    decreases b.len() - i,
{
    if i < b.len() && !is_char_boundary(b, i) {
        lemma_ceil_boundary(b, i + 1);
    } else if i == b.len() {
        is_char_boundary_start_end_of_seq(b);
    }
}

/// The excerpt of `text` around the byte span `start..end`.
fn excerpt(text: &str, start: usize, end: usize, pad: usize) -> (r: String)
    requires
        start <= end <= byte_len(text@),
    ensures
        r@ == excerpt_spec(text@, start as int, end as int, pad as int),
{
    let ghost b = encode_utf8(text@);
    let len = text.as_bytes().len();
    let mut s = start.saturating_sub(pad);
    proof {
        is_char_boundary_start_end_of_seq(b);
    }
    while s > 0 && !text.is_char_boundary(s)
        invariant
            b == encode_utf8(text@),
            len == b.len(),
            s <= start,
            floor_boundary(b, s as int) == floor_boundary(
                b,
                if start > pad {
                    start - pad
                } else {
                    0
                },
            ),
        decreases s,
    {
        s = s - 1;
    }
    let padded = end.saturating_add(pad);
    let mut e = if padded < len {
        padded
    } else {
        len
    };
    while e < len && !text.is_char_boundary(e)
        invariant
            b == encode_utf8(text@),
            len == b.len(),
            end <= e <= len,
            ceil_boundary(b, e as int) == ceil_boundary(
                b,
                if end + pad < b.len() {
                    end + pad
                } else {
                    b.len() as int
                },
            ),
        decreases len - e,
    {
        e = e + 1;
    }
    proof {
        if e == len {
            is_char_boundary_start_end_of_seq(b);
        }
        if s == 0 {
            is_char_boundary_start_end_of_seq(b);
        }
    }
    let mut r = if s > 0 {
        owned("...")
    } else {
        String::new()
    };
    let middle = byte_slice(text, s, e);
    r.append(middle.as_str());
    if e < len {
        r.append("...");
    }
    r
}

// ---------------------------------------------------------------------------
// References between tools
// ---------------------------------------------------------------------------

/// The first capture group among 1..=4 that took part in the match, as text.
pub open spec fn first_group(desc: Seq<char>, c: Seq<Option<(usize, usize)>>, i: int) -> Option<
    Seq<char>,
>
    decreases 5 - i,
{
    if i > 4 {
        None
    } else if i < c.len() && c[i] is Some {
        Some(byte_range(desc, c[i].unwrap().0 as int, c[i].unwrap().1 as int))
    } else {
        first_group(desc, c, i + 1)
    }
}

/// The reference that one match makes: (token, span start, span end).
pub open spec fn reference_of(desc: Seq<char>, c: Seq<Option<(usize, usize)>>) -> Option<
    (Seq<char>, usize, usize),
> {
    if c.len() == 0 || c[0] is None {
        None
    } else {
        match first_group(desc, c, 1) {
            Some(tok) => Some((tok, c[0].unwrap().0, c[0].unwrap().1)),
            None => None,
        }
    }
}

/// The references of every match among `cs`, in order.
pub open spec fn references_from(desc: Seq<char>, cs: Seq<Seq<Option<(usize, usize)>>>) -> Seq<
    (Seq<char>, usize, usize),
>
    decreases cs.len(),
{
    if cs.len() == 0 {
        Seq::empty()
    } else {
        references_from(desc, cs.drop_last()) + match reference_of(desc, cs.last()) {
            Some(r) => seq![r],
            None => Seq::empty(),
        }
    }
}

/// References to other tools inside a description: (token, span start, span end).
pub open spec fn references_spec(desc: Seq<char>) -> Seq<(Seq<char>, usize, usize)> {
    references_from(desc, regex_captures(REFERENCE_PATTERN@, desc))
}

/// What follows the last '.' of a token (the whole token when it has none).
pub open spec fn last_seg_spec(t: Seq<char>) -> Seq<char>
    decreases t.len(),
{
    if t.len() == 0 {
        Seq::empty()
    } else if t.last() == '.' {
        Seq::empty()
    } else {
        last_seg_spec(t.drop_last()).push(t.last())
    }
}

/// The first capture group among `i..=4` that took part in the match.
fn first_group_exec(desc: &str, c: &Vec<Option<(usize, usize)>>, i: usize) -> (r: Option<String>)
    requires
        1 <= i <= 5,
        forall|j: int|
            0 <= j < c@.len() ==> (#[trigger] c@[j] matches Some(span) ==> valid_span(desc@, span)),
    ensures
        r.deep_view() == first_group(desc@, c@, i as int),
    decreases 5 - i,
{
    if i > 4 {
        None
    } else if i < c.len() && c[i].is_some() {
        let span = c[i].unwrap();
        assert(valid_span(desc@, span));
        Some(byte_slice(desc, span.0, span.1))
    } else {
        first_group_exec(desc, c, i + 1)
    }
}

/// Whether every span among the capture groups `caps` delimits characters of `desc`.
pub open spec fn captures_valid(desc: Seq<char>, caps: Seq<Seq<Option<(usize, usize)>>>) -> bool {
    forall|a: int, b: int|
        0 <= a < caps.len() && 0 <= b < caps[a].len() ==> (#[trigger] caps[a][b] matches Some(span)
            ==> valid_span(desc, span))
}

/// The references that the matches `caps` of the reference pattern make in
/// `desc`: (token, span start, span end) for each match with a token.
pub fn references_in(desc: &str, caps: &Vec<Vec<Option<(usize, usize)>>>) -> (r: Vec<(String, usize, usize)>)
    requires
        captures_valid(desc@, caps.deep_view()),
    ensures
        r.deep_view() == references_from(desc@, caps.deep_view()),
        forall|i: int|
            0 <= i < r.deep_view().len() ==> (#[trigger] r.deep_view()[i]).1 <= r.deep_view()[i].2
                <= byte_len(desc@),
{
    let ghost cs = caps.deep_view();
    let mut r: Vec<(String, usize, usize)> = Vec::new();
    let n = caps.len();
    for i in 0..n
        invariant
            n == cs.len(),
            cs == caps.deep_view(),
            forall|a: int, b: int|
                0 <= a < cs.len() && 0 <= b < cs[a].len() ==> (#[trigger] cs[a][b] matches Some(
                    span,
                ) ==> valid_span(desc@, span)),
            r.deep_view() == references_from(desc@, cs.take(i as int)),
            forall|k: int|
                0 <= k < r.deep_view().len() ==> (#[trigger] r.deep_view()[k]).1 <= r.deep_view()[k].2
                    <= byte_len(desc@),
    {
        assert(cs.take(i + 1).drop_last() =~= cs.take(i as int));
        let c = &caps[i];
        assert(c.deep_view() == cs[i as int]);
        assert(c@ =~= cs[i as int]);
        if c.len() > 0 && c[0].is_some() {
            let whole = c[0].unwrap();
            assert(valid_span(desc@, whole)) by {
                assert(cs[i as int][0] matches Some(span) ==> valid_span(desc@, span));
            }
            assert forall|j: int| 0 <= j < c@.len() implies (#[trigger] c@[j] matches Some(span)
                ==> valid_span(desc@, span)) by {
                assert(cs[i as int][j] == c@[j]);
            }
            let ghost before = r.deep_view();
            if let Some(tok) = first_group_exec(desc, c, 1) {
                r.push((tok, whole.0, whole.1));
                assert(r.deep_view() =~= before.push(reference_of(desc@, cs[i as int]).unwrap()));
                assert(r.deep_view()[r.deep_view().len() - 1].1 == whole.0);
            } else {
                assert(r.deep_view() =~= before);
            }
        } else {
            assert(r.deep_view() =~= references_from(desc@, cs.take(i + 1)));
        }
    }
    assert(cs.take(n as int) =~= cs);
    r
}

/// References to other tools inside a description.
fn refs_in(desc: &str) -> (r: Vec<(String, usize, usize)>)
    ensures
        r.deep_view() == references_spec(desc@),
        forall|i: int|
            0 <= i < r.deep_view().len() ==> (#[trigger] r.deep_view()[i]).1 <= r.deep_view()[i].2
                <= byte_len(desc@),
{
    let caps = regex_captures_all(REFERENCE_PATTERN, desc);
    references_in(desc, &caps)
}

/// What follows the last '.' of a token.
fn last_seg(tok: &str) -> (r: String)
    ensures
        r@ == last_seg_spec(tok@),
{
    let v = chars_of(tok);
    let n = v.len();
    let mut start: usize = n;
    assert(v@.take(n as int) =~= v@);
    assert(v@.subrange(n as int, n as int) =~= Seq::<char>::empty());
    while start > 0 && v[start - 1] != '.'
        invariant
            start <= n == v@.len(),
            v@ == tok@,
            last_seg_spec(tok@) == last_seg_spec(v@.take(start as int)) + v@.subrange(
                start as int,
                n as int,
            ),
        decreases start,
    {
        assert(v@.take(start as int).drop_last() =~= v@.take(start - 1));
        assert(v@.subrange(start - 1, n as int) =~= seq![v@[start - 1]] + v@.subrange(
            start as int,
            n as int,
        ));
        start = start - 1;
    }
    assert(last_seg_spec(v@.take(start as int)) =~= Seq::<char>::empty());
    let mut out: Vec<char> = Vec::new();
    let mut i = start;
    while i < n
        invariant
            start <= i <= n == v@.len(),
            out@ == v@.subrange(start as int, i as int),
        decreases n - i,
    {
        out.push(v[i]);
        i = i + 1;
    }
    assert(out@ =~= v@.subrange(start as int, n as int));
    from_chars(out.as_slice())
}

// ---------------------------------------------------------------------------
// Poisoning findings
// ---------------------------------------------------------------------------

/// Whether some tool among `tools` has the name `name`.
pub open spec fn has_tool_named(tools: Seq<ExposedToolView>, name: Seq<char>) -> bool {
    exists|j: int| 0 <= j < tools.len() && #[trigger] tools[j].name == name
}

/// A finding about tool `t`.
pub open spec fn tool_finding(
    t: ExposedToolView,
    rule_id: Seq<char>,
    severity: Seq<char>,
    category: Seq<char>,
    message: Seq<char>,
    evidence: Seq<char>,
    confidence_pct: u8,
) -> FindingView {
    FindingView {
        rule_id,
        severity,
        category,
        client: t.client,
        server: t.server,
        message,
        evidence,
        confidence_pct,
    }
}

/// TG-101: a stealth directive.
pub open spec fn stealth_findings(t: ExposedToolView, desc: Seq<char>) -> Seq<FindingView> {
    stealth_findings_with(t, desc, regex_first(STEALTH_PATTERN@, desc))
}

/// TG-101 given where the stealth pattern matched `desc`, if it did.
pub open spec fn stealth_findings_with(t: ExposedToolView, desc: Seq<char>, found: Option<(usize, usize)>) -> Seq<
    FindingView,
> {
    match found {
        Some(m) => seq![
            tool_finding(
                t,
                "TG-101"@,
                "high"@,
                "tool_poisoning"@,
                "Tool "@ + debug_quoted(t.name)
                    + " description contains a stealth directive hidden from the user."@,
                excerpt_spec(desc, m.0 as int, m.1 as int, EXCERPT_PAD as int),
                75,
            ),
        ],
        None => Seq::empty(),
    }
}

/// TG-102 for one reference, when it names another listed tool.
pub open spec fn reference_findings(
    tools: Seq<ExposedToolView>,
    t: ExposedToolView,
    desc: Seq<char>,
    r: (Seq<char>, usize, usize),
) -> Seq<FindingView> {
    let cand = last_seg_spec(r.0);
    if has_tool_named(tools, cand) && cand != t.name {
        seq![
            tool_finding(
                t,
                "TG-102"@,
                "high"@,
                "cross_server_exfil"@,
                "Tool "@ + debug_quoted(t.name) + " instructs the model to call another tool "@
                    + debug_quoted(r.0) + "."@,
                excerpt_spec(desc, r.1 as int, r.2 as int, EXCERPT_PAD as int),
                70,
            ),
        ]
    } else {
        Seq::empty()
    }
}

/// TG-102 for every reference among `refs`, in order.
pub open spec fn cross_tool_findings(
    tools: Seq<ExposedToolView>,
    t: ExposedToolView,
    desc: Seq<char>,
    refs: Seq<(Seq<char>, usize, usize)>,
) -> Seq<FindingView>
    decreases refs.len(),
{
    if refs.len() == 0 {
        Seq::empty()
    } else {
        cross_tool_findings(tools, t, desc, refs.drop_last()) + reference_findings(
            tools,
            t,
            desc,
            refs.last(),
        )
    }
}

/// TG-103: a sensitive path or secret.
pub open spec fn sensitive_findings(t: ExposedToolView, desc: Seq<char>) -> Seq<FindingView> {
    sensitive_findings_with(t, desc, regex_first(SENSITIVE_PATTERN@, desc))
}

/// TG-103 given where the sensitive pattern matched `desc`, if it did.
pub open spec fn sensitive_findings_with(t: ExposedToolView, desc: Seq<char>, found: Option<(usize, usize)>) -> Seq<
    FindingView,
> {
    match found {
        Some(m) => seq![
            tool_finding(
                t,
                "TG-103"@,
                "medium"@,
                "tool_poisoning"@,
                "Tool "@ + debug_quoted(t.name) + " description references a sensitive path/secret."@,
                excerpt_spec(desc, m.0 as int, m.1 as int, EXCERPT_PAD as int),
                60,
            ),
        ],
        None => Seq::empty(),
    }
}

/// All poisoning findings for one tool (none without a non-blank description).
pub open spec fn tool_findings(tools: Seq<ExposedToolView>, t: ExposedToolView) -> Seq<FindingView> {
    match t.description {
        Some(desc) => tool_findings_with(
            tools,
            t,
            regex_first(STEALTH_PATTERN@, desc),
            regex_captures(REFERENCE_PATTERN@, desc),
            regex_first(SENSITIVE_PATTERN@, desc),
        ),
        None => Seq::empty(),
    }
}

/// All poisoning findings for one tool, given where the stealth pattern
/// matched its description, the matches of the reference pattern, and where
/// the sensitive pattern matched (none without a non-blank description).
pub open spec fn tool_findings_with(
    tools: Seq<ExposedToolView>,
    t: ExposedToolView,
    stealth: Option<(usize, usize)>,
    caps: Seq<Seq<Option<(usize, usize)>>>,
    sensitive: Option<(usize, usize)>,
) -> Seq<FindingView> {
    match t.description {
        Some(desc) => if trim_spec(desc).len() == 0 {
            Seq::empty()
        } else {
            stealth_findings_with(t, desc, stealth) + cross_tool_findings(
                tools,
                t,
                desc,
                references_from(desc, caps),
            ) + sensitive_findings_with(t, desc, sensitive)
        },
        None => Seq::empty(),
    }
}

/// Whether the pattern results given for tool `t` fall inside its description.
pub open spec fn results_fit(
    t: ExposedToolView,
    stealth: Option<(usize, usize)>,
    caps: Seq<Seq<Option<(usize, usize)>>>,
    sensitive: Option<(usize, usize)>,
) -> bool {
    match t.description {
        Some(desc) => {
            &&& stealth matches Some(sp) ==> valid_span(desc, sp)
            &&& sensitive matches Some(sp) ==> valid_span(desc, sp)
            &&& captures_valid(desc, caps)
        },
        None => true,
    }
}

/// Poisoning findings for the tools `ts` (each judged against all of `tools`).
pub open spec fn evaluate_tools_from(tools: Seq<ExposedToolView>, ts: Seq<ExposedToolView>) -> Seq<
    FindingView,
>
    decreases ts.len(),
{
    if ts.len() == 0 {
        Seq::empty()
    } else {
        evaluate_tools_from(tools, ts.drop_last()) + tool_findings(tools, ts.last())
    }
}

/// Poisoning findings for every tool, in order.
pub open spec fn evaluate_tools_spec(tools: Seq<ExposedToolView>) -> Seq<FindingView> {
    evaluate_tools_from(tools, tools)
}

// Linear membership test in place of a `HashSet` of names (see the note
// above `find_last_named`).
/// Whether some tool is named `name`.
fn tool_named_exists(tools: &[ExposedTool], name: &str) -> (r: bool)
    ensures
        r == has_tool_named(tools.deep_view(), name@),
{
    let n = tools.len();
    for i in 0..n
        invariant
            n == tools@.len(),
            forall|j: int| 0 <= j < i ==> tools.deep_view()[j].name != name@,
    {
        if text_eq(tools[i].name.as_str(), name) {
            assert(tools.deep_view()[i as int].name == name@);
            return true;
        }
    }
    false
}

/// A finding about tool `t`.
fn make_tool_finding(
    t: &ExposedTool,
    rule_id: &str,
    severity: &str,
    category: &str,
    message: String,
    evidence: String,
    confidence_pct: u8,
) -> (f: Finding)
    ensures
        f@ == tool_finding(t@, rule_id@, severity@, category@, message@, evidence@, confidence_pct),
{
    Finding {
        rule_id: owned(rule_id),
        severity: owned(severity),
        category: owned(category),
        client: owned(t.client.as_str()),
        server: owned(t.server.as_str()),
        message,
        evidence,
        confidence_pct,
    }
}

/// "Tool <name> <rest>".
fn tool_message(name: &str, rest: &str) -> (r: String)
    ensures
        r@ == "Tool "@ + debug_quoted(name@) + rest@,
{
    let mut m = owned("Tool ");
    let q = debug_text(name);
    m.append(q.as_str());
    m.append(rest);
    m
}

/// The poisoning findings for tool `t` (judged against all of `tools`),
/// given where the stealth pattern matched its description, the matches of
/// the reference pattern, and where the sensitive pattern matched.
pub fn tool_findings_given(
    tools: &[ExposedTool],
    t: &ExposedTool,
    stealth: Option<(usize, usize)>,
    caps: &Vec<Vec<Option<(usize, usize)>>>,
    sensitive: Option<(usize, usize)>,
) -> (r: Vec<Finding>)
    requires
        results_fit(t@, stealth, caps.deep_view(), sensitive),
    ensures
        r.deep_view() == tool_findings_with(tools.deep_view(), t@, stealth, caps.deep_view(), sensitive),
{
    let mut out: Vec<Finding> = Vec::new();
    let ghost start = out.deep_view();
    let desc = match &t.description {
        Some(d) => d.as_str(),
        None => {
            assert(out.deep_view() =~= start + tool_findings_with(tools.deep_view(), t@, stealth, caps.deep_view(), sensitive));
            return out;
        },
    };
    let trimmed = trim(desc);
    if trimmed.as_str().is_empty() {
        assert(out.deep_view() =~= start + tool_findings_with(tools.deep_view(), t@, stealth, caps.deep_view(), sensitive));
        return out;
    }
    if let Some(m) = stealth {
        let message = tool_message(
            t.name.as_str(),
            " description contains a stealth directive hidden from the user.",
        );
        let evidence = excerpt(desc, m.0, m.1, EXCERPT_PAD);
        out.push(
            make_tool_finding(t, "TG-101", "high", "tool_poisoning", message, evidence, 75),
        );
    }
    let ghost after_stealth = out.deep_view();
    assert(after_stealth =~= start + stealth_findings_with(t@, desc@, stealth));

    let refs = references_in(desc, caps);
    let ghost rs = refs.deep_view();
    let n = refs.len();
    for i in 0..n
        invariant
            n == rs.len(),
            rs == refs.deep_view(),
            rs == references_from(desc@, caps.deep_view()),
            forall|k: int|
                0 <= k < rs.len() ==> (#[trigger] rs[k]).1 <= rs[k].2 <= byte_len(desc@),
            out.deep_view() =~= after_stealth + cross_tool_findings(
                tools.deep_view(),
                t@,
                desc@,
                rs.take(i as int),
            ),
    {
        assert(rs.take(i + 1).drop_last() =~= rs.take(i as int));
        let tok = refs[i].0.as_str();
        let s = refs[i].1;
        let e = refs[i].2;
        assert(rs[i as int] == (tok@, s, e));
        let ghost prev = out.deep_view();
        let cand = last_seg(tok);
        if tool_named_exists(tools, cand.as_str()) && !text_eq(cand.as_str(), t.name.as_str()) {
            let mut message = tool_message(
                t.name.as_str(),
                " instructs the model to call another tool ",
            );
            let q = debug_text(tok);
            message.append(q.as_str());
            message.append(".");
            let evidence = excerpt(desc, s, e, EXCERPT_PAD);
            let f = make_tool_finding(
                t,
                "TG-102",
                "high",
                "cross_server_exfil",
                message,
                evidence,
                70,
            );
            out.push(f);
            assert(out.deep_view() =~= prev + reference_findings(
                tools.deep_view(),
                t@,
                desc@,
                rs[i as int],
            ));
        } else {
            assert(out.deep_view() =~= prev + reference_findings(
                tools.deep_view(),
                t@,
                desc@,
                rs[i as int],
            ));
        }
    }
    assert(rs.take(n as int) =~= rs);
    let ghost after_refs = out.deep_view();

    if let Some(m) = sensitive {
        let message = tool_message(
            t.name.as_str(),
            " description references a sensitive path/secret.",
        );
        let evidence = excerpt(desc, m.0, m.1, EXCERPT_PAD);
        out.push(
            make_tool_finding(t, "TG-103", "medium", "tool_poisoning", message, evidence, 60),
        );
    }
    assert(out.deep_view() =~= after_refs + sensitive_findings_with(t@, desc@, sensitive));
    assert(out.deep_view() =~= start + tool_findings_with(tools.deep_view(), t@, stealth, caps.deep_view(), sensitive));
    out
}

/// Appends the poisoning findings for one tool.
fn push_tool_findings(tools: &[ExposedTool], t: &ExposedTool, out: &mut Vec<Finding>)
    ensures
        final(out).deep_view() == old(out).deep_view() + tool_findings(tools.deep_view(), t@),
{
    let desc = match &t.description {
        Some(d) => d.as_str(),
        None => {
            assert(out.deep_view() =~= old(out).deep_view() + tool_findings(tools.deep_view(), t@));
            return;
        },
    };
    let stealth = regex_find(STEALTH_PATTERN, desc);
    let caps = regex_captures_all(REFERENCE_PATTERN, desc);
    let sensitive = regex_find(SENSITIVE_PATTERN, desc);
    let mut found = tool_findings_given(tools, t, stealth, &caps, sensitive);
    let ghost before = out.deep_view();
    let ghost added = found.deep_view();
    out.append(&mut found);
    assert(out.deep_view() =~= before + added);
}

/// Evaluates the poisoning rules on every tool, in order.
pub fn evaluate_tools(tools: &[ExposedTool]) -> (out: Vec<Finding>)
    ensures
        out.deep_view() == evaluate_tools_spec(tools.deep_view()),
{
    let ghost all = tools.deep_view();
    let mut out: Vec<Finding> = Vec::new();
    let n = tools.len();
    for i in 0..n
        invariant
            n == tools@.len(),
            all == tools.deep_view(),
            out.deep_view() == evaluate_tools_from(all, all.take(i as int)),
    {
        assert(all.take(i + 1).drop_last() =~= all.take(i as int));
        push_tool_findings(tools, &tools[i], &mut out);
    }
    assert(all.take(n as int) =~= all);
    out
}

// ---------------------------------------------------------------------------
// Flow graph
// ---------------------------------------------------------------------------

/// The index of the last tool named `name`, if any (the tool a name resolves to).
pub open spec fn last_named(tools: Seq<ExposedToolView>, name: Seq<char>) -> Option<int>
    decreases tools.len(),
{
    if tools.len() == 0 {
        None
    } else if tools.last().name == name {
        Some(tools.len() - 1)
    } else {
        last_named(tools.drop_last(), name)
    }
}

/// "server.name" of a tool.
pub open spec fn qualified(t: ExposedToolView) -> Seq<char> {
    t.server + "."@ + t.name
}

/// The candidate edge for one reference of tool `t`, when it resolves to another tool.
pub open spec fn reference_edge(
    tools: Seq<ExposedToolView>,
    t: ExposedToolView,
    tok: Seq<char>,
) -> Seq<FlowEdgeView> {
    match last_named(tools, last_seg_spec(tok)) {
        Some(j) => if tools[j].name != t.name {
            seq![
                FlowEdgeView {
                    src: qualified(t),
                    dst: qualified(tools[j]),
                    reason: "description references "@ + tok,
                },
            ]
        } else {
            Seq::empty()
        },
        None => Seq::empty(),
    }
}

/// Candidate edges for the references `refs` of tool `t`, in order.
pub open spec fn reference_edges(
    tools: Seq<ExposedToolView>,
    t: ExposedToolView,
    refs: Seq<(Seq<char>, usize, usize)>,
) -> Seq<FlowEdgeView>
    decreases refs.len(),
{
    if refs.len() == 0 {
        Seq::empty()
    } else {
        reference_edges(tools, t, refs.drop_last()) + reference_edge(tools, t, refs.last().0)
    }
}

/// Candidate edges of one tool.
pub open spec fn tool_edges(tools: Seq<ExposedToolView>, t: ExposedToolView) -> Seq<FlowEdgeView> {
    match t.description {
        Some(desc) => reference_edges(tools, t, references_spec(desc)),
        None => Seq::empty(),
    }
}

/// Candidate edges of tool `t` given the references in its description.
pub open spec fn tool_edges_with(
    tools: Seq<ExposedToolView>,
    t: ExposedToolView,
    refs: Seq<(Seq<char>, usize, usize)>,
) -> Seq<FlowEdgeView> {
    if t.description is Some {
        reference_edges(tools, t, refs)
    } else {
        Seq::empty()
    }
}

/// The references given for position `i` (none when there are fewer).
pub open spec fn refs_at(rss: Seq<Seq<(Seq<char>, usize, usize)>>, i: int) -> Seq<(Seq<char>, usize, usize)> {
    if 0 <= i < rss.len() {
        rss[i]
    } else {
        Seq::empty()
    }
}

/// Candidate edges of the tools `ts`, in order, given the references of each
/// (resolved against all of `tools`).
pub open spec fn candidate_edges_with(
    tools: Seq<ExposedToolView>,
    ts: Seq<ExposedToolView>,
    rss: Seq<Seq<(Seq<char>, usize, usize)>>,
) -> Seq<FlowEdgeView>
    decreases ts.len(),
{
    if ts.len() == 0 {
        Seq::empty()
    } else {
        candidate_edges_with(tools, ts.drop_last(), rss) + tool_edges_with(
            tools,
            ts.last(),
            refs_at(rss, ts.len() - 1),
        )
    }
}

/// With the references that each description makes, the candidate edges are
/// those of [`candidate_edges`].
proof fn lemma_candidate_edges_with(
    tools: Seq<ExposedToolView>,
    ts: Seq<ExposedToolView>,
    rss: Seq<Seq<(Seq<char>, usize, usize)>>,
)
    requires
        rss.len() >= ts.len(),
        forall|k: int| 0 <= k < ts.len() ==> (ts[k].description matches Some(d) ==> #[trigger] rss[k] == references_spec(d)),
    ensures
        candidate_edges_with(tools, ts, rss) == candidate_edges(tools, ts),
    decreases ts.len(),
{
    if ts.len() > 0 {
        let d = ts.drop_last();
        assert forall|k: int| 0 <= k < d.len() implies (d[k].description matches Some(x) ==> #[trigger] rss[k] == references_spec(x)) by {
            assert(d[k] == ts[k]);
        }
        lemma_candidate_edges_with(tools, d, rss);
        let k = ts.len() - 1;
        assert(ts[k] == ts.last());
    }
}

/// Candidate edges of the tools `ts`, in order (resolved against all of `tools`).
pub open spec fn candidate_edges(tools: Seq<ExposedToolView>, ts: Seq<ExposedToolView>) -> Seq<
    FlowEdgeView,
>
    decreases ts.len(),
{
    if ts.len() == 0 {
        Seq::empty()
    } else {
        candidate_edges(tools, ts.drop_last()) + tool_edges(tools, ts.last())
    }
}

/// Whether `es` already has an edge from `src` to `dst`.
pub open spec fn has_edge(es: Seq<FlowEdgeView>, src: Seq<char>, dst: Seq<char>) -> bool {
    exists|k: int| 0 <= k < es.len() && #[trigger] es[k].src == src && es[k].dst == dst
}

/// The edges `c`, keeping only the first edge for each (src, dst) pair.
pub open spec fn dedupe_edges(c: Seq<FlowEdgeView>) -> Seq<FlowEdgeView>
    decreases c.len(),
{
    if c.len() == 0 {
        Seq::empty()
    } else {
        let d = dedupe_edges(c.drop_last());
        if has_edge(d, c.last().src, c.last().dst) {
            d
        } else {
            d.push(c.last())
        }
    }
}

/// The flow graph: one edge per (src, dst) pair that some description references.
pub open spec fn build_edges_spec(tools: Seq<ExposedToolView>) -> Seq<FlowEdgeView> {
    dedupe_edges(candidate_edges(tools, tools))
}

// The lookups below search the slices and the edge list directly. A name
// lookup by `HashMap<&str, _>` / `HashSet<(String, String)>` would need
// contracts on std's hash maps keyed by text, and vstd states those only for
// keys whose hashing it models (integers), so the linear searches are what
// the proofs rest on. The last tool of a name wins, as a map built by
// inserting every tool in order would keep it.

/// The index of the last tool named `name`.
fn find_last_named(tools: &[ExposedTool], name: &str) -> (r: Option<usize>)
    ensures
        r matches Some(j) ==> j < tools@.len() && last_named(tools.deep_view(), name@) == Some(
            j as int,
        ),
        r is None ==> last_named(tools.deep_view(), name@) is None,
{
    let ghost all = tools.deep_view();
    let mut i = tools.len();
    assert(all.take(i as int) =~= all);
    while i > 0
        invariant
            i <= tools@.len(),
            all == tools.deep_view(),
            last_named(all, name@) == last_named(all.take(i as int), name@),
        decreases i,
    {
        assert(all.take(i as int).drop_last() =~= all.take(i - 1));
        assert(all.take(i as int).last() == all[i - 1]);
        if text_eq(tools[i - 1].name.as_str(), name) {
            return Some(i - 1);
        }
        i = i - 1;
    }
    None
}

/// "server.name".
fn qualified_name(server: &str, name: &str) -> (r: String)
    ensures
        r@ == server@ + "."@ + name@,
{
    let mut r = owned(server);
    r.append(".");
    r.append(name);
    r
}

/// Whether `edges` already has an edge from `src` to `dst`.
fn edge_present(edges: &Vec<FlowEdge>, src: &str, dst: &str) -> (r: bool)
    ensures
        r == has_edge(edges.deep_view(), src@, dst@),
{
    let n = edges.len();
    for k in 0..n
        invariant
            n == edges@.len(),
            forall|j: int|
                0 <= j < k ==> !(edges.deep_view()[j].src == src@ && edges.deep_view()[j].dst
                    == dst@),
    {
        if text_eq(edges[k].src.as_str(), src) && text_eq(edges[k].dst.as_str(), dst) {
            assert(edges.deep_view()[k as int].src == src@);
            return true;
        }
    }
    false
}

/// The flow graph given the references found in each tool's description
/// (`refs[i]` for tool `i`): tool A points to tool B when A references B by
/// name; each (src, dst) pair appears once.
pub fn build_edges_given(tools: &[ExposedTool], refs: &Vec<Vec<(String, usize, usize)>>) -> (edges: Vec<
    FlowEdge,
>)
    ensures
        edges.deep_view() == dedupe_edges(candidate_edges_with(tools.deep_view(), tools.deep_view(), refs.deep_view())),
{
    let ghost rss = refs.deep_view();
    let ghost all = tools.deep_view();
    let ghost mut cands: Seq<FlowEdgeView> = Seq::empty();
    let mut edges: Vec<FlowEdge> = Vec::new();
    let n = tools.len();
    for i in 0..n
        invariant
            n == tools@.len(),
            all == tools.deep_view(),
            cands == candidate_edges_with(all, all.take(i as int), rss),
            rss == refs.deep_view(),
            edges.deep_view() == dedupe_edges(cands),
    {
        assert(all.take(i + 1).drop_last() =~= all.take(i as int));
        let t = &tools[i];
        assert(t@ == all[i as int]);
        let ghost before = cands;
        if t.description.is_some() && i < refs.len() {
            let refs = &refs[i];
            let ghost rs = refs.deep_view();
            assert(rs == refs_at(rss, i as int));
            let m = refs.len();
            for k in 0..m
                invariant
                    m == rs.len(),
                    rs == refs.deep_view(),
                    all == tools.deep_view(),
                    t@ == all[i as int],
                    cands == before + reference_edges(all, t@, rs.take(k as int)),
                    edges.deep_view() == dedupe_edges(cands),
            {
                assert(rs.take(k + 1).drop_last() =~= rs.take(k as int));
                let tok = refs[k].0.as_str();
                assert(rs[k as int].0 == tok@);
                let cand = last_seg(tok);
                match find_last_named(tools, cand.as_str()) {
                    Some(j) => {
                        let target = &tools[j];
                        assert(target@ == all[j as int]);
                        if !text_eq(target.name.as_str(), t.name.as_str()) {
                            let src = qualified_name(t.server.as_str(), t.name.as_str());
                            let dst = qualified_name(target.server.as_str(), target.name.as_str());
                            let reason = cat("description references ", tok);
                            let e = FlowEdge { src, dst, reason };
                            proof {
                                assert(reference_edge(all, t@, tok@) =~= seq![e@]);
                                cands = cands + seq![e@];
                                assert(cands.drop_last() =~= before + reference_edges(
                                    all,
                                    t@,
                                    rs.take(k as int),
                                ));
                                assert(cands.last() == e@);
                            }
                            if !edge_present(&edges, e.src.as_str(), e.dst.as_str()) {
                                let ghost old_edges = edges.deep_view();
                                edges.push(e);
                                assert(edges.deep_view() =~= old_edges.push(e@));
                            }
                        } else {
                            assert(reference_edge(all, t@, tok@) =~= Seq::<FlowEdgeView>::empty());
                            proof {
                                assert(cands + Seq::<FlowEdgeView>::empty() =~= cands);
                            }
                        }
                    },
                    None => {
                        assert(reference_edge(all, t@, tok@) =~= Seq::<FlowEdgeView>::empty());
                        proof {
                            assert(cands + Seq::<FlowEdgeView>::empty() =~= cands);
                        }
                    },
                }
            }
            assert(rs.take(m as int) =~= rs);
        } else {
            proof {
                assert(tool_edges_with(all, t@, refs_at(rss, i as int)) =~= Seq::<FlowEdgeView>::empty());
                assert(cands + Seq::<FlowEdgeView>::empty() =~= cands);
            }
        }
    }
    assert(all.take(n as int) =~= all);
    edges
}

/// Builds the flow graph: tool A points to tool B when A's description
/// references B by name; each (src, dst) pair appears once.
pub fn build_edges(tools: &[ExposedTool]) -> (edges: Vec<FlowEdge>)
    ensures
        edges.deep_view() == build_edges_spec(tools.deep_view()),
{
    let ghost all = tools.deep_view();
    let mut refs: Vec<Vec<(String, usize, usize)>> = Vec::new();
    let n = tools.len();
    for i in 0..n
        invariant
            n == tools@.len(),
            all == tools.deep_view(),
            refs@.len() == i,
            forall|k: int|
                0 <= k < i ==> (all[k].description matches Some(d) ==> #[trigger] refs.deep_view()[k]
                    == references_spec(d)),
    {
        assert(tools@[i as int]@ == all[i as int]);
        let found = match &tools[i].description {
            Some(desc) => refs_in(desc.as_str()),
            None => Vec::new(),
        };
        let ghost before = refs.deep_view();
        let ghost fv = found.deep_view();
        refs.push(found);
        assert(refs.deep_view() =~= before.push(fv));
    }
    proof {
        lemma_candidate_edges_with(all, all, refs.deep_view());
    }
    build_edges_given(tools, &refs)
}

/// Law: the flow graph never holds two edges between the same pair of tools.
pub proof fn lemma_edges_unique(c: Seq<FlowEdgeView>)
    ensures
        forall|a: int, b: int|
            0 <= a < b < dedupe_edges(c).len() ==> !(#[trigger] dedupe_edges(c)[a].src
                == #[trigger] dedupe_edges(c)[b].src && dedupe_edges(c)[a].dst
                == dedupe_edges(c)[b].dst),
    decreases c.len(),
{
    if c.len() > 0 {
        lemma_edges_unique(c.drop_last());
        let d = dedupe_edges(c.drop_last());
        if !has_edge(d, c.last().src, c.last().dst) {
            let e = d.push(c.last());
            assert forall|a: int, b: int| 0 <= a < b < e.len() implies !(#[trigger] e[a].src
                == #[trigger] e[b].src && e[a].dst == e[b].dst) by {
                if b == e.len() - 1 {
                    assert(e[a] == d[a]);
                    if e[a].src == e[b].src && e[a].dst == e[b].dst {
                        assert(has_edge(d, c.last().src, c.last().dst));
                    }
                } else {
                    assert(e[a] == d[a] && e[b] == d[b]);
                }
            }
        }
    }
}

/// Law: deduplication loses no pair: every candidate edge's (src, dst) pair is in the graph.
pub proof fn lemma_dedupe_keeps_pairs(c: Seq<FlowEdgeView>, i: int)
    requires
        0 <= i < c.len(),
    ensures
        has_edge(dedupe_edges(c), c[i].src, c[i].dst),
    decreases c.len(),
{
    let d = dedupe_edges(c.drop_last());
    if i < c.len() - 1 {
        lemma_dedupe_keeps_pairs(c.drop_last(), i);
        assert(c.drop_last()[i] == c[i]);
        let k = choose|k: int| 0 <= k < d.len() && #[trigger] d[k].src == c[i].src && d[k].dst == c[i].dst;
        if !has_edge(d, c.last().src, c.last().dst) {
            assert(d.push(c.last())[k] == d[k]);
        }
    } else {
        if !has_edge(d, c.last().src, c.last().dst) {
            assert(d.push(c.last())[d.len() as int] == c.last());
        }
    }
}

// ---------------------------------------------------------------------------
// One reference per match
// ---------------------------------------------------------------------------

/// Whether a match of the reference pattern names a token.
pub open spec fn makes_reference(desc: Seq<char>) -> spec_fn(Seq<Option<(usize, usize)>>) -> bool {
    |c: Seq<Option<(usize, usize)>>| reference_of(desc, c) is Some
}

/// The reference a match makes.
pub open spec fn reference_made(desc: Seq<char>) -> spec_fn(Seq<Option<(usize, usize)>>) -> (Seq<char>, usize, usize) {
    |c: Seq<Option<(usize, usize)>>| reference_of(desc, c).unwrap()
}

/// Law: the references of a description are one per match of the reference
/// pattern that names a token, in match order, none dropped and none added.
pub proof fn lemma_one_reference_per_match(desc: Seq<char>, cs: Seq<Seq<Option<(usize, usize)>>>)
    ensures
        references_from(desc, cs) == cs.filter(makes_reference(desc)).map_values(reference_made(desc)),
    decreases cs.len(),
{
    if cs.len() == 0 {
        lemma_filter_empty(makes_reference(desc));
        assert(cs =~= Seq::<Seq<Option<(usize, usize)>>>::empty());
        assert(Seq::<Seq<Option<(usize, usize)>>>::empty().map_values(reference_made(desc))
            =~= Seq::<(Seq<char>, usize, usize)>::empty());
    } else {
        let d = cs.drop_last();
        lemma_one_reference_per_match(desc, d);
        assert(d.push(cs.last()) =~= cs);
        d.lemma_filter_push(cs.last(), makes_reference(desc));
        let g = references_from(desc, d);
        if reference_of(desc, cs.last()) is Some {
            assert(references_from(desc, cs) =~= g.push(reference_made(desc)(cs.last())));
            lemma_map_push(d.filter(makes_reference(desc)), cs.last(), reference_made(desc));
        } else {
            assert(references_from(desc, cs) =~= g);
        }
    }
}

// ---------------------------------------------------------------------------
// One TG-102 finding per reference to another listed tool
// ---------------------------------------------------------------------------

/// Whether a reference names, by its last segment, a listed tool other than `t`.
pub open spec fn names_other_tool(tools: Seq<ExposedToolView>, t: ExposedToolView) -> spec_fn(
    (Seq<char>, usize, usize),
) -> bool {
    |r: (Seq<char>, usize, usize)| has_tool_named(tools, last_seg_spec(r.0)) && last_seg_spec(r.0) != t.name
}

/// The TG-102 finding for a reference of tool `t` in its description
/// `desc`: severity high, category cross_server_exfil, a message quoting the
/// tool's name and the referenced token, the excerpt around the reference as
/// evidence, confidence 70.
pub open spec fn tg102_for(t: ExposedToolView, desc: Seq<char>) -> spec_fn((Seq<char>, usize, usize)) -> FindingView {
    |r: (Seq<char>, usize, usize)|
        FindingView {
            rule_id: "TG-102"@,
            severity: "high"@,
            category: "cross_server_exfil"@,
            client: t.client,
            server: t.server,
            message: "Tool "@ + debug_quoted(t.name) + " instructs the model to call another tool "@
                + debug_quoted(r.0) + "."@,
            evidence: excerpt_spec(desc, r.1 as int, r.2 as int, EXCERPT_PAD as int),
            confidence_pct: 70,
        }
}

proof fn lemma_tool_rule_ids_differ()
    ensures
        "TG-101"@ != "TG-102"@,
        "TG-103"@ != "TG-102"@,
{
    reveal_strlit("TG-101");
    reveal_strlit("TG-102");
    reveal_strlit("TG-103");
    assert("TG-101"@[5] != "TG-102"@[5]);
    assert("TG-103"@[5] != "TG-102"@[5]);
}

/// The cross-tool findings for `refs` are the TG-102 findings of the
/// references that name another listed tool, in order.
proof fn lemma_cross_tool_refs(
    tools: Seq<ExposedToolView>,
    t: ExposedToolView,
    desc: Seq<char>,
    refs: Seq<(Seq<char>, usize, usize)>,
)
    ensures
        cross_tool_findings(tools, t, desc, refs) == refs.filter(names_other_tool(tools, t)).map_values(
            tg102_for(t, desc),
        ),
    decreases refs.len(),
{
    let f = cross_tool_findings(tools, t, desc, refs);
    if refs.len() == 0 {
        assert(refs =~= Seq::<(Seq<char>, usize, usize)>::empty());
        lemma_filter_empty(names_other_tool(tools, t));
        assert(Seq::<(Seq<char>, usize, usize)>::empty().map_values(tg102_for(t, desc))
            =~= Seq::<FindingView>::empty());
    } else {
        let d = refs.drop_last();
        lemma_cross_tool_refs(tools, t, desc, d);
        let g = cross_tool_findings(tools, t, desc, d);
        assert(d.push(refs.last()) =~= refs);
        d.lemma_filter_push(refs.last(), names_other_tool(tools, t));
        if names_other_tool(tools, t)(refs.last()) {
            assert(f =~= g.push(tg102_for(t, desc)(refs.last())));
            lemma_map_push(d.filter(names_other_tool(tools, t)), refs.last(), tg102_for(t, desc));
        } else {
            assert(f =~= g);
        }
    }
}

/// Law: the TG-102 findings of a tool with a non-blank description are
/// exactly one per reference in it that names, by its last segment, a listed
/// tool other than itself, in order, each the finding of [`tg102_for`] for
/// that reference; a tool with no description or a blank one has none.
pub proof fn lemma_one_finding_per_reference(
    tools: Seq<ExposedToolView>,
    t: ExposedToolView,
    stealth: Option<(usize, usize)>,
    caps: Seq<Seq<Option<(usize, usize)>>>,
    sensitive: Option<(usize, usize)>,
)
    ensures
        ({
            let tg102 = tool_findings_with(tools, t, stealth, caps, sensitive).filter(rule_is("TG-102"@));
            match t.description {
                Some(desc) => if trim_spec(desc).len() > 0 {
                    tg102 == references_from(desc, caps).filter(names_other_tool(tools, t)).map_values(
                        tg102_for(t, desc),
                    )
                } else {
                    tg102.len() == 0
                },
                None => tg102.len() == 0,
            }
        }),
{
    let p = rule_is("TG-102"@);
    match t.description {
        Some(desc) => {
            if trim_spec(desc).len() > 0 {
                let rs = references_from(desc, caps);
                let a = stealth_findings_with(t, desc, stealth);
                let b = cross_tool_findings(tools, t, desc, rs);
                let c = sensitive_findings_with(t, desc, sensitive);
                lemma_tool_rule_ids_differ();
                lemma_filter_none(a, p);
                lemma_filter_none(c, p);
                lemma_cross_tool_refs(tools, t, desc, rs);
                let ks = rs.filter(names_other_tool(tools, t));
                assert forall|i: int| 0 <= i < b.len() implies p(#[trigger] b[i]) by {
                    assert(b[i] == tg102_for(t, desc)(ks[i]));
                }
                lemma_filter_all(b, p);
                Seq::filter_distributes_over_add(a, b, p);
                Seq::filter_distributes_over_add(a + b, c, p);
                assert(Seq::<FindingView>::empty() + b + Seq::<FindingView>::empty() =~= b);
            } else {
                lemma_filter_empty(p);
            }
        },
        None => {
            lemma_filter_empty(p);
        },
    }
}

// ---------------------------------------------------------------------------
// Every resolved reference is an edge of the flow graph
// ---------------------------------------------------------------------------

/// Whether `b` is the last tool named `name`.
pub open spec fn is_last_named(tools: Seq<ExposedToolView>, name: Seq<char>, b: int) -> bool {
    &&& 0 <= b < tools.len()
    &&& tools[b].name == name
    &&& forall|j: int| b < j < tools.len() ==> #[trigger] tools[j].name != name
}

proof fn lemma_last_named_is(tools: Seq<ExposedToolView>, name: Seq<char>, b: int)
    requires
        is_last_named(tools, name, b),
    ensures
        last_named(tools, name) == Some(b),
    decreases tools.len(),
{
    if b < tools.len() - 1 {
        let d = tools.drop_last();
        assert(tools[tools.len() - 1].name != name);
        assert forall|j: int| b < j < d.len() implies #[trigger] d[j].name != name by {
            assert(d[j] == tools[j]);
        }
        lemma_last_named_is(d, name, b);
    }
}

proof fn lemma_has_edge_prefix(a: Seq<FlowEdgeView>, b: Seq<FlowEdgeView>, src: Seq<char>, dst: Seq<char>)
    requires
        has_edge(a, src, dst),
    ensures
        has_edge(a + b, src, dst),
{
    let k = choose|k: int| 0 <= k < a.len() && #[trigger] a[k].src == src && a[k].dst == dst;
    assert((a + b)[k] == a[k]);
}

proof fn lemma_has_edge_suffix(a: Seq<FlowEdgeView>, b: Seq<FlowEdgeView>, src: Seq<char>, dst: Seq<char>)
    requires
        has_edge(b, src, dst),
    ensures
        has_edge(a + b, src, dst),
{
    let k = choose|k: int| 0 <= k < b.len() && #[trigger] b[k].src == src && b[k].dst == dst;
    assert((a + b)[a.len() + k] == b[k]);
}

/// The candidate edges of tool `t`'s references hold the edge of reference
/// `k` when it resolves to the tool `b`, named otherwise than `t`.
proof fn lemma_reference_edges_has(
    tools: Seq<ExposedToolView>,
    t: ExposedToolView,
    refs: Seq<(Seq<char>, usize, usize)>,
    k: int,
    b: int,
)
    requires
        0 <= k < refs.len(),
        is_last_named(tools, last_seg_spec(refs[k].0), b),
        tools[b].name != t.name,
    ensures
        has_edge(reference_edges(tools, t, refs), t.server + "."@ + t.name, tools[b].server + "."@ + tools[b].name),
    decreases refs.len(),
{
    let src = t.server + "."@ + t.name;
    let dst = tools[b].server + "."@ + tools[b].name;
    if k < refs.len() - 1 {
        lemma_reference_edges_has(tools, t, refs.drop_last(), k, b);
        assert(refs.drop_last()[k] == refs[k]);
        lemma_has_edge_prefix(reference_edges(tools, t, refs.drop_last()), reference_edge(tools, t, refs.last().0), src, dst);
    } else {
        lemma_last_named_is(tools, last_seg_spec(refs[k].0), b);
        assert(refs.last() == refs[k]);
        let e = reference_edge(tools, t, refs.last().0);
        assert(e[0].src == src && e[0].dst == dst);
        assert(has_edge(e, src, dst));
        lemma_has_edge_suffix(reference_edges(tools, t, refs.drop_last()), e, src, dst);
    }
}

proof fn lemma_candidates_with_have(
    tools: Seq<ExposedToolView>,
    ts: Seq<ExposedToolView>,
    rss: Seq<Seq<(Seq<char>, usize, usize)>>,
    a: int,
    k: int,
    b: int,
)
    requires
        0 <= a < ts.len(),
        ts[a].description is Some,
        0 <= k < refs_at(rss, a).len(),
        is_last_named(tools, last_seg_spec(refs_at(rss, a)[k].0), b),
        tools[b].name != ts[a].name,
    ensures
        has_edge(
            candidate_edges_with(tools, ts, rss),
            ts[a].server + "."@ + ts[a].name,
            tools[b].server + "."@ + tools[b].name,
        ),
    decreases ts.len(),
{
    let src = ts[a].server + "."@ + ts[a].name;
    let dst = tools[b].server + "."@ + tools[b].name;
    let pre = candidate_edges_with(tools, ts.drop_last(), rss);
    let last = tool_edges_with(tools, ts.last(), refs_at(rss, ts.len() - 1));
    if a < ts.len() - 1 {
        assert(ts.drop_last()[a] == ts[a]);
        lemma_candidates_with_have(tools, ts.drop_last(), rss, a, k, b);
        lemma_has_edge_prefix(pre, last, src, dst);
    } else {
        assert(ts.last() == ts[a]);
        lemma_reference_edges_has(tools, ts[a], refs_at(rss, a), k, b);
        lemma_has_edge_suffix(pre, last, src, dst);
    }
}

proof fn lemma_candidates_have(tools: Seq<ExposedToolView>, ts: Seq<ExposedToolView>, a: int, k: int, b: int)
    requires
        0 <= a < ts.len(),
        ts[a].description matches Some(d) && 0 <= k < references_spec(d).len() && is_last_named(
            tools,
            last_seg_spec(references_spec(d)[k].0),
            b,
        ),
        tools[b].name != ts[a].name,
    ensures
        has_edge(candidate_edges(tools, ts), ts[a].server + "."@ + ts[a].name, tools[b].server + "."@ + tools[b].name),
    decreases ts.len(),
{
    let src = ts[a].server + "."@ + ts[a].name;
    let dst = tools[b].server + "."@ + tools[b].name;
    let pre = candidate_edges(tools, ts.drop_last());
    let last = tool_edges(tools, ts.last());
    if a < ts.len() - 1 {
        assert(ts.drop_last()[a] == ts[a]);
        lemma_candidates_have(tools, ts.drop_last(), a, k, b);
        lemma_has_edge_prefix(pre, last, src, dst);
    } else {
        assert(ts.last() == ts[a]);
        let d = ts[a].description.unwrap();
        lemma_reference_edges_has(tools, ts[a], references_spec(d), k, b);
        lemma_has_edge_suffix(pre, last, src, dst);
    }
}

/// Law: given the references found in each description (`rss[a]` for tool
/// `a`), the flow graph has an edge from every tool A with a description to
/// every tool B that one of A's references names by its last segment (B the
/// last tool of that name), unless B has A's name; the edge runs from
/// "A.server.A.name" to "B.server.B.name".
pub proof fn lemma_every_reference_linked_given(
    tools: Seq<ExposedToolView>,
    rss: Seq<Seq<(Seq<char>, usize, usize)>>,
    a: int,
    k: int,
    b: int,
)
    requires
        0 <= a < tools.len(),
        tools[a].description is Some,
        0 <= k < refs_at(rss, a).len(),
        is_last_named(tools, last_seg_spec(refs_at(rss, a)[k].0), b),
        tools[b].name != tools[a].name,
    ensures
        has_edge(
            dedupe_edges(candidate_edges_with(tools, tools, rss)),
            tools[a].server + "."@ + tools[a].name,
            tools[b].server + "."@ + tools[b].name,
        ),
{
    let c = candidate_edges_with(tools, tools, rss);
    let src = tools[a].server + "."@ + tools[a].name;
    let dst = tools[b].server + "."@ + tools[b].name;
    lemma_candidates_with_have(tools, tools, rss, a, k, b);
    let i = choose|i: int| 0 <= i < c.len() && #[trigger] c[i].src == src && c[i].dst == dst;
    lemma_dedupe_keeps_pairs(c, i);
}

/// Law: the flow graph has an edge from every tool A to every tool B that a
/// reference in A's description names by its last segment (B the last tool
/// of that name), unless B has A's name.
pub proof fn lemma_every_reference_linked(tools: Seq<ExposedToolView>, a: int, k: int, b: int)
    requires
        0 <= a < tools.len(),
        tools[a].description matches Some(d) && 0 <= k < references_spec(d).len() && is_last_named(
            tools,
            last_seg_spec(references_spec(d)[k].0),
            b,
        ),
        tools[b].name != tools[a].name,
    ensures
        has_edge(build_edges_spec(tools), tools[a].server + "."@ + tools[a].name, tools[b].server + "."@ + tools[b].name),
{
    let c = candidate_edges(tools, tools);
    let src = tools[a].server + "."@ + tools[a].name;
    let dst = tools[b].server + "."@ + tools[b].name;
    lemma_candidates_have(tools, tools, a, k, b);
    let i = choose|i: int| 0 <= i < c.len() && #[trigger] c[i].src == src && c[i].dst == dst;
    lemma_dedupe_keeps_pairs(c, i);
}

// ---------------------------------------------------------------------------
// Every edge of the flow graph comes from a resolved reference
// ---------------------------------------------------------------------------

/// Whether edge `e` is the edge of reference `k` of tool `a` (references
/// given by `rss`), resolved to tool `b`, the last tool of that name, which
/// is not named as `a` is.
pub open spec fn edge_of_reference(
    tools: Seq<ExposedToolView>,
    rss: Seq<Seq<(Seq<char>, usize, usize)>>,
    e: FlowEdgeView,
    a: int,
    k: int,
    b: int,
) -> bool {
    &&& 0 <= a < tools.len()
    &&& tools[a].description is Some
    &&& 0 <= k < refs_at(rss, a).len()
    &&& is_last_named(tools, last_seg_spec(refs_at(rss, a)[k].0), b)
    &&& tools[b].name != tools[a].name
    &&& e.src == tools[a].server + "."@ + tools[a].name
    &&& e.dst == tools[b].server + "."@ + tools[b].name
    &&& e.reason == "description references "@ + refs_at(rss, a)[k].0
}

proof fn lemma_last_named_found(tools: Seq<ExposedToolView>, name: Seq<char>)
    requires
        last_named(tools, name) is Some,
    ensures
        is_last_named(tools, name, last_named(tools, name).unwrap()),
    decreases tools.len(),
{
    if tools.last().name != name {
        let d = tools.drop_last();
        lemma_last_named_found(d, name);
        let b = last_named(d, name).unwrap();
        assert(tools[b] == d[b]);
        assert forall|j: int| b < j < tools.len() implies #[trigger] tools[j].name != name by {
            if j < d.len() {
                assert(tools[j] == d[j]);
            }
        }
    }
}

/// Every edge deduplication keeps is one of the candidates.
proof fn lemma_dedupe_from(c: Seq<FlowEdgeView>, i: int)
    requires
        0 <= i < dedupe_edges(c).len(),
    ensures
        exists|j: int| 0 <= j < c.len() && #[trigger] c[j] == dedupe_edges(c)[i],
    decreases c.len(),
{
    let d = dedupe_edges(c.drop_last());
    if i < d.len() {
        lemma_dedupe_from(c.drop_last(), i);
        let j = choose|j: int| 0 <= j < c.drop_last().len() && #[trigger] c.drop_last()[j] == d[i];
        assert(c[j] == c.drop_last()[j]);
        if !has_edge(d, c.last().src, c.last().dst) {
            assert(dedupe_edges(c)[i] == d[i]);
        }
    } else {
        assert(c[c.len() - 1] == dedupe_edges(c)[i]);
    }
}

/// Every candidate edge of tool `t`'s references is the edge of one of them.
proof fn lemma_reference_edges_from(
    tools: Seq<ExposedToolView>,
    t: ExposedToolView,
    refs: Seq<(Seq<char>, usize, usize)>,
    i: int,
)
    requires
        0 <= i < reference_edges(tools, t, refs).len(),
    ensures
        exists|k: int|
            #![trigger refs[k]]
            0 <= k < refs.len() && last_named(tools, last_seg_spec(refs[k].0)) is Some
                && tools[last_named(tools, last_seg_spec(refs[k].0)).unwrap()].name != t.name
                && reference_edges(tools, t, refs)[i] == reference_edge(tools, t, refs[k].0)[0],
    decreases refs.len(),
{
    let pre = reference_edges(tools, t, refs.drop_last());
    if i < pre.len() {
        lemma_reference_edges_from(tools, t, refs.drop_last(), i);
        let k = choose|k: int|
            #![trigger refs.drop_last()[k]]
            0 <= k < refs.drop_last().len() && last_named(tools, last_seg_spec(refs.drop_last()[k].0)) is Some
                && tools[last_named(tools, last_seg_spec(refs.drop_last()[k].0)).unwrap()].name != t.name
                && pre[i] == reference_edge(tools, t, refs.drop_last()[k].0)[0];
        assert(refs[k] == refs.drop_last()[k]);
    } else {
        let k = refs.len() - 1;
        assert(refs[k] == refs.last());
    }
}

proof fn lemma_candidates_with_from(
    tools: Seq<ExposedToolView>,
    ts: Seq<ExposedToolView>,
    rss: Seq<Seq<(Seq<char>, usize, usize)>>,
    i: int,
)
    requires
        ts.len() <= tools.len(),
        forall|j: int| 0 <= j < ts.len() ==> #[trigger] ts[j] == tools[j],
        0 <= i < candidate_edges_with(tools, ts, rss).len(),
    ensures
        exists|a: int, k: int, b: int| #[trigger] edge_of_reference(tools, rss, candidate_edges_with(tools, ts, rss)[i], a, k, b),
    decreases ts.len(),
{
    let pre = candidate_edges_with(tools, ts.drop_last(), rss);
    let all = candidate_edges_with(tools, ts, rss);
    if i < pre.len() {
        let d = ts.drop_last();
        assert forall|j: int| 0 <= j < d.len() implies #[trigger] d[j] == tools[j] by {
            assert(d[j] == ts[j]);
        }
        lemma_candidates_with_from(tools, d, rss, i);
        assert(all[i] == pre[i]);
    } else {
        let a = ts.len() - 1;
        let t = ts.last();
        assert(ts[a] == tools[a]);
        let refs = refs_at(rss, a);
        assert(t.description is Some);
        let part = reference_edges(tools, t, refs);
        assert(all[i] == part[i - pre.len()]);
        lemma_reference_edges_from(tools, t, refs, i - pre.len());
        let k = choose|k: int|
            #![trigger refs[k]]
            0 <= k < refs.len() && last_named(tools, last_seg_spec(refs[k].0)) is Some
                && tools[last_named(tools, last_seg_spec(refs[k].0)).unwrap()].name != t.name
                && part[i - pre.len()] == reference_edge(tools, t, refs[k].0)[0];
        let b = last_named(tools, last_seg_spec(refs[k].0)).unwrap();
        lemma_last_named_found(tools, last_seg_spec(refs[k].0));
        assert(edge_of_reference(tools, rss, all[i], a, k, b));
    }
}

/// Law: every edge of the flow graph, given the references found in each
/// description, is the edge of one reference of a tool A with a description
/// to the last tool B of the referenced name, B not named as A is: it runs
/// from "A.server.A.name" to "B.server.B.name" and gives the reference as
/// its reason.
pub proof fn lemma_every_edge_from_reference(
    tools: Seq<ExposedToolView>,
    rss: Seq<Seq<(Seq<char>, usize, usize)>>,
    i: int,
)
    requires
        0 <= i < dedupe_edges(candidate_edges_with(tools, tools, rss)).len(),
    ensures
        exists|a: int, k: int, b: int|
            #[trigger] edge_of_reference(tools, rss, dedupe_edges(candidate_edges_with(tools, tools, rss))[i], a, k, b),
{
    let c = candidate_edges_with(tools, tools, rss);
    lemma_dedupe_from(c, i);
    let j = choose|j: int| 0 <= j < c.len() && #[trigger] c[j] == dedupe_edges(c)[i];
    lemma_candidates_with_from(tools, tools, rss, j);
}

} // verus!
