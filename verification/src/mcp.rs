//! The MCP client's side of the handshake: the messages it sends, in order
//! (`initialize`, `notifications/initialized`, `tools/list`), the environment
//! a stdio server is started with, and the tools that a `tools/list` response
//! lists. Starting servers and moving the lines is left to the caller.

use vstd::prelude::*;

use crate::config::{
    get_field, get_text, is_empty_table, is_entry, is_number, is_text, lookup_field, take_field, text_of,
    ConfigValue,
};
use crate::text::owned;

verus! {

/// The MCP protocol revision that the handshake announces.
pub const PROTOCOL_VERSION: &'static str = "2025-06-18";

/// Whether `v` is the `initialize` request, entries in this order:
/// `{"jsonrpc": "2.0", "id": 1, "method": "initialize", "params":
/// {"protocolVersion": PROTOCOL_VERSION, "capabilities": {}, "clientInfo":
/// {"name": "tool-glass", "version": "0.1.0"}}}`.
pub open spec fn is_initialize_request(v: ConfigValue) -> bool {
    v matches ConfigValue::Table(es) && es@.len() == 4
        && is_entry(es@[0], "jsonrpc"@, |x: ConfigValue| is_text(x, "2.0"@))
        && is_entry(es@[1], "id"@, |x: ConfigValue| is_number(x, "1"@))
        && is_entry(es@[2], "method"@, |x: ConfigValue| is_text(x, "initialize"@))
        && is_entry(
        es@[3],
        "params"@,
        |p: ConfigValue|
            p matches ConfigValue::Table(ps) && ps@.len() == 3
                && is_entry(ps@[0], "protocolVersion"@, |x: ConfigValue| is_text(x, PROTOCOL_VERSION@))
                && is_entry(ps@[1], "capabilities"@, |x: ConfigValue| is_empty_table(x))
                && is_entry(
                ps@[2],
                "clientInfo"@,
                |c: ConfigValue|
                    c matches ConfigValue::Table(cs) && cs@.len() == 2
                        && is_entry(cs@[0], "name"@, |x: ConfigValue| is_text(x, "tool-glass"@))
                        && is_entry(cs@[1], "version"@, |x: ConfigValue| is_text(x, "0.1.0"@)),
            ),
    )
}

/// Whether `v` is the notification `{"jsonrpc": "2.0", "method":
/// "notifications/initialized"}`, entries in this order.
pub open spec fn is_initialized_notification(v: ConfigValue) -> bool {
    v matches ConfigValue::Table(es) && es@.len() == 2
        && is_entry(es@[0], "jsonrpc"@, |x: ConfigValue| is_text(x, "2.0"@))
        && is_entry(es@[1], "method"@, |x: ConfigValue| is_text(x, "notifications/initialized"@))
}

/// Whether `v` is the request `{"jsonrpc": "2.0", "id": 2, "method":
/// "tools/list", "params": {}}`, entries in this order.
pub open spec fn is_tools_list_request(v: ConfigValue) -> bool {
    v matches ConfigValue::Table(es) && es@.len() == 4
        && is_entry(es@[0], "jsonrpc"@, |x: ConfigValue| is_text(x, "2.0"@))
        && is_entry(es@[1], "id"@, |x: ConfigValue| is_number(x, "2"@))
        && is_entry(es@[2], "method"@, |x: ConfigValue| is_text(x, "tools/list"@))
        && is_entry(es@[3], "params"@, |x: ConfigValue| is_empty_table(x))
}

fn text_value(t: &str) -> (r: ConfigValue)
    ensures
        is_text(r, t@),
{
    ConfigValue::Str(owned(t))
}

/// The first message of the handshake: `initialize`, with id 1.
pub fn initialize_request() -> (r: ConfigValue)
    ensures
        is_initialize_request(r),
{
    let mut client: Vec<(Option<String>, ConfigValue)> = Vec::new();
    client.push((Some(owned("name")), text_value("tool-glass")));
    client.push((Some(owned("version")), text_value("0.1.0")));
    let mut params: Vec<(Option<String>, ConfigValue)> = Vec::new();
    params.push((Some(owned("protocolVersion")), text_value(PROTOCOL_VERSION)));
    params.push((Some(owned("capabilities")), ConfigValue::Table(Vec::new())));
    params.push((Some(owned("clientInfo")), ConfigValue::Table(client)));
    let mut msg: Vec<(Option<String>, ConfigValue)> = Vec::new();
    msg.push((Some(owned("jsonrpc")), text_value("2.0")));
    msg.push((Some(owned("id")), ConfigValue::Number(owned("1"))));
    msg.push((Some(owned("method")), text_value("initialize")));
    msg.push((Some(owned("params")), ConfigValue::Table(params)));
    ConfigValue::Table(msg)
}

/// The second message: the `notifications/initialized` notification, which
/// the server does not answer.
pub fn initialized_notification() -> (r: ConfigValue)
    ensures
        is_initialized_notification(r),
{
    let mut msg: Vec<(Option<String>, ConfigValue)> = Vec::new();
    msg.push((Some(owned("jsonrpc")), text_value("2.0")));
    msg.push((Some(owned("method")), text_value("notifications/initialized")));
    ConfigValue::Table(msg)
}

/// The third message: `tools/list`, with id 2, whose answer
/// [`parse_tools_list_response`] reads.
pub fn tools_list_request() -> (r: ConfigValue)
    ensures
        is_tools_list_request(r),
{
    let mut msg: Vec<(Option<String>, ConfigValue)> = Vec::new();
    msg.push((Some(owned("jsonrpc")), text_value("2.0")));
    msg.push((Some(owned("id")), ConfigValue::Number(owned("2"))));
    msg.push((Some(owned("method")), text_value("tools/list")));
    msg.push((Some(owned("params")), ConfigValue::Table(Vec::new())));
    ConfigValue::Table(msg)
}

/// The names of the variables that a started server inherits from this
/// process, in order; nothing else of the caller's environment is passed on.
pub open spec fn inherited_env_spec() -> Seq<Seq<char>> {
    seq!["PATH"@, "HOME"@, "USER"@]
}

/// The names of the variables that a started server inherits (see [`inherited_env_spec`]).
pub fn inherited_env_keys() -> (r: Vec<&'static str>)
    ensures
        r@.map_values(|k: &'static str| k@) == inherited_env_spec(),
{
    let mut r: Vec<&'static str> = Vec::new();
    r.push("PATH");
    r.push("HOME");
    r.push("USER");
    assert(r@.map_values(|k: &'static str| k@) =~= inherited_env_spec());
    r
}

/// The inherited variables that are set, paired with their names, in order.
pub open spec fn inherited_pairs(values: Seq<Option<Seq<char>>>) -> Seq<(Seq<char>, Seq<char>)>
    decreases values.len(),
{
    if values.len() == 0 {
        Seq::empty()
    } else {
        let i = values.len() - 1;
        let rest = inherited_pairs(values.drop_last());
        match values.last() {
            Some(v) => if i < inherited_env_spec().len() {
                rest.push((inherited_env_spec()[i], v))
            } else {
                rest
            },
            None => rest,
        }
    }
}

/// The environment a stdio server is started with: the inherited variables
/// that are set (`values[i]` is the value of the `i`-th inherited name), then
/// the server's own values.
pub fn restricted_env(values: &[Option<String>], extra: &[(String, String)]) -> (r: Vec<(String, String)>)
    ensures
        r.deep_view() == inherited_pairs(values.deep_view()) + extra.deep_view(),
{
    let keys = inherited_env_keys();
    let ghost vs = values.deep_view();
    let mut env: Vec<(String, String)> = Vec::new();
    let n = values.len();
    for i in 0..n
        invariant
            n == vs.len(),
            vs == values.deep_view(),
            keys@.map_values(|k: &'static str| k@) == inherited_env_spec(),
            env.deep_view() == inherited_pairs(vs.take(i as int)),
    {
        assert(vs.take(i + 1).drop_last() =~= vs.take(i as int));
        assert(vs.take(i + 1).last() == vs[i as int]);
        assert(vs[i as int] == values@[i as int].deep_view());
        match &values[i] {
            Some(v) => {
                if i < keys.len() {
                    assert(keys@.map_values(|k: &'static str| k@)[i as int] == keys@[i as int]@);
                    let ghost before = env.deep_view();
                    env.push((owned(keys[i]), owned(v.as_str())));
                    assert(env.deep_view() =~= before.push((inherited_env_spec()[i as int], v@)));
                }
            },
            None => {},
        }
    }
    assert(vs.take(n as int) =~= vs);
    let m = extra.len();
    let ghost base = env.deep_view();
    let ghost xs = extra.deep_view();
    for j in 0..m
        invariant
            m == xs.len(),
            xs == extra.deep_view(),
            env.deep_view() == base + xs.take(j as int),
    {
        let ghost before = env.deep_view();
        assert(xs[j as int] == (extra@[j as int].0@, extra@[j as int].1@));
        env.push((owned(extra[j].0.as_str()), owned(extra[j].1.as_str())));
        assert(env.deep_view() =~= before.push(xs[j as int]));
        assert(xs.take(j + 1) =~= xs.take(j as int).push(xs[j as int]));
    }
    assert(xs.take(m as int) =~= xs);
    env
}

/// Law: a started server sees only the inherited variables and its own values.
pub proof fn lemma_restricted_env_keys(values: Seq<Option<Seq<char>>>, extra: Seq<(Seq<char>, Seq<char>)>, i: int)
    requires
        0 <= i < (inherited_pairs(values) + extra).len(),
    ensures
        inherited_env_spec().contains((inherited_pairs(values) + extra)[i].0) || exists|j: int|
            0 <= j < extra.len() && #[trigger] extra[j].0 == (inherited_pairs(values) + extra)[i].0,
{
    let p = inherited_pairs(values);
    if i < p.len() {
        lemma_inherited_pairs_keys(values, i);
    } else {
        assert(extra[i - p.len()].0 == (p + extra)[i].0);
    }
}

proof fn lemma_inherited_pairs_keys(values: Seq<Option<Seq<char>>>, i: int)
    requires
        0 <= i < inherited_pairs(values).len(),
    ensures
        inherited_env_spec().contains(inherited_pairs(values)[i].0),
    decreases values.len(),
{
    let rest = inherited_pairs(values.drop_last());
    if i < rest.len() {
        lemma_inherited_pairs_keys(values.drop_last(), i);
    } else {
        let k = values.len() - 1;
        assert(inherited_env_spec()[k] == inherited_pairs(values)[i].0);
    }
}

/// One tool of a `tools/list` response.
#[derive(Debug)]
pub struct ToolDesc {
    pub name: String,
    pub description: Option<String>,
    pub input_schema: ConfigValue,
}

/// The items of `result.tools` when it is a list; nothing otherwise.
pub open spec fn listed_tools(resp: ConfigValue) -> Seq<ConfigValue> {
    match lookup_field(resp, "result"@) {
        Some(result) => match lookup_field(result, "tools"@) {
            Some(ConfigValue::List(items)) => items@,
            _ => Seq::empty(),
        },
        None => Seq::empty(),
    }
}

/// Whether `d` describes the listed item `t`: its text "name" (else "?"),
/// its text "description", and its "inputSchema" (else null).
pub open spec fn describes(d: ToolDesc, t: ConfigValue) -> bool {
    &&& d.name@ == match text_of(lookup_field(t, "name"@)) {
        Some(n) => n,
        None => "?"@,
    }
    &&& d.description.deep_view() == text_of(lookup_field(t, "description"@))
    &&& d.input_schema == match lookup_field(t, "inputSchema"@) {
        Some(s) => s,
        None => ConfigValue::Null,
    }
}

/// The tool of one listed item (see [`describes`]).
fn tool_desc(t: ConfigValue) -> (d: ToolDesc)
    ensures
        describes(d, t),
{
    let name = match get_text(get_field(&t, "name")) {
        Some(n) => n,
        None => owned("?"),
    };
    let description = get_text(get_field(&t, "description"));
    let input_schema = match take_field(t, "inputSchema") {
        Some(s) => s,
        None => ConfigValue::Null,
    };
    ToolDesc { name, description, input_schema }
}

/// The tools that a `tools/list` response lists, in order.
pub fn parse_tools_list_response(resp: ConfigValue) -> (r: Vec<ToolDesc>)
    ensures
        r@.len() == listed_tools(resp).len(),
        forall|i: int| 0 <= i < r@.len() ==> describes(#[trigger] r@[i], listed_tools(resp)[i]),
{
    let ghost listed = listed_tools(resp);
    let mut out: Vec<ToolDesc> = Vec::new();
    let items = match take_field(resp, "result") {
        Some(result) => match take_field(result, "tools") {
            Some(ConfigValue::List(items)) => items,
            _ => Vec::new(),
        },
        None => Vec::new(),
    };
    assert(items@ =~= listed);
    let mut items = items;
    let n = items.len();
    let mut k: usize = 0;
    while k < n
        invariant
            n == listed.len(),
            k <= n,
            items@ == listed.skip(k as int),
            out@.len() == k,
            forall|i: int| 0 <= i < k ==> describes(#[trigger] out@[i], listed[i]),
        decreases n - k,
    {
        let t = items.remove(0);
        assert(t == listed[k as int]);
        assert(items@ =~= listed.skip(k + 1));
        out.push(tool_desc(t));
        k = k + 1;
    }
    out
}

} // verus!
