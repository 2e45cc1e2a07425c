//! goose: `~/.config/goose/config.yaml`. Its schema varies by version, so it
//! is read best-effort: servers under `mcpServers` or `mcp_servers`, and the
//! entries of an `extensions` list.

use vstd::prelude::*;

use crate::adapters::{
    lemma_file_snapshot_shape, lemma_server_shape, lemma_servers_under_shape, server_shape, snapshot_shape,
    found, found_snapshot, malformed, malformed_snapshot, missing, missing_snapshot, server_entry,
    server_spec, servers_at, servers_under, ClientKind, ConfigRead, ConfigSource,
};
use crate::config::{get_field, get_text, lookup_field, text_of, ConfigValue};
use crate::ir::ClientSnapshot;
use crate::ir::{ClientSnapshotView, ServerRef, ServerRefView};
use crate::text::owned;

verus! {

/// The note that every parsed goose config carries.
pub const SCHEMA_NOTE: &'static str = "goose config schema varies by version; parsed best-effort (experimental)";

/// The name of an extension: its "name", else its "id", else "unnamed".
pub open spec fn extension_name(m: ConfigValue) -> Seq<char> {
    match text_of(lookup_field(m, "name"@)) {
        Some(n) => n,
        None => match text_of(lookup_field(m, "id"@)) {
            Some(i) => i,
            None => "unnamed"@,
        },
    }
}

/// The servers of an `extensions` list: one per item that is a table.
pub open spec fn extension_servers(items: Seq<ConfigValue>, path: Seq<char>, read_values: bool) -> Seq<ServerRefView>
    decreases items.len(),
{
    if items.len() == 0 {
        Seq::empty()
    } else {
        let rest = extension_servers(items.drop_last(), path, read_values);
        if items.last() is Table {
            rest.push(server_spec(ClientKind::Goose, extension_name(items.last()), items.last(), path, false, read_values))
        } else {
            rest
        }
    }
}

/// The servers of a parsed config.
pub open spec fn servers_of(doc: ConfigValue, path: Seq<char>, read_values: bool) -> Seq<ServerRefView> {
    servers_under(ClientKind::Goose, doc, "mcpServers"@, path, false, read_values) + servers_under(
        ClientKind::Goose,
        doc,
        "mcp_servers"@,
        path,
        false,
        read_values,
    ) + match lookup_field(doc, "extensions"@) {
        Some(ConfigValue::List(items)) => extension_servers(items@, path, read_values),
        _ => Seq::empty(),
    }
}

/// What the config file `src` tells of the client (environment values only
/// when `read_values` is set).
pub open spec fn snapshot_spec(src: ConfigSource, read_values: bool) -> ClientSnapshotView {
    match src.read {
        ConfigRead::Missing => missing_snapshot(ClientKind::Goose),
        ConfigRead::Malformed(e) => malformed_snapshot(ClientKind::Goose, src.path@, e@),
        ConfigRead::Parsed(doc) => found_snapshot(
            ClientKind::Goose,
            src.path@,
            servers_of(doc, src.path@, read_values),
            seq![SCHEMA_NOTE@],
        ),
    }
}

/// The name of an extension (see [`extension_name`]).
fn name_of_extension(m: &ConfigValue) -> (r: String)
    ensures
        r@ == extension_name(*m),
{
    match get_text(get_field(m, "name")) {
        Some(n) => n,
        None => match get_text(get_field(m, "id")) {
            Some(i) => i,
            None => owned("unnamed"),
        },
    }
}

/// The servers of an `extensions` list (see [`extension_servers`]).
fn extensions_in(items: &Vec<ConfigValue>, path: &str, read_values: bool) -> (r: Vec<ServerRef>)
    ensures
        r.deep_view() == extension_servers(items@, path@, read_values),
{
    let mut out: Vec<ServerRef> = Vec::new();
    let n = items.len();
    for i in 0..n
        invariant
            n == items@.len(),
            out.deep_view() == extension_servers(items@.take(i as int), path@, read_values),
    {
        assert(items@.take(i + 1).drop_last() =~= items@.take(i as int));
        assert(items@.take(i + 1).last() == items@[i as int]);
        match &items[i] {
            ConfigValue::Table(_) => {
                let name = name_of_extension(&items[i]);
                out.push(server_entry(ClientKind::Goose, name.as_str(), &items[i], path, false, read_values));
            },
            _ => {},
        }
        assert(out.deep_view() =~= extension_servers(items@.take(i + 1), path@, read_values));
    }
    assert(items@.take(n as int) =~= items@);
    out
}

/// The client's snapshot from its config file.
pub fn snapshot(src: &ConfigSource, read_values: bool) -> (r: ClientSnapshot)
    ensures
        r@ == snapshot_spec(*src, read_values),
{
    match &src.read {
        ConfigRead::Missing => missing(ClientKind::Goose),
        ConfigRead::Malformed(e) => malformed(ClientKind::Goose, src.path.as_str(), e.as_str()),
        ConfigRead::Parsed(doc) => {
            let path = src.path.as_str();
            let mut servers = servers_at(ClientKind::Goose, doc, "mcpServers", path, false, read_values);
            let mut more = servers_at(ClientKind::Goose, doc, "mcp_servers", path, false, read_values);
            let ghost a = servers.deep_view();
            let ghost b = more.deep_view();
            servers.append(&mut more);
            let mut ext = match get_field(doc, "extensions") {
                Some(ConfigValue::List(items)) => extensions_in(items, path, read_values),
                _ => Vec::new(),
            };
            let ghost c = ext.deep_view();
            servers.append(&mut ext);
            assert(servers.deep_view() =~= a + b + c);
            let mut notes: Vec<String> = Vec::new();
            notes.push(owned(SCHEMA_NOTE));
            assert(notes.deep_view() =~= seq![SCHEMA_NOTE@]);
            found(ClientKind::Goose, path, servers, notes)
        },
    }
}


proof fn lemma_extension_servers_shape(items: Seq<ConfigValue>, path: Seq<char>, read_values: bool)
    ensures
        forall|i: int|
            0 <= i < extension_servers(items, path, read_values).len() ==> server_shape(
                ClientKind::Goose,
                #[trigger] extension_servers(items, path, read_values)[i],
            ),
    decreases items.len(),
{
    if items.len() > 0 {
        lemma_extension_servers_shape(items.drop_last(), path, read_values);
        let rest = extension_servers(items.drop_last(), path, read_values);
        let all = extension_servers(items, path, read_values);
        lemma_server_shape(ClientKind::Goose, extension_name(items.last()), items.last(), path, false, read_values);
        assert forall|i: int| 0 <= i < all.len() implies server_shape(ClientKind::Goose, #[trigger] all[i]) by {
            if i < rest.len() {
                assert(all[i] == rest[i]);
            }
        }
    }
}

proof fn lemma_goose_servers_shape(doc: ConfigValue, path: Seq<char>, read_values: bool)
    ensures
        forall|i: int|
            0 <= i < servers_of(doc, path, read_values).len() ==> server_shape(
                ClientKind::Goose,
                #[trigger] servers_of(doc, path, read_values)[i],
            ),
{
    let k = ClientKind::Goose;
    let a = servers_under(k, doc, "mcpServers"@, path, false, read_values);
    let b = servers_under(k, doc, "mcp_servers"@, path, false, read_values);
    let c = match lookup_field(doc, "extensions"@) {
        Some(ConfigValue::List(items)) => extension_servers(items@, path, read_values),
        _ => Seq::empty(),
    };
    lemma_servers_under_shape(k, doc, "mcpServers"@, path, false, read_values);
    lemma_servers_under_shape(k, doc, "mcp_servers"@, path, false, read_values);
    match lookup_field(doc, "extensions"@) {
        Some(ConfigValue::List(items)) => lemma_extension_servers_shape(items@, path, read_values),
        _ => {},
    }
    let all = servers_of(doc, path, read_values);
    assert(all == a + b + c);
    assert forall|i: int| 0 <= i < all.len() implies server_shape(k, #[trigger] all[i]) by {
        if i < a.len() {
            assert(all[i] == a[i]);
        } else if i < a.len() + b.len() {
            assert(all[i] == b[i - a.len()]);
        } else {
            assert(all[i] == c[i - a.len() - b.len()]);
        }
    }
}

/// Law: every snapshot of this client names it, is detected exactly when it
/// lists a config file, and holds only servers of the shape of
/// [`snapshot_shape`].
pub proof fn lemma_snapshot_shape(src: ConfigSource, read_values: bool)
    ensures
        snapshot_shape(ClientKind::Goose, snapshot_spec(src, read_values)),
{
    let k = ClientKind::Goose;
    match src.read {
        ConfigRead::Parsed(doc) => {
            lemma_goose_servers_shape(doc, src.path@, read_values);
            lemma_file_snapshot_shape(k, src.path@, servers_of(doc, src.path@, read_values), snapshot_spec(src, read_values).notes, Seq::empty());
        },
        ConfigRead::Malformed(e) => lemma_file_snapshot_shape(k, src.path@, Seq::empty(), Seq::empty(), e@),
        ConfigRead::Missing => lemma_file_snapshot_shape(k, src.path@, Seq::empty(), Seq::empty(), Seq::empty()),
    }
}

} // verus!
