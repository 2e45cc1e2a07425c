//! VS Code (Copilot Chat): `<project>/.vscode/mcp.json`,
//! `{ "servers": { "<name>": { "type": "stdio"|"http", "command", "args", "env", "url" } } }`;
//! the key "mcpServers" is read when "servers" is not a table.

use vstd::prelude::*;

use crate::adapters::{
    lemma_file_snapshot_shape, lemma_servers_shape, lemma_servers_under_shape, snapshot_shape,
    found, found_snapshot, malformed, malformed_snapshot, missing, missing_snapshot, servers_in,
    servers_spec, servers_under, ClientKind, ConfigRead, ConfigSource,
};
use crate::config::{get_field, lookup_field, table_entries, ConfigValue};
use crate::ir::ClientSnapshot;
use crate::ir::{ClientSnapshotView, ServerRef, ServerRefView};

verus! {

/// The servers of a parsed config: under "servers", else under "mcpServers".
pub open spec fn servers_of(doc: ConfigValue, path: Seq<char>, read_values: bool) -> Seq<ServerRefView> {
    match table_entries(lookup_field(doc, "servers"@)) {
        Some(es) => servers_spec(ClientKind::Vscode, es, path, true, read_values),
        None => servers_under(ClientKind::Vscode, doc, "mcpServers"@, path, true, read_values),
    }
}

/// What the config file `src` tells of the client (environment values only
/// when `read_values` is set).
pub open spec fn snapshot_spec(src: ConfigSource, read_values: bool) -> ClientSnapshotView {
    match src.read {
        ConfigRead::Missing => missing_snapshot(ClientKind::Vscode),
        ConfigRead::Malformed(e) => malformed_snapshot(ClientKind::Vscode, src.path@, e@),
        ConfigRead::Parsed(doc) => found_snapshot(
            ClientKind::Vscode,
            src.path@,
            servers_of(doc, src.path@, read_values),
            Seq::empty(),
        ),
    }
}

/// The client's snapshot from its config file.
pub fn snapshot(src: &ConfigSource, read_values: bool) -> (r: ClientSnapshot)
    ensures
        r@ == snapshot_spec(*src, read_values),
{
    match &src.read {
        ConfigRead::Missing => missing(ClientKind::Vscode),
        ConfigRead::Malformed(e) => malformed(ClientKind::Vscode, src.path.as_str(), e.as_str()),
        ConfigRead::Parsed(doc) => {
            let servers: Vec<ServerRef> = match get_field(doc, "servers") {
                Some(ConfigValue::Table(es)) => servers_in(ClientKind::Vscode, es, src.path.as_str(), true, read_values),
                _ => crate::adapters::servers_at(ClientKind::Vscode, doc, "mcpServers", src.path.as_str(), true, read_values),
            };
            let notes: Vec<String> = Vec::new();
            let r = found(ClientKind::Vscode, src.path.as_str(), servers, notes);
            assert(r@.notes =~= Seq::<Seq<char>>::empty());
            r
        },
    }
}


/// Law: every snapshot of this client names it, is detected exactly when it
/// lists a config file, and holds only servers of the shape of
/// [`snapshot_shape`].
pub proof fn lemma_snapshot_shape(src: ConfigSource, read_values: bool)
    ensures
        snapshot_shape(ClientKind::Vscode, snapshot_spec(src, read_values)),
{
    let k = ClientKind::Vscode;
    match src.read {
        ConfigRead::Parsed(doc) => {
            match table_entries(lookup_field(doc, "servers"@)) {
                Some(es) => lemma_servers_shape(k, es, src.path@, true, read_values),
                None => lemma_servers_under_shape(k, doc, "mcpServers"@, src.path@, true, read_values),
            }
            lemma_file_snapshot_shape(k, src.path@, servers_of(doc, src.path@, read_values), snapshot_spec(src, read_values).notes, Seq::empty());
        },
        ConfigRead::Malformed(e) => lemma_file_snapshot_shape(k, src.path@, Seq::empty(), Seq::empty(), e@),
        ConfigRead::Missing => lemma_file_snapshot_shape(k, src.path@, Seq::empty(), Seq::empty(), Seq::empty()),
    }
}

} // verus!
