//! Cline: `~/.cline/mcp.json`, `{ "mcpServers": { "<name>": { "command"|"url", "args", "env", "transportType", "disabled", "autoApprove" } } }`.

use vstd::prelude::*;

use crate::adapters::{
    lemma_file_snapshot_shape, lemma_servers_under_shape, snapshot_shape,
    found, found_snapshot, malformed, malformed_snapshot, missing, missing_snapshot, servers_at,
    servers_under, ClientKind, ConfigRead, ConfigSource,
};
use crate::ir::ClientSnapshot;
use crate::ir::ClientSnapshotView;

verus! {

/// What the config file `src` tells of the client (environment values only
/// when `read_values` is set).
pub open spec fn snapshot_spec(src: ConfigSource, read_values: bool) -> ClientSnapshotView {
    match src.read {
        ConfigRead::Missing => missing_snapshot(ClientKind::Cline),
        ConfigRead::Malformed(e) => malformed_snapshot(ClientKind::Cline, src.path@, e@),
        ConfigRead::Parsed(doc) => found_snapshot(
            ClientKind::Cline,
            src.path@,
            servers_under(ClientKind::Cline, doc, "mcpServers"@, src.path@, src.project, read_values),
            Seq::empty(),
        ),
    }
}

/// The client's snapshot from its config file.
pub fn snapshot(src: &ConfigSource, read_values: bool) -> (r: ClientSnapshot)
    ensures
        r@ == snapshot_spec(*src, read_values),
{
    match &src.read {
        ConfigRead::Missing => missing(ClientKind::Cline),
        ConfigRead::Malformed(e) => malformed(ClientKind::Cline, src.path.as_str(), e.as_str()),
        ConfigRead::Parsed(doc) => {
            let servers = servers_at(ClientKind::Cline, doc, "mcpServers", src.path.as_str(), src.project, read_values);
            let notes: Vec<String> = Vec::new();
            let r = found(ClientKind::Cline, src.path.as_str(), servers, notes);
            assert(r@.notes =~= Seq::<Seq<char>>::empty());
            r
        },
    }
}


/// Law: every snapshot of this client names it, is detected exactly when it
/// lists a config file, and holds only servers of the shape of
/// [`snapshot_shape`].
pub proof fn lemma_snapshot_shape(src: ConfigSource, read_values: bool)
    ensures
        snapshot_shape(ClientKind::Cline, snapshot_spec(src, read_values)),
{
    let k = ClientKind::Cline;
    match src.read {
        ConfigRead::Parsed(doc) => {
            lemma_servers_under_shape(k, doc, "mcpServers"@, src.path@, src.project, read_values);
            lemma_file_snapshot_shape(k, src.path@, servers_under(k, doc, "mcpServers"@, src.path@, src.project, read_values), snapshot_spec(src, read_values).notes, Seq::empty());
        },
        ConfigRead::Malformed(e) => lemma_file_snapshot_shape(k, src.path@, Seq::empty(), Seq::empty(), e@),
        ConfigRead::Missing => lemma_file_snapshot_shape(k, src.path@, Seq::empty(), Seq::empty(), Seq::empty()),
    }
}

} // verus!
