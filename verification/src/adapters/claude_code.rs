//! The `claude_code` client: `<project>/.mcp.json`, `~/.mcp.json` and the
//! user-wide JSON config in the home directory, each holding
//! `{ "mcpServers": { "<name>": { "command", "args", "env", "url", "disabled" } } }`.

use vstd::prelude::*;

use crate::adapters::{gather, gathered_snapshot, lemma_gathered_shape, snapshot_shape, ClientKind, ConfigSource};
use crate::ir::ClientSnapshot;
use crate::ir::ClientSnapshotView;

verus! {

/// What the config files `srcs` tell of the client, in order (environment
/// values only when `read_values` is set).
pub open spec fn snapshot_spec(srcs: Seq<ConfigSource>, read_values: bool) -> ClientSnapshotView {
    gathered_snapshot(ClientKind::ClaudeCode, srcs, "mcpServers"@, read_values)
}

/// The client's snapshot from its config files.
pub fn snapshot(srcs: &Vec<ConfigSource>, read_values: bool) -> (r: ClientSnapshot)
    ensures
        r@ == snapshot_spec(srcs@, read_values),
{
    gather(ClientKind::ClaudeCode, srcs, "mcpServers", read_values)
}


/// Law: every snapshot of this client names it, is detected exactly when it
/// lists a config file, and holds only servers of the shape of
/// [`snapshot_shape`].
pub proof fn lemma_snapshot_shape(srcs: Seq<ConfigSource>, read_values: bool)
    ensures
        snapshot_shape(ClientKind::ClaudeCode, snapshot_spec(srcs, read_values)),
{
    lemma_gathered_shape(ClientKind::ClaudeCode, srcs, "mcpServers"@, read_values);
}

} // verus!
