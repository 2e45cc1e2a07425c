//! The Agent Visible Surface model: servers declared in client configs, the
//! tools they expose, findings over both, and flow edges between tools.

use vstd::prelude::*;

use crate::config::ConfigValue;
use crate::text::owned;

verus! {

/// One MCP server as declared in a client's config.
#[derive(Debug, Clone, Default)]
pub struct ServerRef {
    pub client: String,
    pub name: String,
    pub scope: String,
    pub transport: String,
    pub command: Option<String>,
    pub args: Vec<String>,
    pub url: Option<String>,
    pub env_keys: Vec<String>,
    /// Environment values that the config sets, as (key, value) pairs in key order.
    pub env_values: Vec<(String, String)>,
    pub approval: String,
    pub disabled: bool,
    pub raw_source: String,
}

/// The mathematical content of a [`ServerRef`].
pub struct ServerRefView {
    pub client: Seq<char>,
    pub name: Seq<char>,
    pub scope: Seq<char>,
    pub transport: Seq<char>,
    pub command: Option<Seq<char>>,
    pub args: Seq<Seq<char>>,
    pub url: Option<Seq<char>>,
    pub env_keys: Seq<Seq<char>>,
    pub env_values: Seq<(Seq<char>, Seq<char>)>,
    pub approval: Seq<char>,
    pub disabled: bool,
    pub raw_source: Seq<char>,
}

impl View for ServerRef {
    type V = ServerRefView;

    open spec fn view(&self) -> ServerRefView {
        ServerRefView {
            client: self.client@,
            name: self.name@,
            scope: self.scope@,
            transport: self.transport@,
            command: self.command.deep_view(),
            args: self.args.deep_view(),
            url: self.url.deep_view(),
            env_keys: self.env_keys.deep_view(),
            env_values: self.env_values.deep_view(),
            approval: self.approval@,
            disabled: self.disabled,
            raw_source: self.raw_source@,
        }
    }
}

impl DeepView for ServerRef {
    type V = ServerRefView;

    open spec fn deep_view(&self) -> ServerRefView {
        self@
    }
}

/// One risk finding. `confidence_pct` is the rule's confidence in hundredths.
#[derive(Debug, Clone)]
pub struct Finding {
    pub rule_id: String,
    pub severity: String,
    pub category: String,
    pub client: String,
    pub server: String,
    pub message: String,
    pub evidence: String,
    pub confidence_pct: u8,
}

/// The mathematical content of a [`Finding`].
pub struct FindingView {
    pub rule_id: Seq<char>,
    pub severity: Seq<char>,
    pub category: Seq<char>,
    pub client: Seq<char>,
    pub server: Seq<char>,
    pub message: Seq<char>,
    pub evidence: Seq<char>,
    pub confidence_pct: u8,
}

impl View for Finding {
    type V = FindingView;

    open spec fn view(&self) -> FindingView {
        FindingView {
            rule_id: self.rule_id@,
            severity: self.severity@,
            category: self.category@,
            client: self.client@,
            server: self.server@,
            message: self.message@,
            evidence: self.evidence@,
            confidence_pct: self.confidence_pct,
        }
    }
}

impl DeepView for Finding {
    type V = FindingView;

    open spec fn deep_view(&self) -> FindingView {
        self@
    }
}

/// What one client's configs declare.
#[derive(Debug, Clone, Default)]
pub struct ClientSnapshot {
    pub client: String,
    pub detected: bool,
    pub config_files: Vec<String>,
    pub servers: Vec<ServerRef>,
    pub notes: Vec<String>,
}

/// The mathematical content of a [`ClientSnapshot`].
pub struct ClientSnapshotView {
    pub client: Seq<char>,
    pub detected: bool,
    pub config_files: Seq<Seq<char>>,
    pub servers: Seq<ServerRefView>,
    pub notes: Seq<Seq<char>>,
}

impl View for ClientSnapshot {
    type V = ClientSnapshotView;

    open spec fn view(&self) -> ClientSnapshotView {
        ClientSnapshotView {
            client: self.client@,
            detected: self.detected,
            config_files: self.config_files.deep_view(),
            servers: self.servers.deep_view(),
            notes: self.notes.deep_view(),
        }
    }
}

impl DeepView for ClientSnapshot {
    type V = ClientSnapshotView;

    open spec fn deep_view(&self) -> ClientSnapshotView {
        self@
    }
}

/// A config scan: every client's snapshot and the findings over their servers.
#[derive(Debug, Clone, Default)]
pub struct ScanResult {
    pub clients: Vec<ClientSnapshot>,
    pub findings: Vec<Finding>,
}

/// The mathematical content of a [`ScanResult`].
pub struct ScanResultView {
    pub clients: Seq<ClientSnapshotView>,
    pub findings: Seq<FindingView>,
}

impl View for ScanResult {
    type V = ScanResultView;

    open spec fn view(&self) -> ScanResultView {
        ScanResultView { clients: self.clients.deep_view(), findings: self.findings.deep_view() }
    }
}

/// A tool as a live server lists it. `input_schema` is carried through untouched.
#[derive(Debug, Default)]
pub struct ExposedTool {
    pub client: String,
    pub server: String,
    pub name: String,
    pub description: Option<String>,
    pub input_schema: ConfigValue,
    pub source: String,
}

/// The mathematical content of an [`ExposedTool`] (all but its input schema).
pub struct ExposedToolView {
    pub client: Seq<char>,
    pub server: Seq<char>,
    pub name: Seq<char>,
    pub description: Option<Seq<char>>,
    pub source: Seq<char>,
}

impl View for ExposedTool {
    type V = ExposedToolView;

    open spec fn view(&self) -> ExposedToolView {
        ExposedToolView {
            client: self.client@,
            server: self.server@,
            name: self.name@,
            description: self.description.deep_view(),
            source: self.source@,
        }
    }
}

impl DeepView for ExposedTool {
    type V = ExposedToolView;

    open spec fn deep_view(&self) -> ExposedToolView {
        self@
    }
}

/// A possible data flow: the description of `src` tells the model to call `dst`.
#[derive(Debug, Clone, Default)]
pub struct FlowEdge {
    pub src: String,
    pub dst: String,
    pub reason: String,
}

/// The mathematical content of a [`FlowEdge`].
pub struct FlowEdgeView {
    pub src: Seq<char>,
    pub dst: Seq<char>,
    pub reason: Seq<char>,
}

impl View for FlowEdge {
    type V = FlowEdgeView;

    open spec fn view(&self) -> FlowEdgeView {
        FlowEdgeView { src: self.src@, dst: self.dst@, reason: self.reason@ }
    }
}

impl DeepView for FlowEdge {
    type V = FlowEdgeView;

    open spec fn deep_view(&self) -> FlowEdgeView {
        self@
    }
}

/// The `source` of a tool read from a live server.
pub fn default_live() -> (r: String)
    ensures
        r@ == "live"@,
{
    owned("live")
}

/// Whether a finding was raised by rule `id`.
pub open spec fn rule_is(id: Seq<char>) -> spec_fn(FindingView) -> bool {
    |f: FindingView| f.rule_id == id
}

} // verus!
