# tool_glass

A verified library for auditing what an AI coding agent can see of its MCP
(Model Context Protocol) servers: the servers that each client's configs
declare, the tools that live servers list, risk findings over both, the flow
edges that tool descriptions suggest, baselines and their diffs, and reports
in terminal, Markdown, HTML and SARIF form.

Every function under `src/` is proved by Verus against its `requires` /
`ensures` contract, except the thin wrappers around outside code listed
below; laws that relate several functions are public proof functions
(`lemma_*`).

Trusted, not proved: these `#[verifier::external_body]` wrappers make one
outside call each, and Verus takes their contracts on trust.

- `config.rs`: `parse_json_text`, `parse_toml_text`, `parse_yaml_text`
  (serde_json / toml / serde_yaml `from_str`, results named
  `json_document`, `toml_document`, `yaml_document`), and `json_to_config`,
  `toml_to_config`, `yaml_to_config` (one arm per variant of the parsed
  value); the parsed value types are declared with
  `#[verifier::external_type_specification]`.
- `matching.rs`: `regex_find`, `regex_captures_all` (the regex crate's
  `find` and `captures_iter`, named `regex_first`, `regex_captures`).
- `baseline.rs`: `sha256_digest` (sha2's `Sha256::digest`, named
  `sha256_spec`, 32 bytes long).
- `report/terminal.rs`: `render_table` (comfy-table's rendering, named
  `table_text`).
- `text.rs`: `debug_text` (std's `Debug` of a `str`, named `debug_quoted`),
  `to_lowercase_text` (std's `str::to_lowercase`, named `unicode_lower`),
  `push_char` (std's `String::push`).

Layout:

- `src/config.rs` — parsed config documents as plain values, and lookups in them.
- `src/adapters/` — one adapter per client (claude_code, cursor, codex,
  vscode, cline, goose), from parsed config files to client snapshots.
- `src/rules.rs`, `src/analysis.rs` — config findings (TG-00x), tool findings
  (TG-10x) and flow edges.
- `src/scan.rs`, `src/mcp.rs`, `src/demo.rs` — scan orchestration, the
  decisions of live introspection, the MCP handshake messages and the
  started server's environment, `tools/list` responses, and the demo
  servers' answers.
- `src/baseline.rs` — snapshots and diffs.
- `src/report/` — report rendering.
- `app/` — the `tool-glass` command line: file and process I/O, JSON
  (de)serialisation and argument handling around the library.
