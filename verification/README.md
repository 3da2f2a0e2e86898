# tokscale_core

Token usage of coding agents, as a Verus library: what it computes is stated in `requires` and
`ensures` clauses and proved.

- `src/sessions/` turns what the agents' session stores hold into messages: Antigravity CLI
  conversations (protobuf rows, read by `src/wire.rs`), Hermes Agent sessions and Mux usage files.
- `src/remote_report/` folds messages into a report of four pages: by date, by model, by local
  hour and by agent. `laws.rs` states what holds of every report: the order of the messages does
  not matter, the pages add up, and nothing counts but the reported fields.
- `src/source_context/` resolves where a host keeps its session stores and describes that
  configuration by a digest. `laws.rs` states what the digest depends on, and that a descriptor
  says one thing only. `places.rs` holds what is decided without a look at paths, for every
  operating system, and `description.rs` writes a configuration in the host's own strings. On
  systems whose paths are bytes the library resolves the paths too; on Windows `app/` joins them,
  because the rules for that are the standard library's own.
- `src/calendar.rs`, `src/local_hours.rs`, `src/text.rs`, `src/ordered.rs`, `src/cost.rs` and
  `src/messages.rs` are what these share.

Time zones, calendar texts, Unicode normalization and digests come from `jiff`, `jiff_tzdb`,
`unicode_normalization` and `sha2`. Each call stands in a small function marked
`external_body`, whose contract is believed; the comment above it says what it claims.

Costs are floating point, which the proofs leave alone: the library carries their bit patterns,
and `app/` adds and rounds them. `app/` also reads files, databases, JSON and the environment, and
asks its host for the names of models, providers, agents and workspaces.
