# session_router

Per-session provider routing for a local model proxy. Each session that a
request names (by kind of client and session id) is routed to the provider
the user pinned on it, or else follows the globally selected provider. Pins
are persisted as a JSON map from `app_type:session_id` to a record, and come
back after a restart (each key is split at its first `:`).

- `src/` — the library, verified with Verus: the router and its contracts
  (`router.rs`), the records it keeps (`session.rs`), the map-as-pairs model
  behind them (`table.rs`), text helpers (`text.rs`), the parts of JSON that
  routing decisions read (`json.rs`), what the client's own session files
  say about a session (`session_files.rs`), the wall clock (`clock.rs`) and the laws
  that hold across operations (`laws.rs`).
- `app/` — the process side: the router shared behind an async lock, the
  JSON file on disk, the listing and reading of the client's session files
  and the probe of its process, serde copies of the records, and the
  front-end commands.
- `tests/` — tests of the library.
