# peeps

Runtime graph instrumentation for async Rust programs: registries of the
entities a process is made of (tasks, futures, locks, channels, requests)
and of how they wait on each other, the wait graph built from process dumps,
and the decision logic of the snapshot web API.

`src/` is verified with Verus: every public function carries a contract
(but the two that read the clock, whose readings nothing constrains),
and the laws the library keeps (what a registry keeps across operations,
which edges a dump yields, how RPC requests of different processes are
stitched together) are proved as proof functions next to the code they
speak of.

- `text`, `attrs`, `json`: character-level helpers, attribute-JSON
  canonicalisation, JSON string quoting.
- `edge_set`, `node_table`, `model`, `registry`, `legacy_registry`: the graph
  registries and their snapshots.
- `waitgraph`, `wait_edges`, `rpc_order`, `wait_nodes`: the wait graph built
  from process dumps: its edges, the cross-process RPC stitching and its node
  table in key order.
- `tasks`, `threads`, `timers`, `rpc`, `net`, `file_ops`, `joinset`, `locks`,
  `objects`, `clock`: per-subsystem bookkeeping.
- `dump`, `wire`, `web_api`, `sql_guard`: persisting dumps, the dashboard
  wire protocol, and the web API's request checks and responses.

`app/` holds what cannot be verified: process-wide state, signals, I/O,
the database work and serde types. Durations that snapshots measure in
seconds as floating point are carried by their bit patterns, and the
thresholds they are held against are compared in `src/` as integers.
