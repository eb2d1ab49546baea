# flowhost

The decision logic of a flow host, verified with Verus: the run engine's slot table (claims,
barriers, firings, gating, finalization), the resolution of a firing's incoming message along its
lineage, the trigger reactors' clocks and decisions (interval, schedule, cron, webhook, approval),
the node legs that only compute over a message, the store nodes' requests and replies, the save-time
lints, the runtime and run-inspection views, and the form and schedule records.

Layout:

- `src/` — the verified library. `laws.rs` states the properties that span several calls.
- `tests/` — tests of the library on concrete values.
- `app/` — ordinary Rust around the library: conversions between `serde_json` values and the
  library's JSON model, the serde and error-trait shapes of its records, the wire shapes of its
  views, and the glue that performs a node's I/O around the library's decisions.

Outside crates called from the library: `serde_json` (reading JSON text, and writing a value as
compact or indented text) and `chrono` (reading an RFC 3339 instant), each call behind one wrapper
whose contract is stated in its doc comment.

The flow model's own helpers that the host logic reads are stated and proved here rather than
called, because the flow model crate they come from is not a dependency of this library: the
slot-key suffix of a firing context; reachability and ancestry over a flow's edges (`reach_marks`,
`graph_ancestors`), from which a run's node set, the in-degrees within it and its frontier are
computed (`create_run`); and the frontier and boot-trigger scans. The caller supplies the flow's
edges (each node with its dependents, or with the nodes it needs) and, where a node kind's built-in
status matters, one flag per node.
