# mimofan_core

The decision-making core of the mimofan terminal agent, written in Verus:
every function in `src/` carries a contract, and the properties that span
several functions are stated and proved as `law_*` proof functions.

- `src/` — the verified library: hook selection and the `message_submit`
  pipeline, the loop guard and tool-call fingerprints, the circuit breaker,
  retry decisions and stream resumption of the LLM client, MCP configuration
  and transport framing, the MCP server's routing and `tools/call`
  decisions, LSP framing, URIs and locations, the
  memory index and the decision log (with the proof that a rendered log reads
  back as written, timestamps included, whenever the fields can be told
  apart in the text), fleet profiles, workers, observability, task scoring,
  artifact checksums and the fleet manager's decisions over its ledger, and
  the issue monitor's route pinning.
- `tests/` — tests of the library on concrete values.
- `app/` — the command line and everything that touches the world: files,
  processes, clocks and serde.

Calls into `regex`, `serde_json`, `uuid`, `chrono`, `sha2` and std's hasher stand in
`src/` behind small trusted wrappers whose doc comments say what is assumed.
