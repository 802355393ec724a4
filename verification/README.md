# mcpconfig

An agent driver that connects any model behind an OpenAI-compatible endpoint to
any set of MCP servers.

- `src/` is the library, verified with Verus: the tool registry, the agent loop
  and the run around it as state machines, the event log, reports, transcripts,
  context files, and what the HTTP server answers.
- `app/` carries out what the library decides: processes, files, HTTP, the
  command line.
- `tests/` run the library.

The functions that the proofs rest on without proof are marked in the source:
they call `serde_json`, `serde`, `globset`, `chrono` and the standard library,
and their comments say what is taken on trust.
