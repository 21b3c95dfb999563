# quas-wex-exort

An ObjectiveAI plugin that runs an agent-facing MCP server: background tasks,
concurrent `multi_call`, recurring reminder loops and a paginated `list_tools`,
each toolset gated per session.

- `src/` is the verified library (Verus): toolset gating, the closest-tool
  suggestion (case-insensitive Levenshtein distance), id generation, the task
  and loop registries with their per-AIH scoping and claim semantics, the
  loop worker's pacing step and the listings' timing, the replies and
  messages every tool produces (the listings' JSON through serde_json),
  tool-argument unwrapping, `multi_call` result joining,
  `list_tools` paging, header and AIH handling, and the config builders.
- `app/` is the plugin binary: the command line, environment reading, the
  `rmcp` server, the ObjectiveAI CLI calls and the background workers'
  plumbing (spawning, sleeping, cancelling), driven by the library's steps.
- `tests/` exercise the library on concrete values.
