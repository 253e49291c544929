# eko_core

A state-graph runtime for AI agents, written in Verus: graphs of nodes, edges
and channels run in supersteps, with checkpoints that let a run pause and
resume.

## Layout

- `src/` — the verified library.
  - `json.rs`, `strmap.rs`, `text.rs` — JSON values, string-keyed maps that
    keep insertion order, decimal text and text order.
  - `channels/` — the channels (last value, reducer aggregate, ephemeral,
    topic, named and dynamic barriers) and their laws.
  - `checkpoint/` — checkpoint records and the in-memory store, with the laws
    of reading back what was stored.
  - `graph/` — edges, commands, tasks, the builder and its validation, the
    compiled graph, and `pregel/`: channel operations, routing of the next
    step (`engine.rs`) and the step-by-step run (`run.rs`).
  - `agent/` — errors, messages, interaction requests and stream events with
    their filtering modes.
- `app/` — the asynchronous runtime around the library: tokio tasks with
  retries and timeouts, checkpoint stores behind an async trait, stream
  delivery, `serde_json` conversions. Each step of a run is decided by
  `graph::pregel::run::Run`, which also hands out each task's input; the app
  runs the tasks (retrying and timing them out as each node's policy says,
  with a floating-point backoff) and returns every output with its task's
  position.
- `tests/` — tests of the channels, the store, the builder, typed states, and
  whole runs driven through `Run`.
