# tepora_core

The decision-making core of the Tepora backend, written in Verus: the
functions in `src/` are verified by Verus, and their public contracts state
what each computes.

- `src/graph/`: the workflow graph (topology, routing rules, the built-in
  Tepora graph and its acyclicity), the decisions of each node, the agent
  executor's step loop and tool approval rules, the search stages, and what a
  streamed payload becomes for a session.
- `src/memory/`: episodic memory: boundary placement, event spans, merge
  groups, contiguity recall, two-stage retrieval merging, decay bookkeeping,
  the memory enums and the sealing of stored text.
- `src/json.rs`: JSON documents as the library reads them.
- `src/llm.rs`: chat messages, model server settings, the server-sent event
  decoder and the text of completions.
- `src/knowledge.rs`, `src/history.rs`, `src/log_retention.rs`,
  `src/metrics.rs`, `src/sentence.rs`, `src/text.rs`: the knowledge store's
  checks, chat history rules, log retention, runtime metrics, sentence
  splitting and the string toolkit the rest is built on.
- `app/`: ordinary Rust around the library: the async drivers that run the
  graph, the executor loop and the nodes' model and tool calls, the storing,
  compression and recall of memories, the floating-point scoring of memories and
  text, file and network plumbing, and serialisable copies of the library's
  types.
- `tests/`: executable tests of the library.

Laws of the library are public proof functions, named `lemma_*`.
