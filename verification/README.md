# pm

A research project manager: projects hold an impact-ranked DAG of phases,
and a typed causal knowledge graph links experiments, findings, decisions,
hypotheses, research tasks, principles, constraints and literature. The
library states, as Verus contracts, what each tool answers and how it may
change the store, and proves that the code meets them.

## Layout

- `src/store.rs` — the in-memory store: its tables, their views as
  sequences, and the operations that read and change them.
- `src/dag.rs` — phase ordering: topological sort, the next workable
  phases, stagnation.
- `src/kg/` — the knowledge graph: one-hop traversal, breadth-first
  neighbourhoods, phase subgraphs, contradictions.
- `src/mcp/` — the tools: creating and completing nodes under the
  provenance rules (principles, constraints, literature and hypotheses
  among them), belief status, session start/end/context, dashboards, reviews, the
  structural repair report and the audit facts.
- `src/analysis/` — contradiction signals between findings (negation,
  antonyms, correction markers, diverging numbers, compared exactly).
- `src/board.rs`, `src/import.rs`, `src/files.rs`, `src/text.rs` — the
  command-line dashboard, import of an older export, file-name rules and
  text helpers.
- `src/cli.rs` — the command-line model.
- `app/` — the binary: argument parsing, the JSON-RPC loop, file access, the
  date on the clock and the floating-point audit score.
- `tests/` — tests of the library on concrete values.

Laws that relate several tools are public proof functions named `law_*`.
