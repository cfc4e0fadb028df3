# coral

Dependency graphs of protobuf definitions, verified with Verus.

- `src/descriptor.rs` — the parts of a `FileDescriptorSet` that the analyzer reads, as plain values.
- `src/analyzer/` — one node per service, message and enum (nested ones too), edges for type references,
  external nodes for `google.*`/`buf.*` types, packages grouping the nodes. The contract of
  `Analyzer::analyze` is the exact graph (`analysis_of`), built in three passes.
- `src/diff/` — `DiffReport::compute` (added, removed and modified nodes, each list sorted by id)
  and its Markdown rendering.
- `src/reporter.rs` — the Markdown report of a graph.
- `src/text.rs` — character helpers: prefixes, dots, decimal numbers, lexicographic order.
- `app/` — reading stdin, decoding with `prost`, converting `prost_types` descriptors, and the
  serde forms of diff reports.
