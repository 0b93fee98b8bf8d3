# tree_pir

Planning logic of a benchmarking tool that measures private information
retrieval (PIR) of Merkle-tree nodes, written in Verus.

- `src/cli.rs` – supported tree sizes, validation of the exponent argument,
  selection of benchmarks by name, and the paths of stored trees.
- `src/benchmark.rs` – benchmark parameters (including those of the defined
  benchmarks), labels, the benchmark name under which results are recorded,
  the five measured stages with their budgets, database records and random
  query indices.
- `src/tree.rs` – leaf counts, the chunks in which leaves are generated, the
  batches in which they are added to the tree, non-zero leaves, and the
  flattening of a stored tree into its node list.
- `src/text.rs` – decimal writing and parsing of unsigned integers.
- `src/random.rs` – the random numbers drawn from `rand`, from generators
  seeded fallibly by the operating system.
- `app/` – the command-line program: file and process handling, threads,
  Criterion runs and the PIR scheme itself.
