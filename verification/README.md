# Engram

Memory for agents: episodes go in, entities are found and linked, and questions
are answered from five layers of memory. The library holds the rules, and Verus
proves them.

- `src/storage/` is the schema: the records, how they are written and read back, the
  configuration, the migration runner and the walk over the graph.
- `src/memory/` is what happens to a memory: extraction, scoring, ingestion,
  classification of questions, ranking and the answer.
- `src/launch.rs` and `src/parity.rs` serve the command line and the comparison
  of two databases.
- `src/text.rs`, `src/words.rs`, `src/sorting.rs`, `src/time.rs`, `src/paths.rs`
  and `src/checksum.rs` are what the rest is built on.

What talks to a database, a model or the disk is a state machine in the library:
`MigrationRun`, `GraphWalk` and `Ingestion` say what to do next and take the
outcome back. An ingestion is one transaction: it either commits all that it wrote
or nothing. `app/` runs them against SurrealDB and is the `engram` command.

Numbers between zero and one are counted in millionths, instants in seconds and
nanoseconds, and embeddings are kept as the bit patterns of their numbers, so that
every rule is about integers. Public proof functions state what holds across
several operations.
