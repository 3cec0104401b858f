# elucid

Log storage, with its rules verified by Verus: what is admitted, how it is kept, and what a query
over it means.

- `src/ingest` reads lines into typed batches: table schemas, the normalization of a line, the
  gathering of rows, and the states of a run and of a sink.
- `src/ingestion` admits batches durably: the framing, scanning and accounting of the spool, the
  normalization of records, the building and laying out of segments, and the recovery of outputs.
- `src/language` reads queries: the lexer, the grammar, and the analysis that gives each expression
  its type and each query its pipeline.
- `src/calendar.rs`, `src/codec.rs`, `src/decimal.rs`, `src/digest.rs`, `src/identity.rs`,
  `src/json.rs` and `src/text.rs` hold what these share; `src/catalog.rs` holds the definitions
  that they are given.
- `app` does the input and output: files, object stores, columnar files and asynchronous streams.

Floating-point numbers are kept in `src` as the numerals from which they are rounded. `app` rounds
them, and answers what the analysis of a query asks of their order and their arithmetic.
