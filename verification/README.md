# shuffle_bench

A verified library for benchmarking distributed queries, and for the plan rewrite that the
benchmarks measure: below a network shuffle, partial aggregates are merged before they travel.

- `src/` is the library. Its contracts and laws are proved with Verus.
- `app/` is the program around it: command line, files, sessions.
- `tests/` runs the library, with the query engine linked.

Laws about the library as a whole are the proof functions whose names start with `law_`.
What the query engine does is stated, not proved, in `src/error.rs`, `src/machine.rs`,
`src/session.rs` and `src/physical.rs`.
