# godwoken

Verified core of a Godwoken layer-2 node, written in Verus.

- `src/h256.rs`: the 256-bit word used as key and value of the state tree,
  with its little-endian number encodings.
- `src/blake2b.rs`: the personalized BLAKE2b-256 hasher (`blake2b-ref`).
- `src/state.rs`: the key builders of the account state, the `State` trait
  with its account, token and data-hash operations over an abstract
  key-value model (with the faults of the store behind it), and the laws
  those operations obey.
- `src/smt.rs`, `src/mem_state.rs`: an in-memory `State` backed by the
  `sparse-merkle-tree` crate.
- `src/runtime.rs`: the worker and blocking thread counts of the node's
  runtime, from its environment settings, with a decimal parser proved
  against a written specification of `str::parse` for unsigned integers;
  tests compare it with `str::parse` on sample inputs.
- `app/main.rs`: the node's command line, reading the environment, building
  the tokio runtime and dispatching to the node crates; `app/db_iter.rs`:
  the database column iterators.
