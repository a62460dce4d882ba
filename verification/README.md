# hydra_services

The decisions of two of Hydra's services, verified with Verus.

- The ad-hoc build daemon cancels the builds of a client that exits before they
  are finished. `src/hangup.rs` notices the exit, `src/inflight.rs` says what is
  cancelled, `src/queries.rs` takes the cancellation through its transaction,
  and `src/table.rs` says what its statements do to the rows of the `Builds`
  table. `src/outputs.rs` collects the outputs of a finished build.
- The authentication backend loads its configuration (`src/config.rs`) and
  connects to its database (`src/state.rs`).

Sockets, files, the database and the environment are reached from `app/`, which
performs what the library decides and hands back what came of it.
