# aether

The decisions of a small master/worker cluster, verified with Verus.

- `src/` is the library. The master keeps a registry of workers
  (`registry.rs`) and a queue of tasks split into sub-batches (`queue.rs`,
  `task.rs`); `master.rs` records heartbeats, queues injected and intercepted
  work, prunes silent workers and takes one scheduling step at a time.
  `worker.rs` builds the replies a worker streams while it runs a command;
  `cli.rs` builds addresses and the client's request; `text.rs` holds the few
  calls into std's string functions that the rest relies on.
- `app/` is the program around it: gRPC transport (tonic), processes,
  system telemetry (sysinfo), the clock, and the floating-point capacity
  score, which the library receives as an order-preserving integer key.
- `tests/` exercises the library on concrete values.
