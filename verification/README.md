# futures_util (verified core)

Verus-verified building blocks of asynchronous combinators.

- `src/abortable.rs`: abort handles, registrations and abortable tasks; the
  decisions a poll of an abortable future or stream takes.
- `src/ready_to_run_queue.rs`: the intrusive MPSC ready-to-run queue of an
  unordered set of futures, with tasks named by index, a stub task, and
  enqueues split into their two atomic steps so that half-done enqueues can
  be reasoned about, and the dequeue that puts the stub back split likewise.
- `src/all.rs`: the state machine of the `all` stream combinator, and the
  law that it resolves to the conjunction of the predicate results.
- `src/sink.rs`: the flushing rule of a bounded channel sender.
- `src/poll.rs`: the library's `Poll`.
- `app/lib.rs`: `Future`, `Stream`, `FusedFuture`, `Display` and
  `Error` impls, which poll user futures and streams and drive the verified
  state machines.
