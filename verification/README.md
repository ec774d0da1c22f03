# hooch

A small async runtime. The library under `src/` holds the parts of it whose
behaviour can be stated and proved with Verus; `app/` is the runtime around it
(threads, the `mio` poller, timers, files, sockets, futures).

- `src/utils/ring_buffer.rs` — a bounded FIFO ring buffer, with first-in
  first-out laws.
- `src/pool/thread_pool.rs` — round-robin choice of the worker channel for each
  job (the pool's threads, and the runtime's executors); the caller sends.
- `src/reactor.rs` — the reactor's record of channel wakers and I/O readiness,
  what each poller event does to it, and which wakers the event asks to wake;
  the waking itself is done in `app/`.
- `src/sync/mpsc/bounded_channel.rs` — one poll of a channel's receiving end.
- `src/task/offload.rs` — the state of a future that hands blocking work away
  on its first poll.
- `src/main_attr.rs` — the decisions of the `hooch_main` attribute, including
  the grammar of its `workers = N` argument (decimal, `0x`, `0o` and `0b`
  literals, with `_` separators and type suffixes). The attribute macro itself
  needs a procedural-macro crate and is not part of this package.
- `src/time/timeout.rs` — the decision of one poll of a future raced against a
  timer.
- `src/runtime.rs`, `src/spawner.rs`,
  `src/executor.rs` — runtime configuration, the nested-runtime guard, and the
  library's error and status types.

