# heph_rt

The core of the Heph actor runtime, written in Verus. The functions in `src/`
are proved against their contracts, except the small wrappers marked
`#[verifier::external_body]` that call into std and `a10` (the clock,
durations, string building, `Vec::capacity`, `trailing_zeros`, I/O errors and
two comparisons of `a10`'s signals): their contracts are trusted, and state
only what the documentation of the called function promises.

- `scheduler`: the thread-local scheduler, its trie of inactive processes, and
  the thread-safe scheduler with its run queue, ready markers and trie.
- `setup`: the runtime's setup builder, the scheduling interface with the
  completely fair scheduler, process ids and run statistics, and the timers
  interface.
- `bitmap`, `coordinator`: the bitmaps that wakers set, the packing of a
  coordinator waker's data, the coordinator's bookkeeping of threads, and its
  decisions on relaying process signals.
- `fs::watch`: the interests of a filesystem watch and the reading of
  `inotify(7)` event records.
- `io`: buffers, limited buffers, buffers used together in vectored I/O and
  their lengths, and reading from bytes in memory.
- `scheduler::system`: the scheduler of the runtime's own futures.
- `info`, `error`, `metrics`, `shared`, `time`, `net`: host ids, error
  messages, metrics, poll timeouts, and the TCP server's messages, errors and
  accept loop.

`app/` holds what the operating system does: reading the host's information,
adding watches, reading the CPU clock, the raw waker of the coordinator, running
the coordinator's loops and the TCP server's accept loop, and the `Display` and
`Error` impls of the errors.
