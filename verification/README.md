# nobro_kernel

Bounded, allocation-aware kernel services for small embedded systems, with
their behaviour stated as Verus contracts and proved.

- `src/` is the verified library: module identities and health tracking,
  manifests and capability grants, startup order, lifecycle and launch gates,
  mailboxes and IPC payload routing, admission analysis and degradation
  planning, the deadline task table, application graphs and C applications,
  reactor admission and priority binding, timers, channels, wait queues and
  task groups, the bounded and reactor executors, the execution sentinel,
  and the checksummed instrumentation and capacity reports.
- `tests/` exercises the library on concrete scenarios.
- `app/` holds the host-side glue the verifier does not read: raw task wakers
  over shared atomics, `Future` adapters that turn each poll into one verified
  library step, the future combinators, and the C-ABI step type.

The only items whose contracts are believed rather than proved are the
declaration of `core::task::Waker` and the four calls the library makes on a
waker (`will_wake`, `clone`, `wake`, `wake_by_ref`), none of which claims
anything about its result.
