# mobx_rs

A MobX-style reactivity runtime: observables, computed values and reactions
that track what they read, actions with strict-mode enforcement, and spy
diagnostics, verified with Verus.

## Layout

- `src/` — the verified library. The whole state of one runtime is a value,
  `MobxRuntime`, and every operation takes it explicitly:
  - `runtime.rs`: batching, read/write permissions, strict-mode warnings, the
    reaction queue, spy listener registration, and the tables of entities;
  - `observable.rs`: atoms and the observable side of computed values:
    reading (dependency collection), changing (marking observers stale and
    scheduling reactions), attaching and removing observers;
  - `derivation.rs`: derivation states, tracked runs and dependency binding;
  - `reaction.rs`: creating, scheduling, running and disposing reactions, and
    flushing the queue;
  - `computed.rs`: creating, reading, computing and suspending computed values;
  - `action.rs`, `spy.rs`: actions and spy listeners;
  - `registry.rs`, `ids.rs`, `fmt.rs`, `ffi.rs`: identifiers and their
    registry, generated names, and the handle types of the C interface;
  - `host.rs`: the `Host` trait, through which the runtime asks its embedding
    to run the user's closures (effects, getters, listeners).
- `tests/` — tests of the library, with small hosts that keep closures.
- `app/` — the thread-global API on top of the library (`ObservableValue`,
  collections, `Computed`, `autorun`, `action`, `spy::register`) and the C
  interface; it keeps the runtime of the current thread and the user's
  closures and values.

Each operation whose outcome depends on user code (a reaction's effect, a
computed getter) is split in verified halves around that code. The contracts
of the halves state what every outcome of the user code leaves (the tracking
derivation and read permission put back, the run finished, the collected
dependencies attached). Binding is described exactly when it suspends no
further computed value, and, for a derivation that no observable publishes
(a reaction's), also when it does: its record, and its place among the
observers of what it dropped and of what it reads. Marking observers stale
is described whenever it runs no user code (inside a flush, or when no live
reaction is waiting to be scheduled). A flush is described step by step: the
head of the queue is taken and run.

The runtime keeps a ghost log of the spy events it hands out, each with the
listeners it went to; the contracts of the operations that report events say
which events they add to it, in order. The laws of the library are public
proof functions next to the operations they relate.
