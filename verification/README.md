# detector

Detects stalls and deadlocks of tasks in the tokio runtime.

- `src/` is the verified library: the task registry and what a stall watchdog reports of
  it, the wait-for graph with its cycle detection, what monitored mutexes record in the
  graph, what a deadlock watchdog reports, and which spawn calls of a function are
  rewritten to their monitored versions. The `*_laws` modules state what holds across
  these operations, such as that a reported cycle is a ring of tasks that wait for each
  other.
- `app/` runs the library under tokio: the global registry and graph, the futures, the
  mutexes with their guards, the watchdog loops, and the `monitored` macro.
- `tests/` exercises the library on concrete values.

A wait stops being shown in the graph when its lock is released, even if another task gets
the lock, and when the waiting task acquires another lock. A ring of tasks that goes through
such a wait is not found. A wait that is given up stays shown until the lock is released or
the task acquires a lock it waited for, and may show a ring where there is none.

The crate in `app/` is used under the name `detector_runtime`, which the `monitored` macro
writes into the calls it makes.
