# react_wasm

The logic of a small React implementation for WebAssembly, verified with
Verus: the task scheduler and its heap, update lanes and effect flags, update
queues and hooks, child reconciliation, the render and commit traversals,
context propagation, suspense bookkeeping, event dispatch, element
creation and the host tree of the test renderer. JavaScript values appear as integer handles; the work that touches
the browser (timers, the message channel, DOM events, building JavaScript
objects) lives in `app/`.

- `src/` — the verified library, one module per concern (`scheduler`,
  `heap`, `lanes`, `flags`, `update_queue`, `fiber_hooks`, `child_fiber`,
  `begin_work`, `complete_work`, `commit_work`, `work_loop`,
  `fiber_context`, `fiber_throw`, `event`, `element`, `noop_host`, ...).
- `tests/` — tests of the library on concrete values.
- `app/` — the browser side: the scheduler's host loop, event listeners and
  the JSX entry points, on `wasm-bindgen`, `js-sys` and `web-sys`.
