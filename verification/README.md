# factorize

A small JavaScript bundler, file watcher and image optimiser. The decision
logic is a Verus-verified library (`src/`); the runtime around it (file and
network I/O, tokio, the OS watcher, the command lines and the Node.js
bindings) is ordinary Rust in `app/`.

- `src/bundler.rs`, `imports.rs`, `resolve.rs`: the module scan worklist,
  import extraction, resolution candidates, link order and code generation.
- `src/ignored.rs`, `paths.rs`, `trigger.rs`, `scanner.rs`, `executor.rs`,
  `disk.rs`, `events.rs`: the watcher's ignore patterns, path bookkeeping,
  event derivation, aggregation and watch-pattern bookkeeping.
- `src/image_opt.rs`: image optimisation and output naming.
- `src/task_loop.rs`: scheduling decisions of the task loop.
- `src/binding.rs`: the logic behind the Node.js bindings.
- `src/fspath.rs`, `text.rs`: path operations of `std::path` and character helpers.
