# dekit

Supervision of local development processes: health checks, dependencies
between processes, lifecycle hooks, one-shot tasks, and the terminal views that
show them.

What the supervisor decides is a library that [Verus](https://github.com/verus-lang/verus)
verifies; what it does to files, terminals and child processes is ordinary Rust
around it.

## Layout

- `src/config/` reads configuration documents: processes, their environments
  and how they are stopped, named checks and hooks, durations, `%NAME%`
  variables.
- `src/graph/` works on dependency graphs: layers, components, listings,
  cycles.
- `src/task/` is the lifecycle of a process task with its checks and hooks.
- `src/console/` is the console: its state, what input and news do to it, the
  dependency dashboard, the views.
- `src/mprocs/` is the classic interface: its processes, list and terminal.
- `src/process/`, `src/protocol/`, `src/kernel/` hold who waits for child
  processes, the requests of clients, and tasks with their paths.
- `src/term/`, `src/text.rs` draw on grids of cells and handle text.
- `app/` runs it all: it reads the files, spawns the processes, performs the
  actions that the library returns and hands the outcomes back.
- `tests/` runs the library on concrete values.

## What is stated

Every function says in its contract what it returns or changes, over models of
its data: sequences of characters, maps of settings, a grid as a map from
positions to cells, a lifecycle as steps from a state and an event to the next
state and the actions to perform.

Properties that span functions are public proof functions next to what they
speak of, among them `src/task/laws.rs`, `src/mprocs/proc/laws.rs`,
`src/console/laws.rs`, the two `history.rs` and the two `frames.rs`: a process
is reported as started only when all its health checks pass and its `running`
hook has succeeded, its end is reported exactly once, a cycle of dependencies
is reported exactly when there is one, a click hits what is drawn under it,
everything is drawn within its area.

## What is trusted

The contracts of a few outside functions are taken on trust: the widths of
characters and strings (`unicode-width`), the index behind named values
(`indexmap`), and which characters are letters and `String::push` of the
standard library. Each stands in a function of its own that says so.
