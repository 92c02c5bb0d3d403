# rustible_callback

Callback plugins for a Rust automation engine in the style of Ansible: the
plugins that turn playbook, play, task and host events into output (default,
minimal, dense, forked, actionable, context, debug, counter, full-skip, JSON,
JUnit, log-file and Logstash output), the manager that dispatches events to
registered plugins in priority order, the plugin factory and the layered
configuration (defaults, file, environment, command line).

The library is written in Verus: every function in `src/` carries a
`requires`/`ensures` contract over mathematical models (`Seq`, `Map`, `int`)
and is proved against it. Plugins compute what they show as values (lines of
styled spans, JSON values, log records); they do not print, write files or
read the clock themselves.

Layout:

- `src/` — the verified library. `types.rs`, `table.rs`, `text.rs` and
  `style.rs` hold the shared data model; `plugins/` one module per plugin;
  `manager.rs` the dispatch rules and their laws; `factory.rs`, `config.rs`
  and `environment.rs` plugin creation and configuration; `diff.rs` unified
  diffs. Calls into `similar` and `serde_json` stand behind a few trusted
  wrappers whose contracts are stated in their doc comments.
- `app/` — ordinary Rust around the library: terminal output, clocks, files,
  HTTP, async dispatch with panic isolation, and `serde` conversions.
- `tests/` — tests run against the compiled library with the real outside
  crates.
