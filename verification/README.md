# rninja

A Ninja-compatible build tool with a content-addressed build cache, a build
daemon and a remote cache server.  The logic of the tool is a library
verified with Verus; the program around it does the I/O.

## Layout

- `src/` — the verified library:
  - `parser/`: the `build.ninja` lexer and parser (includes, subninja,
    rules, pools, variables, defaults);
  - `graph/`: the dependency graph, topological order and cycle detection;
  - `buildlog.rs`: the `.ninja_log` format, its reader and writer, and the
    up-to-date check;
  - `executor/`: the build scheduler's state machine, depfiles and the
    decisions around running a command;
  - `cache/`: cache entries and their binary format, action keys, blob
    paths, configuration, schema versions and the remote protocol;
  - `server/`: the cache server's configuration, authentication and
    per-request decisions;
  - `daemon/`: the daemon's protocol, sessions, manifest cache and queries;
  - `admin/`: the decisions of the cache maintenance tools;
  - `trace.rs`, `metrics/`, `output.rs`, `tools.rs`, `config.rs`.
- `tests/` — tests of the library.
- `app/` — the program: command line, file system, processes, sockets,
  serialization and terminal output.

Calls into outside crates (BLAKE3, UUIDs, CPU counts, the clock, paths)
stand behind small trusted wrappers whose contracts are stated next to
them; everything else in `src/` is proved.
