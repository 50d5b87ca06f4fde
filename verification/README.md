# idm-engine

The logic of a segmented download manager, verified with Verus.

- `src/engine/classify.rs` — category of a file by extension, and its folder.
- `src/engine/rules.rs` — per-site rules (`*.example.com` wildcards), rule choice by URL host.
- `src/engine/task.rs` — byte-range segments, splitting a file into segments, task progress counts.
- `src/engine/speed.rs` — sliding-window speed meter over cumulative byte counts.
- `src/engine/writer.rs` — page-aligned buffers and their bounded pool.
- `src/engine/connection.rs` — file size, range support and file name from HEAD response headers.
- `src/engine/scheduler.rs` — how a new download is named, placed and split; reported task states.
- `src/server.rs`, `src/cli.rs` — API values and the command-line name shortening.
- `src/text.rs` — character-level string helpers.

`app/` holds the unverified shell: HTTP (reqwest), SQLite (rusqlite), the
async scheduler (tokio, dashmap), direct file I/O, the axum API and the CLI.
