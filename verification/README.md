# Rad

Rad is a relational database over object storage. This crate is its verified
core: the library under `src/` is written in Verus, and its public functions
state in their contracts what they return.

- `src/sql/` turns SQL statements into relational programs.
- `src/scheduler/` gathers statistics, stores and relays them, replays recorded
  workloads and schedules schema work.
- `src/service/` tells clients of results and errors.
- `src/telemetry/` says what is measured.
- `tests/` runs the library.
- `app/` is ordinary Rust around it: exporters, background tasks and wire formats.

## What is trusted

Three outside crates are called from the library, behind declarations whose
contracts are believed: `sqlparser`, which parses and shows SQL text,
`serde_json`, which holds the parsed statements, and `sha2`, which digests
bytes. A few functions of the standard library are declared in the same way.
Each declaration says what it claims.

## What is outside

Numbers with a fraction are carried as their bits, so moving means and ratios are
computed by the caller. Clocks, sockets and stores are the caller's too: the
library says what is to be done and takes back what came of it.
