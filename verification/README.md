# virtmcu

The verified core of a simulator of networked microcontrollers: emulated nodes run in lock step,
quantum by quantum, and a coordinator passes their messages on in an order that does not depend on
which node was faster.

## Layout

- `src/` is the library. Every item is verified by Verus; public functions state what they return
  over the views of their arguments, and the proof functions whose names begin with `law_` state
  what holds across functions.
  - `deterministic_coordinator/`, `virtmcu_coord/`, `coordination.rs`: barriers, quanta, topologies,
    deliveries, and the steps that a coordinator takes for each message; `provenance.rs` follows
    messages through a whole run.
  - `zenoh_coordinator/`: the relay with delays, losses, jitter and radio.
  - `cyber_bridge/`: physical plants, their shared memory and recordings.
  - `test_runner/`: test environments, specifications of tests, and the checks of source files.
  - `virtmcu_cli/`, `virtmcu_run.rs`: command lines, source patches and schemas.
  - `coverage.rs`, `replay.rs`, `log_scan.rs`, `observability.rs`: reports, replays of logs, what a
    log must hold before it is read, and telemetry.
  - `text.rs`, `wire.rs`, `json.rs`, `sorting.rs`: what the others are built from.
- `tests/` runs the library on concrete values.
- `app/` is the program around the library: arguments, files, processes, sockets and the bus, and
  what is floating point. `app/wire.rs` speaks the wire formats; it needs the crates of the
  workspace that define them, and `flatbuffers`.

## What is trusted

Functions marked `external_body` call other crates or the standard library. The comment above each
one says which function it calls and what is claimed of it.
