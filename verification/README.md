# sml

A state-machine library whose logic is proved with Verus.

- `src/` holds the verified library:
  - `dsl/` reads transition tables written in the sml.cpp-style table
    language (tokens, rows, guards, definitions), analyses them
    (`ParsedStateMachine`), finds regions and composite trees, reports
    diagnostics, draws Graphviz diagrams, plans the expansion of a machine
    and writes part of it as tokens: for a flat table the error, states and
    events enums, the conversions of outside events, the machine struct and
    its state API (`codegen.rs`); for a table split into regions its states,
    events and error enums, the machine struct, its region-wise state API
    and its termination (`orthogonal_code.rs`); for a parent with one child
    table the machine struct, the state API of both levels and its
    termination (`composite_code.rs`). Each writer is proved to produce
    exactly the text its specification gives.
  - `utility/` holds the run-time helpers: bounded event queues, deferred and
    processed queues, dispatch tables, machine pools, orthogonal regions and
    hierarchical dispatch.
  - `policy.rs` holds the policy slots of a generated machine.
- `tests/` exercises the library on concrete tables and machines.
- `app/` is ordinary Rust around the library: the typed event traits, the
  bridge between compiler token streams and the library's tokens, the
  reading of payload types with syn, and the hand-over of payload tokens to
  the writers.
