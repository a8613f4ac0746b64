# vcd_tools_rs

Tools for Value Change Dump (VCD) and FST waveforms: signal listing,
metadata, value extraction, toggle counting, occurrence search and
comparison, a compact header catalog, and a JSON Lines request protocol
for a long-running query server.

The library under `src/` is written in Verus: each public function states
its result in `requires`/`ensures` over mathematical models, and the laws
that relate several functions are public proof functions. Calls into
outside crates (the `vcd` header parser, `blake3`) and into std where vstd
gives no specification sit behind small trusted wrappers whose contracts
say what the outside code does.

Layout:

- `src/text.rs`: character-level text (decimal and hex spelling, UTF-8
  lengths, trimming).
- `src/waveform.rs`: waveform format detection.
- `src/catalog.rs`, `src/header.rs`: header parsing and the signal catalog.
- `src/signal_list.rs`, `src/trace.rs`, `src/report.rs`, `src/cli.rs`:
  signal files, trace rows, comparison reports and command-line text.
- `src/query/`: query limits and cancellation, the streaming query state
  machines (`stream.rs`) and waveform comparison (`compare.rs`).
- `src/opened/`: file identity, the single-flight metadata state and the
  FST catalog, visit planning and budgets.
- `src/server/`: the wire protocol, the runtime's admission and lifecycle
  decisions, response accounting, and the checks that guard binding the
  server socket.
- `app/`: the program: argument handling, file and socket I/O, the body
  and FST readers that feed the library's state machines, and serde
  copies of the result types.
- `tests/`: tests of the library from outside.
