# nemclass

A memory-inspection toolkit for Linux processes (native and Wine): class
layouts over live memory, address expressions with pointer chains, value
scanning, cheat tables, signature scanning, a ptrace debugger with hardware
watchpoints, "what accesses this address" tracing, and a structure spider.

## Layout

- `src/` — the verified library (Verus). Each module states its behaviour
  in `requires`/`ensures` over spec functions and proves it:
  - `types`, `schema`, `project`, `table` — field kinds and their compact
    names, class layouts and their contiguous normal form, project folders,
    cheat tables;
  - `offset` — the address-expression evaluator and pointer chains;
  - `format`, `writeback` — value text for each kind, and the law that shown
    text writes back the bytes it was read from;
  - `scan`, `compare` — the value scanner's windows, candidates and
    comparisons;
  - `pattern`, `process`, `wine`, `disasm` — signatures, process and module
    bookkeeping, `/proc` maps lines, PE headers, instruction classification
    (decoding through `iced-x86`);
  - `debug`, `ptrace`, `access` — debugger vocabulary, the ptrace session
    state machine, DR7 encoding, access-trace aggregation and the Intel PT
    packet decoder;
  - `inspect`, `dirs`, `dto`, `history`, `spider` — the inspector walk,
    directory listings, front-end records, undo/redo, spider paths.
- `tests/` — tests of the library.
- `app/` — the command-line program and everything that performs I/O:
  `/proc` and `process_vm_*` access, ptrace and perf system calls, file
  formats (TOML, RON), the Lua host, threads, and floating-point values.
