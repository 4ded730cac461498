# dpl_debugger

A source-level debugger for DPL programs. It compiles a `.dpl` file, loads the
compiler's source map (statement labels and variable stack slots), resolves the
statement labels in the linked ELF binary, runs the program under ptrace and
offers an interactive prompt (`run`, `continue`, `step`, `break`, `print`,
`locals`, `list`).

Layout:

- `src/` — the verified library (Verus):
  - `source_map.rs` — source map types; nearest statement for a line; variable lookup.
  - `elf_map.rs` — statement labels from the ELF symbol table (parsed with `object`).
  - `breakpoint.rs` — INT3 patching of instruction words and its inverse.
  - `debugger.rs` — the debugger state: address tables, user breakpoints, active
    patches, stop classification, step targets, variable slots, value decoding.
  - `cstring.rs` — word-by-word reading of NUL-terminated strings.
  - `repl.rs` — command parsing, command decisions, event reports, source listings.
  - `cli.rs`, `compiler.rs` — command-line options and compilation artifact names.
  - `text.rs` — character-level string helpers (trim, split, integer parsing, order).
- `app/` — the driver: process control with ptrace, terminal and file I/O, JSON
  loading, invoking the compiler and linker.
- `tests/` — tests of the library.
