//! Statement-level debugger core for DPL programs.
//!
//! The crate holds the verified logic of the debugger: the compiler's source
//! map, breakpoint patching, the stop/resume state machine, variable-slot
//! arithmetic, C-string scanning and the command decisions of the REPL.
//! Process control (fork, ptrace, waitpid) and terminal I/O are performed by
//! the driver program, which feeds their results back into these functions.

pub mod breakpoint;
pub mod cli;
pub mod compiler;
pub mod cstring;
pub mod debugger;
pub mod elf_map;
pub mod repl;
pub mod resume;
pub mod source_map;
pub mod text;
