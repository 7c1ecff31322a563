//! A debugger back end for RISC-V (RV32) programs whose execution was
//! captured as a waveform: a cursor that replays the program counter and
//! registers of the capture, the GDB Remote Serial Protocol on both sides
//! (framing, checksums, run-length and hex coding, typed replies), ELF and
//! instruction-window decoding, DWARF line stepping over plain rows, and the
//! interactive commands of the terminal front end.


pub mod hex;
pub mod text;
pub mod packet;
pub mod commands;
pub mod response;
pub mod runtime;
pub mod gdb;
pub mod elf;
pub mod user_commands;
pub mod wavetracker;
pub mod tui_state;
pub mod stepper;
pub mod client;
pub mod signals;

