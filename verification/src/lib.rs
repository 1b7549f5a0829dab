//! A verified CHIP-8 interpreter: a fetch-decode-execute engine for the
//! classic 8-bit byte-code instruction set, with its memory, registers,
//! stack, timers, display and keypad state, plus a small disassembler.

pub mod chip8;
pub mod disassembler;
pub mod laws;
pub mod machine;
