//! A verified interpreter core for an 8-bit virtual machine: a 4096-byte
//! memory image, sixteen 8-bit registers, a call stack, two countdown timers,
//! a 64x32 monochrome display composited by XOR, and a 35-instruction
//! fetch-decode-execute cycle.

pub mod chip8;
pub mod decompiler;
pub mod laws;
