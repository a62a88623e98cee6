//! A verified interpreter core for an 8-bit fantasy machine: fixed memory
//! with a built-in glyph table, a monochrome XOR-blit display, a 16-key
//! input latch, a pair of countdown timers, and the fetch-decode-execute
//! engine that drives them.

pub mod chip8;
pub mod cpu;
pub mod display;
pub mod errors;
pub mod input;
pub mod ram;
pub mod timers;
