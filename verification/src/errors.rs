use vstd::prelude::*;

verus! {

/// Faults that a machine step surfaces to its driver. Every fault is
/// step-local: the failing step leaves registers, memory and display
/// untouched, so the driver may halt, reset or report as it sees fit.
#[derive(Clone, Copy, Debug, PartialEq, Eq, Structural)]
pub enum Chip8Error {
    /// The program counter, or a memory address the current instruction
    /// touches, is at or beyond the last addressable byte.
    OutOfBounds,
    /// A return was executed with an empty call stack; carries the program
    /// counter of the offending return instruction.
    StackUnderflow(u16),
    /// The fetched word matched no opcode family; carries the word and the
    /// program counter it was fetched from.
    UnsupportedInstruction(u16, u16),
    /// A program larger than the memory above the reserved region was
    /// handed to the loader.
    RomTooLarge,
}

} // verus!
