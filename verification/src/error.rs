//! Error taxonomies: fatal contract violations of the trace/commit core, and
//! the execution layer's reportable error enumeration.

use vstd::prelude::*;

verus! {

/// A violation of the core's own contracts. Each of these indicates an
/// unsound trace or a broken protocol order, never bad user input, so callers
/// are expected to abort trace construction when one is returned. Width
/// mismatches are not here: they are programming-contract breaches ruled out
/// by precondition, not reported values.
#[derive(Clone, Copy, PartialEq, Eq, Structural, Debug)]
pub enum TraceError {
    /// A commit/constraint pipeline transition was attempted out of order.
    OrderViolation,
    /// A registered polynomial identity does not vanish on some row.
    ConstraintViolation,
}

/// Errors reported by the execution layer that fills trace rows. These are
/// recoverable `Result` values for the caller of the execution layer; the
/// trace core itself only needs them to decide how many rows were produced.
#[derive(Clone, PartialEq, Eq, Debug)]
pub enum VMError {
    /// Unimplemented syscall: syscall number and program counter.
    UnimplementedSyscall(u32, u32),
    /// Invalid memory layout.
    InvalidMemoryLayout,
    /// The machine has run out of instructions to execute.
    VMOutOfInstructions,
    /// The machine has exited with the given status code.
    VMExited(u32),
    /// Invalid profile label for a cycle counter.
    InvalidProfileLabel(String),
    /// A wrapped memory-subsystem error, carried as its message.
    MemoryError(String),
    /// A wrapped opcode-decoding error, carried as its message.
    OpcodeError(String),
    /// The instruction was not found in the registry.
    InstructionNotFound,
    /// A duplicate opcode/instruction pair was registered; carries the opcode.
    DuplicateInstruction(u32),
    /// Unimplemented instruction with a valid opcode.
    UnimplementedInstruction(u32),
    /// Unimplemented instruction word at a specific program counter.
    UnimplementedInstructionAt(u32, u32),
    /// Unsupported instruction, one with an invalid opcode.
    UnsupportedInstruction(u32),
}

} // verus!
