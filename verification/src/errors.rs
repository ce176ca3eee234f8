//! The error kinds that the machine can surface. Every failure of a
//! bytecode program is reported as one of these; none is recovered
//! from, the machine halts.

use vstd::prelude::*;

verus! {

/// A fatal condition raised while decoding or executing bytecode.
#[derive(Clone, Copy, Debug, PartialEq, Eq, Structural)]
pub enum VmError {
    /// Fewer bytes remained than a 32-bit decode needed.
    Truncation,
    /// The opcode field held a number outside the assignment.
    BadOpcode,
    /// A pop reached below the bottom of the stack.
    StackUnderflow,
    /// A push or stack write reached past the stack's capacity.
    StackOverflow,
    /// No free block was large enough for an allocation.
    OutOfMemory,
    /// A release lay outside the arena or collided with the free list.
    InvalidFree,
    /// A store landed entirely inside a free block.
    WriteToFreed,
    /// A load reached outside the addressed region.
    OutOfBoundsLoad,
    /// A store reached outside the addressed region.
    OutOfBoundsStore,
    /// An integer division or remainder had divisor zero.
    DivideByZero,
    /// A foreign call named an id missing from the registry.
    FFIUnknown,
    /// A foreign call's arguments did not fit its signature.
    FFIArgument,
}

/// A fault raised while assembling text into bytecode.
#[derive(Clone, Copy, Debug, PartialEq, Eq, Structural)]
pub enum AsmError {
    /// An instruction's tokens ran out before its three fields did.
    MissingToken,
    /// The opcode field was not a number.
    InvalidOpcode,
    /// The operand was neither a number nor a known name.
    UnknownSymbol,
    /// The offset field was not a number.
    InvalidOffset,
    /// A source line carried more than one instruction's fields.
    ExtraToken,
}

} // verus!
