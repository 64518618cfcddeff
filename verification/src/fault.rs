use vstd::prelude::*;

verus! {

/// The kinds of faults the interpreter reports: a ROM that does not fit
/// between the load address and the end of memory, and the runtime faults
/// of the fetch-decode-execute cycle.
#[derive(Clone, Copy, Debug, PartialEq, Eq, Structural)]
pub enum FaultKind {
    /// The ROM handed to `load_rom` does not fit below the end of memory.
    RomTooLarge,
    /// The fetched 16-bit word is not an instruction of the machine.
    UnknownOpcode,
    /// A seventeenth return address was pushed onto the call stack.
    StackOverflow,
    /// A return was executed with an empty call stack.
    StackUnderflow,
    /// A memory access outside the 4096-byte address space.
    OutOfBoundsAddress,
}

/// A fault, together with the program counter of the instruction that
/// caused it. The machine state is left intact: after a faulting cycle the
/// program counter still points at the faulting instruction.
#[derive(Clone, Copy, Debug, PartialEq, Eq, Structural)]
pub struct Fault {
    pub kind: FaultKind,
    pub pc: u16,
}

} // verus!
