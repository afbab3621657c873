//! The ways a translation can fail.

use vstd::prelude::*;

verus! {

/// A fatal condition; the first one met ends the translation.
#[derive(Debug, Clone, Copy, PartialEq, Eq, Structural)]
pub enum AsmError {
    /// An address instruction carries an integer literal above 32767.
    Overflow,
    /// The computation field of a compute instruction is not a known mnemonic.
    UnknownComputation,
    /// The program needs an address above 32767: an instruction or a label
    /// past the end of the instruction memory, or a variable past the end of
    /// the data memory.
    AddressSpaceExhausted,
}

} // verus!
