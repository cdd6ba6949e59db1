//! The fatal conditions that halt interpretation.

use vstd::prelude::*;

verus! {

/// A fatal interpreter condition. Every fault is reported as an explicit
/// result value; the machine never panics and never wraps silently.
#[derive(Clone, Copy, Debug, PartialEq, Eq, Structural)]
pub enum Fault {
    /// A fetch, read or write outside the 4096-byte memory, or a key index
    /// outside 0..16 taken from a register.
    MemoryFault,
    /// A push at call depth 16, or a pop with no active frame.
    StackFault,
    /// An opcode whose nibble pattern matches no entry of the semantics
    /// table; the offending opcode is carried along.
    InvalidOpcode(u16),
    /// A second program load into a machine that already holds one.
    AlreadyLoaded,
}

} // verus!
