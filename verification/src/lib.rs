//! A deterministic interpreter for the classic 16-bit-opcode virtual machine
//! with 4096 bytes of flat memory, sixteen byte registers, a sixteen-frame
//! call stack, a 64x32 monochrome display, a sixteen-key input matrix and two
//! countdown timers.
//!
//! The interpreter state machine lives in [`machine::Emu`]; its full
//! mathematical semantics is given by the spec functions in [`semantics`],
//! and the laws the machine obeys are proved in [`laws`].

pub mod fault;
pub mod font;
pub mod laws;
pub mod machine;
pub mod semantics;
pub mod view;

pub use fault::Fault;
pub use machine::Emu;

use vstd::prelude::*;

verus! {

/// Width of the display in pixels.
pub const SCREEN_W: usize = 64;

/// Height of the display in pixels.
pub const SCREEN_H: usize = 32;

/// Size of the flat memory in bytes.
pub const RAM_SIZE: usize = 4096;

/// Number of general-purpose byte registers.
pub const NUM_REGS: usize = 16;

/// Depth of the call stack.
pub const STACK_SIZE: usize = 16;

/// Number of keys in the input matrix.
pub const NUM_KEYS: usize = 16;

/// Address at which loaded programs begin; the first fetch happens here.
pub const START_ADDR: u16 = 512;

/// Number of bytes of the built-in glyph font, copied to address 0.
pub const FONT_LEN: usize = 80;

/// Largest program that fits between `START_ADDR` and the end of memory.
pub const ROM_CAPACITY: usize = 3584;

} // verus!
