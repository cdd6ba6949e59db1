//! The mathematical model of the machine state: a ghost record of the
//! fields the interpreter works on, together with its well-formedness
//! condition and the baseline (freshly constructed) state.

use vstd::prelude::*;

use crate::font::font_seq;

verus! {

/// The machine state as mathematics. [`crate::machine::Emu`] views to this
/// record, and the transition semantics in [`crate::semantics`] is stated
/// over it.
#[verifier::ext_equal]
pub ghost struct MachineView {
    /// Program counter: address of the next instruction to fetch.
    pub pc: u16,
    /// The 4096 bytes of flat memory.
    pub ram: Seq<u8>,
    /// The 64x32 display, row-major; `true` is a lit pixel.
    pub screen: Seq<bool>,
    /// The sixteen general-purpose registers V0..VF.
    pub v: Seq<u8>,
    /// The index register I, used as a memory pointer.
    pub i: u16,
    /// Call-stack pointer: number of active frames, 0..=16.
    pub sp: u16,
    /// The sixteen call-stack slots; only those below `sp` are meaningful.
    pub stack: Seq<u16>,
    /// The sixteen key states.
    pub keys: Seq<bool>,
    /// Delay timer, decayed toward zero at the timer cadence.
    pub dt: u8,
    /// Sound timer, decayed toward zero at the timer cadence.
    pub st: u8,
    /// Whether a program has been loaded since construction or reset.
    pub loaded: bool,
}

impl MachineView {
    /// Well-formedness: the fixed array sizes, and the stack pointer within
    /// its sixteen-frame range.
    pub open spec fn wf(self) -> bool {
        &&& self.ram.len() == 4096
        &&& self.screen.len() == 2048
        &&& self.v.len() == 16
        &&& self.stack.len() == 16
        &&& self.keys.len() == 16
        &&& self.sp <= 16
    }

    /// The baseline state: everything zeroed, the font at address 0, and the
    /// program counter at 512. Construction and reset both yield exactly
    /// this state.
    pub open spec fn baseline() -> MachineView {
        MachineView {
            pc: 512,
            ram: Seq::new(4096, |j: int| if 0 <= j < 80 { font_seq()[j] } else { 0u8 }),
            screen: Seq::new(2048, |j: int| false),
            v: Seq::new(16, |j: int| 0u8),
            i: 0,
            sp: 0,
            stack: Seq::new(16, |j: int| 0u16),
            keys: Seq::new(16, |j: int| false),
            dt: 0,
            st: 0,
            loaded: false,
        }
    }
}

} // verus!
