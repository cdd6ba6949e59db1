//! The laws the machine obeys, proved once and for all over the
//! transition semantics.

use vstd::prelude::*;

use crate::fault::Fault;
use crate::font::font_seq;
use crate::semantics::first_pressed;
use crate::semantics::first_pressed_from;
use crate::semantics::nib1;
use crate::semantics::nib2;
use crate::semantics::nib3;
use crate::semantics::nib4;
use crate::semantics::spec_fetch;
use crate::semantics::spec_load;
use crate::semantics::spec_tick;
use crate::semantics::sprite_screen;
use crate::view::MachineView;

verus! {

/// Construction and reset both yield exactly `MachineView::baseline()`:
/// this lemma pins down what that state holds — program counter 512, the
/// glyph font at addresses 0..80, all other memory zero, the display dark,
/// registers, stack, keys and timers cleared, and no program loaded.
pub proof fn lemma_baseline_state()
    ensures
        MachineView::baseline().wf(),
        MachineView::baseline().pc == 512,
        forall|j: int| 0 <= j < 80 ==> MachineView::baseline().ram[j] == font_seq()[j],
        forall|j: int| 80 <= j < 4096 ==> MachineView::baseline().ram[j] == 0u8,
        forall|j: int| 0 <= j < 2048 ==> !MachineView::baseline().screen[j],
        forall|j: int| 0 <= j < 16 ==> MachineView::baseline().v[j] == 0u8,
        forall|j: int| 0 <= j < 16 ==> MachineView::baseline().stack[j] == 0u16,
        forall|j: int| 0 <= j < 16 ==> !MachineView::baseline().keys[j],
        MachineView::baseline().i == 0,
        MachineView::baseline().sp == 0,
        MachineView::baseline().dt == 0,
        MachineView::baseline().st == 0,
        !MachineView::baseline().loaded,
{
}

/// Sprite drawing is self-inverse: drawing the same sprite at the same
/// origin twice in succession restores every pixel to its prior state.
pub proof fn lemma_sprite_self_inverse(
    screen: Seq<bool>,
    ram: Seq<u8>,
    i: int,
    x0: u8,
    y0: u8,
    n: int,
)
    ensures
        sprite_screen(sprite_screen(screen, ram, i, x0, y0, n), ram, i, x0, y0, n) == screen,
{
    let once = sprite_screen(screen, ram, i, x0, y0, n);
    let twice = sprite_screen(once, ram, i, x0, y0, n);
    assert(twice =~= screen);
}

/// Stack safety: a cycle taken from a well-formed state leaves the state
/// well formed with the stack pointer within 0..=16, and a call at depth
/// 16 or a return with no active frame surfaces `StackFault` instead of
/// wrapping.
#[verifier::rlimit(100)]
pub proof fn lemma_stack_safety(s: MachineView, rnd: u8)
    requires
        s.wf(),
    ensures
        spec_tick(s, rnd).1.wf(),
        0 <= spec_tick(s, rnd).1.sp <= 16,
        (match spec_fetch(s) {
            Ok(res) => {
                &&& (nib1(res.0) == 2 && s.sp == 16 ==> spec_tick(s, rnd).0 == Err::<
                    (),
                    Fault,
                >(Fault::StackFault))
                &&& (res.0 == 0x00EE && s.sp == 0 ==> spec_tick(s, rnd).0 == Err::<
                    (),
                    Fault,
                >(Fault::StackFault))
            },
            Err(_) => true,
        }),
{
    assert((0x00EEu16 & 0xF000) >> 12 == 0 && (0x00EEu16 & 0x0F00) >> 8 == 0 && (0x00EEu16
        & 0x00F0) >> 4 == 0xE && (0x00EEu16 & 0x000F) == 0xE) by (bit_vector);
    match spec_fetch(s) {
        Ok(res) => {
            let op = res.0;
            let s1 = res.1;
            assert(s1.wf());
            assert((op & 0xF000) >> 12 < 16 && (op & 0x0F00) >> 8 < 16 && (op & 0x00F0) >> 4 < 16
                && (op & 0x000F) < 16) by (bit_vector);
            assert(nib2(op) < 16);
            match crate::semantics::spec_execute(s1, op, rnd) {
                Ok(s2) => {
                    assert(s2.wf());
                },
                Err(_) => {
                },
            }
        },
        Err(_) => {
        },
    }
}

/// Round trip of loading and fetching: loading a two-byte program into a
/// fresh machine and fetching once yields exactly the big-endian opcode of
/// those bytes, with the program counter advanced to 514.
pub proof fn lemma_load_fetch_round_trip(s: MachineView, b0: u8, b1: u8)
    requires
        s.wf(),
        s.pc == 512,
        !s.loaded,
    ensures
        spec_load(s, seq![b0, b1]) is Ok,
        spec_fetch(spec_load(s, seq![b0, b1])->Ok_0) is Ok,
        spec_fetch(spec_load(s, seq![b0, b1])->Ok_0)->Ok_0.0 == ((b0 as u16) << 8) | (
        b1 as u16),
        spec_fetch(spec_load(s, seq![b0, b1])->Ok_0)->Ok_0.1.pc == 514,
{
    let s1 = spec_load(s, seq![b0, b1])->Ok_0;
    assert(s1.ram[512] == b0);
    assert(s1.ram[513] == b1);
}

/// No key pressed at or above index `k` means no first pressed key from
/// `k` on.
proof fn lemma_first_pressed_from_none(keys: Seq<bool>, k: nat)
    requires
        keys.len() == 16,
        forall|j: int| k <= j < 16 ==> !keys[j],
    ensures
        first_pressed_from(keys, k) == None::<int>,
    decreases 16 - k,
{
    if k < 16 {
        lemma_first_pressed_from_none(keys, k + 1);
    }
}

/// If some key at or above index `k` is pressed, the first pressed key
/// from `k` on exists, is pressed, and no lower key from `k` on is.
proof fn lemma_first_pressed_from_some(keys: Seq<bool>, k: nat)
    requires
        keys.len() == 16,
        exists|j: int| k <= j < 16 && #[trigger] keys[j],
    ensures
        (match first_pressed_from(keys, k) {
            Some(m) => k <= m < 16 && keys[m] && (forall|j: int| k <= j < m ==> !keys[j]),
            None => false,
        }),
    decreases 16 - k,
{
    let j0 = choose|j: int| k <= j < 16 && #[trigger] keys[j];
    if keys[k as int] {
    } else {
        assert(k + 1 <= j0 < 16 && keys[j0]);
        lemma_first_pressed_from_some(keys, k + 1);
    }
}

/// The wait-for-key behaviour: when the fetched instruction is `FX0A` and
/// no key is pressed, the cycle succeeds and leaves the state exactly as
/// it was — repeated ticks make no net progress. As soon as some key is
/// pressed, the cycle stores the lowest pressed key index in VX and the
/// program counter advances normally.
pub proof fn lemma_wait_for_key(s: MachineView, rnd: u8)
    requires
        s.wf(),
        (match spec_fetch(s) {
            Ok(res) => nib1(res.0) == 0xF && nib3(res.0) == 0 && nib4(res.0) == 0xA,
            Err(_) => false,
        }),
    ensures
        (forall|k: int| 0 <= k < 16 ==> !s.keys[k]) ==> spec_tick(s, rnd) == (
            Ok::<(), Fault>(()),
            s,
        ),
        (exists|k: int| 0 <= k < 16 && #[trigger] s.keys[k]) ==> spec_tick(s, rnd).0 == Ok::<
            (),
            Fault,
        >(()) && spec_tick(s, rnd).1 == (MachineView {
            pc: (s.pc + 2) as u16,
            v: s.v.update(nib2(spec_fetch(s)->Ok_0.0) as int, first_pressed(s.keys)->Some_0 as u8),
            ..s
        }),
{
    if forall|k: int| 0 <= k < 16 ==> !s.keys[k] {
        lemma_first_pressed_from_none(s.keys, 0);
        assert(spec_tick(s, rnd).1 =~= s);
    }
    if exists|k: int| 0 <= k < 16 && #[trigger] s.keys[k] {
        lemma_first_pressed_from_some(s.keys, 0);
    }
}

} // verus!
