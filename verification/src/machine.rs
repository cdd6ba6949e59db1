//! The executable interpreter: the machine state and the operations the
//! host drives it with. Every operation is proved to follow the transition
//! semantics of [`crate::semantics`] exactly.

use vstd::prelude::*;

use crate::fault::Fault;
use crate::font::font_bytes;
use crate::font::font_seq;
use crate::semantics::first_pressed;
use crate::semantics::first_pressed_from;
use crate::semantics::nib1;
use crate::semantics::nib2;
use crate::semantics::nib3;
use crate::semantics::nib4;
use crate::semantics::spec_execute;
use crate::semantics::spec_is_random;
use crate::semantics::spec_tick;
use crate::semantics::lemma_collision_congruent;
use crate::semantics::lemma_collision_full;
use crate::semantics::lemma_collision_step;
use crate::semantics::lemma_sprite_step;
use crate::semantics::spec_fetch;
use crate::semantics::spec_load;
use crate::semantics::spec_tick_timers;
use crate::semantics::sprite_collision;
use crate::semantics::sprite_collision_before;
use crate::semantics::sprite_flips;
use crate::semantics::sprite_flips_before;
use crate::semantics::sprite_screen;
use crate::view::MachineView;

verus! {

/// The interpreter. One instance owns the whole machine state; the host
/// drives it with [`Emu::tick`], [`Emu::tick_timers`] and [`Emu::keypress`]
/// and reads the display back with [`Emu::get_display`].
pub struct Emu {
    pc: u16,
    ram: Vec<u8>,
    screen: Vec<bool>,
    v_reg: Vec<u8>,
    i_reg: u16,
    sp: u16,
    stack: Vec<u16>,
    keys: Vec<bool>,
    dt: u8,
    st: u8,
    loaded: bool,
}

impl View for Emu {
    type V = MachineView;

    closed spec fn view(&self) -> MachineView {
        MachineView {
            pc: self.pc,
            ram: self.ram@,
            screen: self.screen@,
            v: self.v_reg@,
            i: self.i_reg,
            sp: self.sp,
            stack: self.stack@,
            keys: self.keys@,
            dt: self.dt,
            st: self.st,
            loaded: self.loaded,
        }
    }
}

/// A vector of `n` copies of `val`.
fn filled<T: Copy>(n: usize, val: T) -> (v: Vec<T>)
    ensures
        v@ == Seq::new(n as nat, |j: int| val),
{
    let mut v: Vec<T> = Vec::new();
    while v.len() < n
        invariant
            v@.len() <= n,
            forall|j: int| 0 <= j < v@.len() ==> v@[j] == val,
        decreases n - v.len(),
    {
        v.push(val);
    }
    proof {
        assert(v@ =~= Seq::new(n as nat, |j: int| val));
    }
    v
}

/// Relies on `rand::random::<u8>` for the byte consumed by the `CXNN`
/// opcode; nothing is assumed of its value.
#[verifier::external_body]
fn random_byte() -> u8 {
    rand::random()
}

impl Emu {
    /// A fresh machine at the baseline state: memory zeroed but for the
    /// glyph font at address 0, program counter at 512, everything else
    /// zero and the display dark.
    pub fn new() -> (r: Emu)
        ensures
            r@ == MachineView::baseline(),
            r@.wf(),
    {
        let mut ram = font_bytes();
        proof {
            assert(font_seq().len() == 80);
        }
        while ram.len() < 4096
            invariant
                80 <= ram@.len() <= 4096,
                forall|j: int| 0 <= j < 80 ==> ram@[j] == font_seq()[j],
                forall|j: int| 80 <= j < ram@.len() ==> ram@[j] == 0u8,
            decreases 4096 - ram.len(),
        {
            ram.push(0u8);
        }
        let r = Emu {
            pc: 512,
            ram,
            screen: filled(2048, false),
            v_reg: filled(16, 0u8),
            i_reg: 0,
            sp: 0,
            stack: filled(16, 0u16),
            keys: filled(16, false),
            dt: 0,
            st: 0,
            loaded: false,
        };
        proof {
            assert(r@.ram =~= MachineView::baseline().ram);
            assert(r@ =~= MachineView::baseline());
        }
        r
    }

    /// Returns the machine to the baseline state in place, discarding all
    /// program state; the result is exactly the state [`Emu::new`] yields.
    pub fn reset(&mut self)
        ensures
            final(self)@ == MachineView::baseline(),
            final(self)@.wf(),
    {
        *self = Emu::new();
    }

    /// Copies a program into memory at address 512. Faults with
    /// `AlreadyLoaded` on a second load without a reset, and with
    /// `MemoryFault` when the program would run past the end of memory; in
    /// either case the state is untouched.
    pub fn load(&mut self, data: &[u8]) -> (r: Result<(), Fault>)
        requires
            old(self)@.wf(),
        ensures
            final(self)@.wf(),
            (match spec_load(old(self)@, data@) {
                Ok(s2) => r == Ok::<(), Fault>(()) && final(self)@ == s2,
                Err(f) => r == Err::<(), Fault>(f) && final(self)@ == old(self)@,
            }),
    {
        if self.loaded {
            return Err(Fault::AlreadyLoaded);
        }
        if data.len() > 3584 {
            return Err(Fault::MemoryFault);
        }
        let len = data.len();
        let mut j: usize = 0;
        while j < len
            invariant
                old(self)@.wf(),
                j <= len,
                len == data@.len() <= 3584,
                self@ == (MachineView { ram: self@.ram, ..old(self)@ }),
                self@.ram.len() == 4096,
                forall|k: int|
                    0 <= k < 4096 ==> self@.ram[k] == (if 512 <= k < 512 + j {
                        data@[k - 512]
                    } else {
                        old(self)@.ram[k]
                    }),
            decreases len - j,
        {
            self.ram.set(512 + j, data[j]);
            j += 1;
        }
        self.loaded = true;
        proof {
            let target = spec_load(old(self)@, data@)->Ok_0;
            assert(self@.ram =~= target.ram);
            assert(self@ =~= target);
        }
        Ok(())
    }

    /// The fetch step: reads the two bytes at the program counter as one
    /// big-endian opcode and advances the counter by 2. Faults with
    /// `MemoryFault`, leaving the state untouched, when the read would
    /// leave memory.
    pub fn fetch(&mut self) -> (r: Result<u16, Fault>)
        requires
            old(self)@.wf(),
        ensures
            final(self)@.wf(),
            (match spec_fetch(old(self)@) {
                Ok(res) => r == Ok::<u16, Fault>(res.0) && final(self)@ == res.1,
                Err(f) => r == Err::<u16, Fault>(f) && final(self)@ == old(self)@,
            }),
    {
        if self.pc < 4095 {
            let hi = self.ram[self.pc as usize];
            let lo = self.ram[self.pc as usize + 1];
            let op: u16 = ((hi as u16) << 8) | (lo as u16);
            self.pc = self.pc + 2;
            proof {
                assert(self@ =~= spec_fetch(old(self)@)->Ok_0.1);
            }
            Ok(op)
        } else {
            Err(Fault::MemoryFault)
        }
    }

    /// Decays each timer by at most one step. The result is the buzzer
    /// signal: it fires exactly when the sound timer goes from 1 to 0 on
    /// this call.
    pub fn tick_timers(&mut self) -> (buzz: bool)
        ensures
            buzz == spec_tick_timers(old(self)@).0,
            final(self)@ == spec_tick_timers(old(self)@).1,
    {
        let buzz = self.st == 1;
        if self.dt > 0 {
            self.dt = self.dt - 1;
        }
        if self.st > 0 {
            self.st = self.st - 1;
        }
        proof {
            assert(self@ =~= spec_tick_timers(old(self)@).1);
        }
        buzz
    }

    /// Sets one key's state; it persists until the host changes it again.
    pub fn keypress(&mut self, idx: usize, pressed: bool)
        requires
            old(self)@.wf(),
            idx < 16,
        ensures
            final(self)@.wf(),
            final(self)@ == (MachineView { keys: old(self)@.keys.update(idx as int, pressed), ..old(self)@ }),
    {
        self.keys.set(idx, pressed);
        proof {
            assert(self@ =~= (MachineView {
                keys: old(self)@.keys.update(idx as int, pressed),
                ..old(self)@
            }));
        }
    }

    /// Read-only view of the 64x32 display, row-major; `true` is a lit
    /// pixel.
    pub fn get_display(&self) -> (r: &Vec<bool>)
        ensures
            r@ == self@.screen,
    {
        &self.screen
    }

    /// One general-purpose register.
    pub fn register(&self, idx: usize) -> (r: u8)
        requires
            self@.wf(),
            idx < 16,
        ensures
            r == self@.v[idx as int],
    {
        self.v_reg[idx]
    }

    /// The program counter.
    pub fn program_counter(&self) -> (r: u16)
        ensures
            r == self@.pc,
    {
        self.pc
    }

    /// The index register I.
    pub fn index_register(&self) -> (r: u16)
        ensures
            r == self@.i,
    {
        self.i_reg
    }

    /// The call-stack pointer: the number of active frames.
    pub fn stack_pointer(&self) -> (r: u16)
        ensures
            r == self@.sp,
    {
        self.sp
    }

    /// The delay timer.
    pub fn delay_timer(&self) -> (r: u8)
        ensures
            r == self@.dt,
    {
        self.dt
    }

    /// The sound timer.
    pub fn sound_timer(&self) -> (r: u8)
        ensures
            r == self@.st,
    {
        self.st
    }

    /// One byte of memory.
    pub fn read_ram(&self, addr: usize) -> (r: u8)
        requires
            self@.wf(),
            addr < 4096,
        ensures
            r == self@.ram[addr as int],
    {
        self.ram[addr]
    }

    /// Pushes a return address; the caller has ruled a full stack out.
    fn push(&mut self, val: u16)
        requires
            old(self)@.wf(),
            old(self)@.sp < 16,
        ensures
            final(self)@ == (MachineView {
                stack: old(self)@.stack.update(old(self)@.sp as int, val),
                sp: (old(self)@.sp + 1) as u16,
                ..old(self)@
            }),
    {
        let sp = self.sp;
        self.stack.set(sp as usize, val);
        self.sp = sp + 1;
        proof {
            assert(self@ =~= (MachineView {
                stack: old(self)@.stack.update(old(self)@.sp as int, val),
                sp: (old(self)@.sp + 1) as u16,
                ..old(self)@
            }));
        }
    }

    /// Pops the topmost return address; the caller has ruled an empty
    /// stack out.
    fn pop(&mut self) -> (r: u16)
        requires
            old(self)@.wf(),
            old(self)@.sp > 0,
        ensures
            r == old(self)@.stack[old(self)@.sp - 1],
            final(self)@ == (MachineView { sp: (old(self)@.sp - 1) as u16, ..old(self)@ }),
    {
        self.sp = self.sp - 1;
        let r = self.stack[self.sp as usize];
        proof {
            assert(self@ =~= (MachineView { sp: (old(self)@.sp - 1) as u16, ..old(self)@ }));
        }
        r
    }

    /// The lowest pressed key index, if any key is pressed; the result is
    /// exactly [`first_pressed`] of the key states.
    fn lowest_pressed(&self) -> (r: Option<u8>)
        requires
            self@.wf(),
        ensures
            (match r {
                Some(k) => k < 16 && first_pressed(self@.keys) == Some(k as int),
                None => first_pressed(self@.keys) == None::<int>,
            }),
    {
        let mut k: usize = 0;
        while k < 16
            invariant
                k <= 16,
                self@.wf(),
                first_pressed(self@.keys) == first_pressed_from(self@.keys, k as nat),
            decreases 16 - k,
        {
            if self.keys[k] {
                proof {
                    assert(first_pressed_from(self@.keys, k as nat) == Some(k as int));
                }
                return Some(k as u8);
            }
            k += 1;
            proof {
                assert(first_pressed_from(self@.keys, (k - 1) as nat) == first_pressed_from(
                    self@.keys,
                    k as nat,
                ));
            }
        }
        None
    }

    /// Draws the `n`-row sprite stored at memory address I with origin
    /// `(x0, y0)`: each set sprite bit toggles its pixel, wrapping at the
    /// screen edges. The result tells whether any lit pixel went dark.
    fn draw_sprite(&mut self, x0: u8, y0: u8, n: u8) -> (flipped: bool)
        requires
            old(self)@.wf(),
            n <= 15,
            n > 0 ==> old(self)@.i + n <= 4096,
        ensures
            final(self)@ == (MachineView {
                screen: sprite_screen(
                    old(self)@.screen,
                    old(self)@.ram,
                    old(self)@.i as int,
                    x0,
                    y0,
                    n as int,
                ),
                ..old(self)@
            }),
            flipped == sprite_collision(
                old(self)@.screen,
                old(self)@.ram,
                old(self)@.i as int,
                x0,
                y0,
                n as int,
            ),
    {
        let ghost s0 = self@;
        let mut flipped = false;
        let mut rr: usize = 0;
        while rr < n as usize
            invariant
                s0.wf(),
                n <= 15,
                rr <= n as int,
                n > 0 ==> s0.i + n <= 4096,
                self@ == (MachineView { screen: self@.screen, ..s0 }),
                self@.screen.len() == 2048,
                forall|p: int|
                    0 <= p < 2048 ==> self@.screen[p] == (s0.screen[p] != sprite_flips_before(
                        s0.ram,
                        s0.i as int,
                        x0,
                        y0,
                        n as int,
                        rr as int,
                        0,
                        p,
                    )),
                flipped == sprite_collision_before(
                    s0.screen,
                    s0.ram,
                    s0.i as int,
                    x0,
                    y0,
                    n as int,
                    rr as int,
                    0,
                ),
            decreases n as int - rr,
        {
            let row_addr: usize = self.i_reg as usize + rr;
            let pixels: u8 = self.ram[row_addr];
            let mut cc: usize = 0;
            while cc < 8
                invariant
                    s0.wf(),
                    n <= 15,
                    rr < n as int,
                    cc <= 8,
                    s0.i + n <= 4096,
                    pixels == s0.ram[s0.i as int + rr as int],
                    self@ == (MachineView { screen: self@.screen, ..s0 }),
                    self@.screen.len() == 2048,
                    forall|p: int|
                        0 <= p < 2048 ==> self@.screen[p] == (s0.screen[p] != sprite_flips_before(
                            s0.ram,
                            s0.i as int,
                            x0,
                            y0,
                            n as int,
                            rr as int,
                            cc as int,
                            p,
                        )),
                    flipped == sprite_collision_before(
                        s0.screen,
                        s0.ram,
                        s0.i as int,
                        x0,
                        y0,
                        n as int,
                        rr as int,
                        cc as int,
                    ),
                decreases 8 - cc,
            {
                proof {
                    lemma_sprite_step(s0.ram, s0.i as int, x0, y0, n as int, rr as int, cc as int);
                    lemma_collision_step(
                        s0.screen,
                        s0.ram,
                        s0.i as int,
                        x0,
                        y0,
                        n as int,
                        rr as int,
                        cc as int,
                    );
                }
                let sh: u8 = (7 - cc) as u8;
                let bit: u8 = (pixels >> sh) & 1;
                let x: usize = (x0 as usize + cc) % 64;
                let y: usize = (y0 as usize + rr) % 32;
                let idx: usize = x + y * 64;
                if bit == 1 {
                    let cur: bool = self.screen[idx];
                    if cur {
                        flipped = true;
                    }
                    self.screen.set(idx, !cur);
                }
                cc += 1;
            }
            rr += 1;
            proof {
                assert forall|p: int| 0 <= p < 2048 implies sprite_flips_before(
                    s0.ram,
                    s0.i as int,
                    x0,
                    y0,
                    n as int,
                    rr - 1,
                    8,
                    p,
                ) == sprite_flips_before(
                    s0.ram,
                    s0.i as int,
                    x0,
                    y0,
                    n as int,
                    rr as int,
                    0,
                    p,
                ) by {}
                lemma_collision_congruent(
                    s0.screen,
                    s0.ram,
                    s0.i as int,
                    x0,
                    y0,
                    n as int,
                    rr - 1,
                    8,
                    rr as int,
                    0,
                );
            }
        }
        proof {
            assert forall|p: int| 0 <= p < 2048 implies sprite_flips_before(
                s0.ram,
                s0.i as int,
                x0,
                y0,
                n as int,
                n as int,
                0,
                p,
            ) == sprite_flips(s0.ram, s0.i as int, x0, y0, n as int, p) by {}
            lemma_collision_full(s0.screen, s0.ram, s0.i as int, x0, y0, n as int);
            assert(self@.screen =~= sprite_screen(
                s0.screen,
                s0.ram,
                s0.i as int,
                x0,
                y0,
                n as int,
            ));
            assert(self@ =~= (MachineView {
                screen: sprite_screen(s0.screen, s0.ram, s0.i as int, x0, y0, n as int),
                ..s0
            }));
        }
        flipped
    }

    /// Executes one already-fetched instruction per the opcode semantics
    /// table, with `rnd` the fresh random byte the `CXNN` opcode consumes.
    /// The program counter has been advanced past the instruction by the
    /// fetch, which is what the bounds in `requires` record. On a fault
    /// the state is left untouched.
    pub fn execute(&mut self, op: u16, rnd: u8) -> (r: Result<(), Fault>)
        requires
            old(self)@.wf(),
            2 <= old(self)@.pc <= 4096,
        ensures
            final(self)@.wf(),
            (match spec_execute(old(self)@, op, rnd) {
                Ok(s2) => r == Ok::<(), Fault>(()) && final(self)@ == s2,
                Err(f) => r == Err::<(), Fault>(f) && final(self)@ == old(self)@,
            }),
    {
        let ghost s0 = self@;
        let d1: u16 = (op & 0xF000) >> 12;
        let d2: u16 = (op & 0x0F00) >> 8;
        let d3: u16 = (op & 0x00F0) >> 4;
        let d4: u16 = op & 0x000F;
        proof {
            assert((op & 0xF000) >> 12 < 16 && (op & 0x0F00) >> 8 < 16 && (op & 0x00F0) >> 4 < 16
                && (op & 0x000F) < 16 && (op & 0x00FF) < 256 && (op & 0x0FFF) < 4096) by (bit_vector);
            assert(d1 == nib1(op) && d2 == nib2(op) && d3 == nib3(op) && d4 == nib4(op));
        }
        match (d1, d2, d3, d4) {
            // 0000: no-op
            (0, 0, 0, 0) => {
                proof {
                    assert(self@ == spec_execute(s0, op, rnd)->Ok_0);
                }
                Ok(())
            },
            // 00E0: clear display
            (0, 0, 0xE, 0) => {
                let mut p: usize = 0;
                while p < 2048
                    invariant
                        p <= 2048,
                        self@ == (MachineView { screen: self@.screen, ..s0 }),
                        self@.screen.len() == 2048,
                        forall|q: int| 0 <= q < p ==> !self@.screen[q],
                    decreases 2048 - p,
                {
                    self.screen.set(p, false);
                    p += 1;
                }
                proof {
                    assert(self@.screen =~= Seq::new(2048, |q: int| false));
                    assert(self@ =~= spec_execute(s0, op, rnd)->Ok_0);
                }
                Ok(())
            },
            // 00EE: pop return address into the program counter
            (0, 0, 0xE, 0xE) => {
                if self.sp == 0 {
                    return Err(Fault::StackFault);
                }
                let addr = self.pop();
                self.pc = addr;
                proof {
                    assert(self@ =~= spec_execute(s0, op, rnd)->Ok_0);
                }
                Ok(())
            },
            // 1NNN: jump
            (1, _, _, _) => {
                self.pc = op & 0x0FFF;
                proof {
                    assert(self@ =~= spec_execute(s0, op, rnd)->Ok_0);
                }
                Ok(())
            },
            // 2NNN: call
            (2, _, _, _) => {
                if self.sp == 16 {
                    return Err(Fault::StackFault);
                }
                let pc = self.pc;
                self.push(pc);
                self.pc = op & 0x0FFF;
                proof {
                    assert(self@ =~= spec_execute(s0, op, rnd)->Ok_0);
                }
                Ok(())
            },
            // 3XNN: skip if VX == NN
            (3, _, _, _) => {
                let nn: u8 = (op & 0x00FF) as u8;
                if self.v_reg[d2 as usize] == nn {
                    self.pc = self.pc + 2;
                }
                proof {
                    assert(self@ =~= spec_execute(s0, op, rnd)->Ok_0);
                }
                Ok(())
            },
            // 4XNN: skip if VX != NN
            (4, _, _, _) => {
                let nn: u8 = (op & 0x00FF) as u8;
                if self.v_reg[d2 as usize] != nn {
                    self.pc = self.pc + 2;
                }
                proof {
                    assert(self@ =~= spec_execute(s0, op, rnd)->Ok_0);
                }
                Ok(())
            },
            // 5XY0: skip if VX == VY
            (5, _, _, 0) => {
                if self.v_reg[d2 as usize] == self.v_reg[d3 as usize] {
                    self.pc = self.pc + 2;
                }
                proof {
                    assert(self@ =~= spec_execute(s0, op, rnd)->Ok_0);
                }
                Ok(())
            },
            // 6XNN: VX = NN
            (6, _, _, _) => {
                let nn: u8 = (op & 0x00FF) as u8;
                self.v_reg.set(d2 as usize, nn);
                proof {
                    assert(self@ =~= spec_execute(s0, op, rnd)->Ok_0);
                }
                Ok(())
            },
            // 7XNN: VX += NN, wrapping, no flag
            (7, _, _, _) => {
                let nn: u8 = (op & 0x00FF) as u8;
                let vx = self.v_reg[d2 as usize];
                let sum: u16 = vx as u16 + nn as u16;
                self.v_reg.set(d2 as usize, (sum % 256) as u8);
                proof {
                    assert(self@ =~= spec_execute(s0, op, rnd)->Ok_0);
                }
                Ok(())
            },
            // 8XY0: VX = VY
            (8, _, _, 0) => {
                let vy = self.v_reg[d3 as usize];
                self.v_reg.set(d2 as usize, vy);
                proof {
                    assert(self@ =~= spec_execute(s0, op, rnd)->Ok_0);
                }
                Ok(())
            },
            // 8XY1: VX |= VY
            (8, _, _, 1) => {
                let vx = self.v_reg[d2 as usize];
                let vy = self.v_reg[d3 as usize];
                self.v_reg.set(d2 as usize, vx | vy);
                proof {
                    assert(self@ =~= spec_execute(s0, op, rnd)->Ok_0);
                }
                Ok(())
            },
            // 8XY2: VX &= VY
            (8, _, _, 2) => {
                let vx = self.v_reg[d2 as usize];
                let vy = self.v_reg[d3 as usize];
                self.v_reg.set(d2 as usize, vx & vy);
                proof {
                    assert(self@ =~= spec_execute(s0, op, rnd)->Ok_0);
                }
                Ok(())
            },
            // 8XY3: VX ^= VY
            (8, _, _, 3) => {
                let vx = self.v_reg[d2 as usize];
                let vy = self.v_reg[d3 as usize];
                self.v_reg.set(d2 as usize, vx ^ vy);
                proof {
                    assert(self@ =~= spec_execute(s0, op, rnd)->Ok_0);
                }
                Ok(())
            },
            // 8XY4: VX += VY wrapping; VF = carry
            (8, _, _, 4) => {
                let vx = self.v_reg[d2 as usize];
                let vy = self.v_reg[d3 as usize];
                let sum: u16 = vx as u16 + vy as u16;
                let vf: u8 = if sum > 255 {
                    1
                } else {
                    0
                };
                self.v_reg.set(d2 as usize, (sum % 256) as u8);
                self.v_reg.set(15, vf);
                proof {
                    assert(self@ =~= spec_execute(s0, op, rnd)->Ok_0);
                }
                Ok(())
            },
            // 8XY5: VX -= VY wrapping; VF = 0 on borrow else 1
            (8, _, _, 5) => {
                let vx = self.v_reg[d2 as usize];
                let vy = self.v_reg[d3 as usize];
                let vf: u8 = if vx < vy {
                    0
                } else {
                    1
                };
                let diff: u16 = 256 + vx as u16 - vy as u16;
                self.v_reg.set(d2 as usize, (diff % 256) as u8);
                self.v_reg.set(15, vf);
                proof {
                    assert(self@ =~= spec_execute(s0, op, rnd)->Ok_0);
                }
                Ok(())
            },
            // 8X_6: VF = lsb of VX; VX >>= 1
            (8, _, _, 6) => {
                let vx = self.v_reg[d2 as usize];
                self.v_reg.set(d2 as usize, vx >> 1);
                self.v_reg.set(15, vx & 1);
                proof {
                    assert(self@ =~= spec_execute(s0, op, rnd)->Ok_0);
                }
                Ok(())
            },
            // 8XY7: VX = VY - VX wrapping; VF = 0 on borrow else 1
            (8, _, _, 7) => {
                let vx = self.v_reg[d2 as usize];
                let vy = self.v_reg[d3 as usize];
                let vf: u8 = if vy < vx {
                    0
                } else {
                    1
                };
                let diff: u16 = 256 + vy as u16 - vx as u16;
                self.v_reg.set(d2 as usize, (diff % 256) as u8);
                self.v_reg.set(15, vf);
                proof {
                    assert(self@ =~= spec_execute(s0, op, rnd)->Ok_0);
                }
                Ok(())
            },
            // 8X_E: VF = msb of VX; VX <<= 1 wrapping
            (8, _, _, 0xE) => {
                let vx = self.v_reg[d2 as usize];
                let doubled: u16 = vx as u16 * 2;
                self.v_reg.set(d2 as usize, (doubled % 256) as u8);
                self.v_reg.set(15, (vx >> 7) & 1);
                proof {
                    assert(self@ =~= spec_execute(s0, op, rnd)->Ok_0);
                }
                Ok(())
            },
            // 9XY0: skip if VX != VY
            (9, _, _, 0) => {
                if self.v_reg[d2 as usize] != self.v_reg[d3 as usize] {
                    self.pc = self.pc + 2;
                }
                proof {
                    assert(self@ =~= spec_execute(s0, op, rnd)->Ok_0);
                }
                Ok(())
            },
            // ANNN: I = NNN
            (0xA, _, _, _) => {
                self.i_reg = op & 0x0FFF;
                proof {
                    assert(self@ =~= spec_execute(s0, op, rnd)->Ok_0);
                }
                Ok(())
            },
            // BNNN: jump to V0 + NNN
            (0xB, _, _, _) => {
                let target: u16 = self.v_reg[0] as u16 + (op & 0x0FFF);
                self.pc = target;
                proof {
                    assert(self@ =~= spec_execute(s0, op, rnd)->Ok_0);
                }
                Ok(())
            },
            // CXNN: VX = random byte & NN
            (0xC, _, _, _) => {
                let nn: u8 = (op & 0x00FF) as u8;
                self.v_reg.set(d2 as usize, rnd & nn);
                proof {
                    assert(self@ =~= spec_execute(s0, op, rnd)->Ok_0);
                }
                Ok(())
            },
            // DXYN: draw sprite; VF = collision
            (0xD, _, _, _) => {
                if d4 > 0 && self.i_reg as usize + d4 as usize > 4096 {
                    return Err(Fault::MemoryFault);
                }
                let x0 = self.v_reg[d2 as usize];
                let y0 = self.v_reg[d3 as usize];
                let flipped = self.draw_sprite(x0, y0, d4 as u8);
                let vf: u8 = if flipped {
                    1
                } else {
                    0
                };
                self.v_reg.set(15, vf);
                proof {
                    assert(self@ =~= spec_execute(s0, op, rnd)->Ok_0);
                }
                Ok(())
            },
            // EX9E: skip if key VX pressed
            (0xE, _, 9, 0xE) => {
                let vx = self.v_reg[d2 as usize];
                if vx >= 16 {
                    return Err(Fault::MemoryFault);
                }
                if self.keys[vx as usize] {
                    self.pc = self.pc + 2;
                }
                proof {
                    assert(self@ =~= spec_execute(s0, op, rnd)->Ok_0);
                }
                Ok(())
            },
            // EXA1: skip if key VX not pressed
            (0xE, _, 0xA, 1) => {
                let vx = self.v_reg[d2 as usize];
                if vx >= 16 {
                    return Err(Fault::MemoryFault);
                }
                if !self.keys[vx as usize] {
                    self.pc = self.pc + 2;
                }
                proof {
                    assert(self@ =~= spec_execute(s0, op, rnd)->Ok_0);
                }
                Ok(())
            },
            // FX07: VX = delay timer
            (0xF, _, 0, 7) => {
                let dt = self.dt;
                self.v_reg.set(d2 as usize, dt);
                proof {
                    assert(self@ =~= spec_execute(s0, op, rnd)->Ok_0);
                }
                Ok(())
            },
            // FX0A: wait for key
            (0xF, _, 0, 0xA) => {
                match self.lowest_pressed() {
                    Some(k) => {
                        self.v_reg.set(d2 as usize, k);
                    },
                    None => {
                        self.pc = self.pc - 2;
                    },
                }
                proof {
                    assert(self@ =~= spec_execute(s0, op, rnd)->Ok_0);
                }
                Ok(())
            },
            // FX15: delay timer = VX
            (0xF, _, 1, 5) => {
                self.dt = self.v_reg[d2 as usize];
                proof {
                    assert(self@ =~= spec_execute(s0, op, rnd)->Ok_0);
                }
                Ok(())
            },
            // FX18: sound timer = VX
            (0xF, _, 1, 8) => {
                self.st = self.v_reg[d2 as usize];
                proof {
                    assert(self@ =~= spec_execute(s0, op, rnd)->Ok_0);
                }
                Ok(())
            },
            // FX1E: I += VX, wrapping
            (0xF, _, 1, 0xE) => {
                let sum: u32 = self.i_reg as u32 + self.v_reg[d2 as usize] as u32;
                self.i_reg = (sum % 65536) as u16;
                proof {
                    assert(self@ =~= spec_execute(s0, op, rnd)->Ok_0);
                }
                Ok(())
            },
            // FX29: I = glyph address of digit VX
            (0xF, _, 2, 9) => {
                self.i_reg = self.v_reg[d2 as usize] as u16 * 5;
                proof {
                    assert(self@ =~= spec_execute(s0, op, rnd)->Ok_0);
                }
                Ok(())
            },
            // FX33: decimal digits of VX to memory at I
            (0xF, _, 3, 3) => {
                if self.i_reg as usize + 2 >= 4096 {
                    return Err(Fault::MemoryFault);
                }
                let vx = self.v_reg[d2 as usize];
                let i = self.i_reg as usize;
                self.ram.set(i, vx / 100);
                self.ram.set(i + 1, (vx / 10) % 10);
                self.ram.set(i + 2, vx % 10);
                proof {
                    assert(self@ =~= spec_execute(s0, op, rnd)->Ok_0);
                }
                Ok(())
            },
            // FX55: store V0..=VX to memory at I
            (0xF, _, 5, 5) => {
                let x = d2 as usize;
                if self.i_reg as usize + x >= 4096 {
                    return Err(Fault::MemoryFault);
                }
                let i = self.i_reg as usize;
                let mut k: usize = 0;
                while k <= x
                    invariant
                        x < 16,
                        k <= x + 1,
                        i + x < 4096,
                        i == s0.i as int,
                        s0.wf(),
                        self@ == (MachineView { ram: self@.ram, ..s0 }),
                        self@.ram.len() == 4096,
                        forall|j: int|
                            0 <= j < 4096 ==> self@.ram[j] == (if i <= j < i + k {
                                s0.v[j - i]
                            } else {
                                s0.ram[j]
                            }),
                    decreases x + 1 - k,
                {
                    let b = self.v_reg[k];
                    self.ram.set(i + k, b);
                    k += 1;
                }
                proof {
                    assert(self@.ram =~= spec_execute(s0, op, rnd)->Ok_0.ram);
                    assert(self@ =~= spec_execute(s0, op, rnd)->Ok_0);
                }
                Ok(())
            },
            // FX65: load V0..=VX from memory at I
            (0xF, _, 6, 5) => {
                let x = d2 as usize;
                if self.i_reg as usize + x >= 4096 {
                    return Err(Fault::MemoryFault);
                }
                let i = self.i_reg as usize;
                let mut k: usize = 0;
                while k <= x
                    invariant
                        x < 16,
                        k <= x + 1,
                        i + x < 4096,
                        i == s0.i as int,
                        s0.wf(),
                        self@ == (MachineView { v: self@.v, ..s0 }),
                        self@.v.len() == 16,
                        forall|j: int|
                            0 <= j < 16 ==> self@.v[j] == (if 0 <= j < k {
                                s0.ram[i + j]
                            } else {
                                s0.v[j]
                            }),
                    decreases x + 1 - k,
                {
                    let b = self.ram[i + k];
                    self.v_reg.set(k, b);
                    k += 1;
                }
                proof {
                    assert(self@.v =~= spec_execute(s0, op, rnd)->Ok_0.v);
                    assert(self@ =~= spec_execute(s0, op, rnd)->Ok_0);
                }
                Ok(())
            },
            // any other pattern: unrecognized opcode
            (_, _, _, _) => Err(Fault::InvalidOpcode(op)),
        }
    }

    /// One full instruction cycle: fetch one opcode at the program counter
    /// and execute it. For every instruction but the random `CXNN` the
    /// outcome is the deterministic [`spec_tick`] at `rnd == 0`; for
    /// `CXNN` it is [`spec_tick`] at whatever byte the random source gave.
    pub fn tick(&mut self) -> (r: Result<(), Fault>)
        requires
            old(self)@.wf(),
        ensures
            final(self)@.wf(),
            exists|rnd: u8| #[trigger] spec_tick(old(self)@, rnd) == (r, final(self)@),
            !spec_is_random(old(self)@) ==> spec_tick(old(self)@, 0) == (r, final(self)@),
    {
        let fetched = self.fetch();
        let op = match fetched {
            Ok(op) => op,
            Err(f) => {
                proof {
                    assert(spec_tick(old(self)@, 0) == (Err::<(), Fault>(f), self@));
                }
                return Err(f);
            },
        };
        let d1: u16 = (op & 0xF000) >> 12;
        proof {
            assert(d1 == nib1(op));
        }
        let rnd: u8 = if d1 == 0xC {
            random_byte()
        } else {
            0
        };
        let r = self.execute(op, rnd);
        proof {
            assert(spec_tick(old(self)@, rnd) == (r, self@));
        }
        r
    }
}

} // verus!
