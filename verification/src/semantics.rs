//! The transition semantics of the machine, as spec functions over
//! [`MachineView`]: opcode decoding, the fetch step, the full opcode
//! semantics table, the sprite-drawing function, program loading and timer
//! decay. The executable interpreter in [`crate::machine`] is proved to
//! follow these functions exactly.

use vstd::prelude::*;

use crate::fault::Fault;
use crate::view::MachineView;

verus! {

// ---------------------------------------------------------------------------
// Opcode decoding
// ---------------------------------------------------------------------------

/// First (most significant) nibble: the operation family.
pub open spec fn nib1(op: u16) -> u16 {
    (op & 0xF000) >> 12
}

/// Second nibble: the register-X index.
pub open spec fn nib2(op: u16) -> u16 {
    (op & 0x0F00) >> 8
}

/// Third nibble: the register-Y index or a sub-opcode.
pub open spec fn nib3(op: u16) -> u16 {
    (op & 0x00F0) >> 4
}

/// Fourth nibble: the final sub-opcode or immediate nibble.
pub open spec fn nib4(op: u16) -> u16 {
    op & 0x000F
}

/// The 12-bit address immediate `NNN`.
pub open spec fn addr_of(op: u16) -> u16 {
    op & 0x0FFF
}

/// The 8-bit immediate `NN`.
pub open spec fn imm_of(op: u16) -> u8 {
    (op & 0x00FF) as u8
}

// ---------------------------------------------------------------------------
// Sprite drawing
// ---------------------------------------------------------------------------

/// Bit `c` of a sprite row byte, counting the most significant bit as
/// column 0 (the leftmost pixel).
pub open spec fn sprite_bit(b: u8, c: int) -> bool {
    ((b >> ((7 - c) as u8)) & 1) == 1
}

/// The sprite column that covers pixel column `px` when the sprite origin
/// column is `x0`: the unique `c` in 0..64 with `(x0 + c) % 64 == px`.
/// The pixel is inside the eight-pixel-wide sprite exactly when the result
/// is below 8.
pub open spec fn px_col(x0: u8, px: int) -> int {
    (px + 256 - x0) % 64
}

/// The sprite row that covers pixel row `py` when the sprite origin row is
/// `y0`: the unique `r` in 0..32 with `(y0 + r) % 32 == py`.
pub open spec fn px_row(y0: u8, py: int) -> int {
    (py + 256 - y0) % 32
}

/// Whether a draw of the `n`-row sprite at memory address `i` with origin
/// `(x0, y0)` toggles pixel `p` of the row-major display. Each axis wraps
/// independently, and since a sprite is at most 8 wide and 15 tall, no two
/// sprite bits land on the same pixel.
pub open spec fn sprite_flips(ram: Seq<u8>, i: int, x0: u8, y0: u8, n: int, p: int) -> bool {
    let c = px_col(x0, p % 64);
    let r = px_row(y0, p / 64);
    c < 8 && r < n && sprite_bit(ram[i + r], c)
}

/// As [`sprite_flips`], restricted to the sprite bits processed before
/// row `rows`, column `cols` in row-major draw order. With `rows == n` it
/// coincides with [`sprite_flips`].
pub open spec fn sprite_flips_before(
    ram: Seq<u8>,
    i: int,
    x0: u8,
    y0: u8,
    n: int,
    rows: int,
    cols: int,
    p: int,
) -> bool {
    let c = px_col(x0, p % 64);
    let r = px_row(y0, p / 64);
    c < 8 && r < n && (r < rows || (r == rows && c < cols)) && sprite_bit(ram[i + r], c)
}

/// The display after drawing the sprite: every covered pixel whose sprite
/// bit is set is toggled, every other pixel keeps its state.
pub open spec fn sprite_screen(
    screen: Seq<bool>,
    ram: Seq<u8>,
    i: int,
    x0: u8,
    y0: u8,
    n: int,
) -> Seq<bool> {
    Seq::new(screen.len(), |p: int| screen[p] != sprite_flips(ram, i, x0, y0, n, p))
}

/// Whether the draw turns any lit pixel off: the collision indicator
/// reported in VF.
pub open spec fn sprite_collision(
    screen: Seq<bool>,
    ram: Seq<u8>,
    i: int,
    x0: u8,
    y0: u8,
    n: int,
) -> bool {
    exists|p: int|
        0 <= p < screen.len() && screen[p] && #[trigger] sprite_flips(ram, i, x0, y0, n, p)
}

/// As [`sprite_collision`], restricted to the sprite bits processed before
/// row `rows`, column `cols` in row-major draw order.
pub open spec fn sprite_collision_before(
    screen: Seq<bool>,
    ram: Seq<u8>,
    i: int,
    x0: u8,
    y0: u8,
    n: int,
    rows: int,
    cols: int,
) -> bool {
    exists|p: int|
        0 <= p < screen.len() && screen[p] && #[trigger] sprite_flips_before(
            ram,
            i,
            x0,
            y0,
            n,
            rows,
            cols,
            p,
        )
}

/// The sprite column covering the wrapped pixel column `(x0 + c) % 64` is
/// `c` itself.
proof fn lemma_wrap_col(x0: u8, c: int)
    requires
        0 <= c < 64,
    ensures
        px_col(x0, (x0 + c) % 64) == c,
{
    let a = x0 + c;
    vstd::arithmetic::div_mod::lemma_fundamental_div_mod(a, 64);
    let q = a / 64;
    assert(a % 64 + 256 - x0 == 64 * (4 - q) + c);
    vstd::arithmetic::div_mod::lemma_mod_multiples_vanish(4 - q, c, 64);
    vstd::arithmetic::div_mod::lemma_small_mod(c as nat, 64 as nat);
}

/// The sprite row covering the wrapped pixel row `(y0 + r) % 32` is `r`
/// itself.
proof fn lemma_wrap_row(y0: u8, r: int)
    requires
        0 <= r < 32,
    ensures
        px_row(y0, (y0 + r) % 32) == r,
{
    let a = y0 + r;
    vstd::arithmetic::div_mod::lemma_fundamental_div_mod(a, 32);
    let q = a / 32;
    assert(a % 32 + 256 - y0 == 32 * (8 - q) + r);
    vstd::arithmetic::div_mod::lemma_mod_multiples_vanish(8 - q, r, 32);
    vstd::arithmetic::div_mod::lemma_small_mod(r as nat, 32 as nat);
}

/// A pixel whose covering sprite column and row are `c` and `r` is exactly
/// the pixel the draw touches at step `(r, c)`: no two sprite bits share a
/// pixel.
proof fn lemma_pixel_unique(x0: u8, y0: u8, c: int, r: int, p: int)
    requires
        0 <= p < 2048,
        0 <= c < 8,
        0 <= r < 32,
        px_col(x0, p % 64) == c,
        px_row(y0, p / 64) == r,
    ensures
        p == (x0 + c) % 64 + ((y0 + r) % 32) * 64,
{
    let px = p % 64;
    let py = p / 64;
    vstd::arithmetic::div_mod::lemma_fundamental_div_mod(p, 64);
    assert(0 <= px < 64);
    assert(0 <= py < 32);
    let t = px + 256 - x0;
    vstd::arithmetic::div_mod::lemma_fundamental_div_mod(t, 64);
    let k = t / 64;
    assert(x0 + c == 64 * (4 - k) + px);
    vstd::arithmetic::div_mod::lemma_mod_multiples_vanish(4 - k, px, 64);
    vstd::arithmetic::div_mod::lemma_small_mod(px as nat, 64 as nat);
    assert((x0 + c) % 64 == px);
    let u = py + 256 - y0;
    vstd::arithmetic::div_mod::lemma_fundamental_div_mod(u, 32);
    let m = u / 32;
    assert(y0 + r == 32 * (8 - m) + py);
    vstd::arithmetic::div_mod::lemma_mod_multiples_vanish(8 - m, py, 32);
    vstd::arithmetic::div_mod::lemma_small_mod(py as nat, 32 as nat);
    assert((y0 + r) % 32 == py);
}

/// One draw step: processing sprite bit `(r, c)` touches exactly the pixel
/// `(x0 + c) % 64 + ((y0 + r) % 32) * 64`, leaves every other pixel's
/// flip status as it was, and flips that pixel exactly when the bit is set.
pub(crate) proof fn lemma_sprite_step(
    ram: Seq<u8>,
    i: int,
    x0: u8,
    y0: u8,
    n: int,
    r: int,
    c: int,
)
    requires
        0 <= r < n <= 15,
        0 <= c < 8,
    ensures
        ({
            let idx = (x0 + c) % 64 + ((y0 + r) % 32) * 64;
            &&& 0 <= idx < 2048
            &&& px_col(x0, idx % 64) == c
            &&& px_row(y0, idx / 64) == r
            &&& !sprite_flips_before(ram, i, x0, y0, n, r, c, idx)
            &&& sprite_flips_before(ram, i, x0, y0, n, r, c + 1, idx) == sprite_bit(
                ram[i + r],
                c,
            )
            &&& forall|p: int|
                0 <= p < 2048 && p != idx ==> sprite_flips_before(ram, i, x0, y0, n, r, c + 1, p)
                    == sprite_flips_before(ram, i, x0, y0, n, r, c, p)
        }),
{
    let x = (x0 + c) % 64;
    let y = (y0 + r) % 32;
    let idx = x + y * 64;
    assert(0 <= x < 64);
    assert(0 <= y < 32);
    vstd::arithmetic::div_mod::lemma_fundamental_div_mod_converse(idx, 64, y, x);
    lemma_wrap_col(x0, c);
    lemma_wrap_row(y0, r);
    assert forall|p: int|
        0 <= p < 2048 && p != idx implies sprite_flips_before(ram, i, x0, y0, n, r, c + 1, p)
        == sprite_flips_before(ram, i, x0, y0, n, r, c, p) by {
        let pcc = px_col(x0, p % 64);
        let prr = px_row(y0, p / 64);
        if prr == r && pcc == c {
            lemma_pixel_unique(x0, y0, c, r, p);
        }
    }
}

/// One draw step of the collision flag: after processing bit `(r, c)`, a
/// collision has happened among the processed bits exactly when one had
/// happened before, or this bit is set and its pixel was lit.
pub(crate) proof fn lemma_collision_step(
    screen: Seq<bool>,
    ram: Seq<u8>,
    i: int,
    x0: u8,
    y0: u8,
    n: int,
    r: int,
    c: int,
)
    requires
        0 <= r < n <= 15,
        0 <= c < 8,
        screen.len() == 2048,
    ensures
        ({
            let idx = (x0 + c) % 64 + ((y0 + r) % 32) * 64;
            sprite_collision_before(screen, ram, i, x0, y0, n, r, c + 1) == (
            sprite_collision_before(screen, ram, i, x0, y0, n, r, c) || (screen[idx]
                && sprite_bit(ram[i + r], c)))
        }),
{
    lemma_sprite_step(ram, i, x0, y0, n, r, c);
    let idx = (x0 + c) % 64 + ((y0 + r) % 32) * 64;
    if sprite_collision_before(screen, ram, i, x0, y0, n, r, c + 1) {
        let p = choose|p: int|
            0 <= p < screen.len() && screen[p] && #[trigger] sprite_flips_before(
                ram,
                i,
                x0,
                y0,
                n,
                r,
                c + 1,
                p,
            );
        if p == idx {
            assert(screen[idx] && sprite_bit(ram[i + r], c));
        } else {
            assert(sprite_flips_before(ram, i, x0, y0, n, r, c, p));
            assert(sprite_collision_before(screen, ram, i, x0, y0, n, r, c));
        }
    } else {
        assert(!sprite_collision_before(screen, ram, i, x0, y0, n, r, c)) by {
            if sprite_collision_before(screen, ram, i, x0, y0, n, r, c) {
                let p = choose|p: int|
                    0 <= p < screen.len() && screen[p] && #[trigger] sprite_flips_before(
                        ram,
                        i,
                        x0,
                        y0,
                        n,
                        r,
                        c,
                        p,
                    );
                assert(sprite_flips_before(ram, i, x0, y0, n, r, c + 1, p));
                assert(sprite_collision_before(screen, ram, i, x0, y0, n, r, c + 1));
            }
        }
        if screen[idx] && sprite_bit(ram[i + r], c) {
            assert(sprite_flips_before(ram, i, x0, y0, n, r, c + 1, idx));
            assert(sprite_collision_before(screen, ram, i, x0, y0, n, r, c + 1));
        }
    }
}

/// Two prefix cuts with pointwise equal flip status see the same
/// collisions.
pub(crate) proof fn lemma_collision_congruent(
    screen: Seq<bool>,
    ram: Seq<u8>,
    i: int,
    x0: u8,
    y0: u8,
    n: int,
    r1: int,
    c1: int,
    r2: int,
    c2: int,
)
    requires
        forall|p: int|
            0 <= p < screen.len() ==> #[trigger] sprite_flips_before(
                ram,
                i,
                x0,
                y0,
                n,
                r1,
                c1,
                p,
            ) == sprite_flips_before(ram, i, x0, y0, n, r2, c2, p),
    ensures
        sprite_collision_before(screen, ram, i, x0, y0, n, r1, c1) == sprite_collision_before(
            screen,
            ram,
            i,
            x0,
            y0,
            n,
            r2,
            c2,
        ),
{
    if sprite_collision_before(screen, ram, i, x0, y0, n, r1, c1) {
        let p = choose|p: int|
            0 <= p < screen.len() && screen[p] && #[trigger] sprite_flips_before(
                ram,
                i,
                x0,
                y0,
                n,
                r1,
                c1,
                p,
            );
        assert(sprite_flips_before(ram, i, x0, y0, n, r2, c2, p));
        assert(sprite_collision_before(screen, ram, i, x0, y0, n, r2, c2));
    }
    if sprite_collision_before(screen, ram, i, x0, y0, n, r2, c2) {
        let p = choose|p: int|
            0 <= p < screen.len() && screen[p] && #[trigger] sprite_flips_before(
                ram,
                i,
                x0,
                y0,
                n,
                r2,
                c2,
                p,
            );
        assert(sprite_flips_before(ram, i, x0, y0, n, r1, c1, p));
        assert(sprite_collision_before(screen, ram, i, x0, y0, n, r1, c1));
    }
}

/// The collision over the whole sprite equals the prefix collision cut at
/// row `n`.
pub(crate) proof fn lemma_collision_full(
    screen: Seq<bool>,
    ram: Seq<u8>,
    i: int,
    x0: u8,
    y0: u8,
    n: int,
)
    ensures
        sprite_collision_before(screen, ram, i, x0, y0, n, n, 0) == sprite_collision(
            screen,
            ram,
            i,
            x0,
            y0,
            n,
        ),
{
    if sprite_collision_before(screen, ram, i, x0, y0, n, n, 0) {
        let p = choose|p: int|
            0 <= p < screen.len() && screen[p] && #[trigger] sprite_flips_before(
                ram,
                i,
                x0,
                y0,
                n,
                n,
                0,
                p,
            );
        assert(sprite_flips(ram, i, x0, y0, n, p));
        assert(sprite_collision(screen, ram, i, x0, y0, n));
    }
    if sprite_collision(screen, ram, i, x0, y0, n) {
        let p = choose|p: int|
            0 <= p < screen.len() && screen[p] && #[trigger] sprite_flips(ram, i, x0, y0, n, p);
        assert(sprite_flips_before(ram, i, x0, y0, n, n, 0, p));
        assert(sprite_collision_before(screen, ram, i, x0, y0, n, n, 0));
    }
}

// ---------------------------------------------------------------------------
// Keys
// ---------------------------------------------------------------------------

/// The lowest pressed key index at or above `k`, if any.
pub open spec fn first_pressed_from(keys: Seq<bool>, k: nat) -> Option<int>
    decreases 16 - k,
{
    if k >= 16 {
        None
    } else if keys[k as int] {
        Some(k as int)
    } else {
        first_pressed_from(keys, k + 1)
    }
}

/// The lowest pressed key index, if any key is pressed.
pub open spec fn first_pressed(keys: Seq<bool>) -> Option<int> {
    first_pressed_from(keys, 0)
}

// ---------------------------------------------------------------------------
// Small state updates
// ---------------------------------------------------------------------------

/// The state with the next instruction skipped when `cond` holds.
pub open spec fn skip_if(s: MachineView, cond: bool) -> MachineView {
    if cond {
        MachineView { pc: (s.pc + 2) as u16, ..s }
    } else {
        s
    }
}

/// The state with register `x` set to `val`.
pub open spec fn set_v(s: MachineView, x: int, val: u8) -> MachineView {
    MachineView { v: s.v.update(x, val), ..s }
}

// ---------------------------------------------------------------------------
// Fetch, execute, tick
// ---------------------------------------------------------------------------

/// The fetch step: reads the two bytes at the program counter big-endian
/// and advances the counter by 2, or faults when the read would leave the
/// 4096-byte memory.
pub open spec fn spec_fetch(s: MachineView) -> Result<(u16, MachineView), Fault> {
    if s.pc + 1 < 4096 {
        let op = ((s.ram[s.pc as int] as u16) << 8) | (s.ram[s.pc as int + 1] as u16);
        Ok((op, MachineView { pc: (s.pc + 2) as u16, ..s }))
    } else {
        Err(Fault::MemoryFault)
    }
}

/// The opcode semantics table. `s` is the post-fetch state (program counter
/// already advanced past the instruction); `rnd` is the fresh random byte
/// consumed by the `CXNN` opcode and ignored by every other pattern. A
/// faulting pattern leaves the state untouched and names its fault.
pub open spec fn spec_execute(s: MachineView, op: u16, rnd: u8) -> Result<MachineView, Fault> {
    match (nib1(op), nib2(op), nib3(op), nib4(op)) {
        // 0000: no-op
        (0, 0, 0, 0) => Ok(s),
        // 00E0: clear display
        (0, 0, 0xE, 0) => Ok(MachineView { screen: Seq::new(2048, |p: int| false), ..s }),
        // 00EE: pop return address
        (0, 0, 0xE, 0xE) => if s.sp == 0 {
            Err(Fault::StackFault)
        } else {
            Ok(MachineView { pc: s.stack[s.sp - 1], sp: (s.sp - 1) as u16, ..s })
        },
        // 1NNN: jump
        (1, _, _, _) => Ok(MachineView { pc: addr_of(op), ..s }),
        // 2NNN: call
        (2, _, _, _) => if s.sp == 16 {
            Err(Fault::StackFault)
        } else {
            Ok(
                MachineView {
                    stack: s.stack.update(s.sp as int, s.pc),
                    sp: (s.sp + 1) as u16,
                    pc: addr_of(op),
                    ..s
                },
            )
        },
        // 3XNN: skip if VX == NN
        (3, x, _, _) => Ok(skip_if(s, s.v[x as int] == imm_of(op))),
        // 4XNN: skip if VX != NN
        (4, x, _, _) => Ok(skip_if(s, s.v[x as int] != imm_of(op))),
        // 5XY0: skip if VX == VY
        (5, x, y, 0) => Ok(skip_if(s, s.v[x as int] == s.v[y as int])),
        // 6XNN: VX = NN
        (6, x, _, _) => Ok(set_v(s, x as int, imm_of(op))),
        // 7XNN: VX += NN, wrapping, no flag
        (7, x, _, _) => Ok(set_v(s, x as int, ((s.v[x as int] + imm_of(op)) % 256) as u8)),
        // 8XY0: VX = VY
        (8, x, y, 0) => Ok(set_v(s, x as int, s.v[y as int])),
        // 8XY1: VX |= VY
        (8, x, y, 1) => Ok(set_v(s, x as int, s.v[x as int] | s.v[y as int])),
        // 8XY2: VX &= VY
        (8, x, y, 2) => Ok(set_v(s, x as int, s.v[x as int] & s.v[y as int])),
        // 8XY3: VX ^= VY
        (8, x, y, 3) => Ok(set_v(s, x as int, s.v[x as int] ^ s.v[y as int])),
        // 8XY4: VX += VY wrapping; VF = carry
        (8, x, y, 4) => {
            let sum = s.v[x as int] + s.v[y as int];
            let vf: u8 = if sum > 255 {
                1
            } else {
                0
            };
            Ok(set_v(set_v(s, x as int, (sum % 256) as u8), 15, vf))
        },
        // 8XY5: VX -= VY wrapping; VF = 0 on borrow else 1
        (8, x, y, 5) => {
            let vx = s.v[x as int];
            let vy = s.v[y as int];
            let vf: u8 = if vx < vy {
                0
            } else {
                1
            };
            Ok(set_v(set_v(s, x as int, ((vx - vy + 256) % 256) as u8), 15, vf))
        },
        // 8X_6: VF = lsb of VX; VX >>= 1
        (8, x, _, 6) => Ok(set_v(set_v(s, x as int, s.v[x as int] >> 1), 15, s.v[x as int] & 1)),
        // 8XY7: VX = VY - VX wrapping; VF = 0 on borrow else 1
        (8, x, y, 7) => {
            let vx = s.v[x as int];
            let vy = s.v[y as int];
            let vf: u8 = if vy < vx {
                0
            } else {
                1
            };
            Ok(set_v(set_v(s, x as int, ((vy - vx + 256) % 256) as u8), 15, vf))
        },
        // 8X_E: VF = msb of VX; VX <<= 1 wrapping
        (8, x, _, 0xE) => {
            let vx = s.v[x as int];
            Ok(set_v(set_v(s, x as int, ((vx * 2) % 256) as u8), 15, (vx >> 7) & 1))
        },
        // 9XY0: skip if VX != VY
        (9, x, y, 0) => Ok(skip_if(s, s.v[x as int] != s.v[y as int])),
        // ANNN: I = NNN
        (0xA, _, _, _) => Ok(MachineView { i: addr_of(op), ..s }),
        // BNNN: jump to V0 + NNN
        (0xB, _, _, _) => Ok(MachineView { pc: (s.v[0] + addr_of(op)) as u16, ..s }),
        // CXNN: VX = random byte & NN
        (0xC, x, _, _) => Ok(set_v(s, x as int, rnd & imm_of(op))),
        // DXYN: draw sprite, VF = collision
        (0xD, x, y, n) => if n > 0 && s.i + n > 4096 {
            Err(Fault::MemoryFault)
        } else {
            let x0 = s.v[x as int];
            let y0 = s.v[y as int];
            let vf: u8 = if sprite_collision(s.screen, s.ram, s.i as int, x0, y0, n as int) {
                1
            } else {
                0
            };
            Ok(
                MachineView {
                    screen: sprite_screen(s.screen, s.ram, s.i as int, x0, y0, n as int),
                    v: s.v.update(15, vf),
                    ..s
                },
            )
        },
        // EX9E: skip if key VX pressed
        (0xE, x, 9, 0xE) => if s.v[x as int] >= 16 {
            Err(Fault::MemoryFault)
        } else {
            Ok(skip_if(s, s.keys[s.v[x as int] as int]))
        },
        // EXA1: skip if key VX not pressed
        (0xE, x, 0xA, 1) => if s.v[x as int] >= 16 {
            Err(Fault::MemoryFault)
        } else {
            Ok(skip_if(s, !s.keys[s.v[x as int] as int]))
        },
        // FX07: VX = delay timer
        (0xF, x, 0, 7) => Ok(set_v(s, x as int, s.dt)),
        // FX0A: wait for key, rewinding past this instruction while none is
        // pressed
        (0xF, x, 0, 0xA) => match first_pressed(s.keys) {
            Some(k) => Ok(set_v(s, x as int, k as u8)),
            None => Ok(MachineView { pc: (s.pc - 2) as u16, ..s }),
        },
        // FX15: delay timer = VX
        (0xF, x, 1, 5) => Ok(MachineView { dt: s.v[x as int], ..s }),
        // FX18: sound timer = VX
        (0xF, x, 1, 8) => Ok(MachineView { st: s.v[x as int], ..s }),
        // FX1E: I += VX, wrapping
        (0xF, x, 1, 0xE) => Ok(MachineView { i: ((s.i + s.v[x as int]) % 65536) as u16, ..s }),
        // FX29: I = glyph address of digit VX
        (0xF, x, 2, 9) => Ok(MachineView { i: (s.v[x as int] * 5) as u16, ..s }),
        // FX33: decimal digits of VX to memory at I
        (0xF, x, 3, 3) => if s.i + 2 >= 4096 {
            Err(Fault::MemoryFault)
        } else {
            let vx = s.v[x as int];
            Ok(
                MachineView {
                    ram: s.ram.update(s.i as int, (vx / 100) as u8).update(
                        s.i as int + 1,
                        ((vx / 10) % 10) as u8,
                    ).update(s.i as int + 2, (vx % 10) as u8),
                    ..s
                },
            )
        },
        // FX55: store V0..=VX to memory at I
        (0xF, x, 5, 5) => if s.i + x >= 4096 {
            Err(Fault::MemoryFault)
        } else {
            Ok(
                MachineView {
                    ram: Seq::new(
                        4096,
                        |j: int| if s.i <= j <= s.i + x {
                            s.v[j - s.i]
                        } else {
                            s.ram[j]
                        },
                    ),
                    ..s
                },
            )
        },
        // FX65: load V0..=VX from memory at I
        (0xF, x, 6, 5) => if s.i + x >= 4096 {
            Err(Fault::MemoryFault)
        } else {
            Ok(
                MachineView {
                    v: Seq::new(
                        16,
                        |j: int| if j <= x {
                            s.ram[s.i + j]
                        } else {
                            s.v[j]
                        },
                    ),
                    ..s
                },
            )
        },
        // any other pattern: unrecognized opcode
        _ => Err(Fault::InvalidOpcode(op)),
    }
}

/// One full instruction cycle: fetch, then execute. A fetch fault leaves
/// the state untouched; an execute fault leaves the post-fetch state (the
/// program counter has advanced past the faulting instruction, nothing else
/// has changed).
pub open spec fn spec_tick(s: MachineView, rnd: u8) -> (Result<(), Fault>, MachineView) {
    match spec_fetch(s) {
        Ok((op, s1)) => match spec_execute(s1, op, rnd) {
            Ok(s2) => (Ok(()), s2),
            Err(f) => (Err(f), s1),
        },
        Err(f) => (Err(f), s),
    }
}

/// Whether the instruction about to execute is the random opcode `CXNN`;
/// for every other instruction [`spec_tick`] does not depend on `rnd`.
pub open spec fn spec_is_random(s: MachineView) -> bool {
    match spec_fetch(s) {
        Ok((op, _)) => nib1(op) == 0xC,
        Err(_) => false,
    }
}

/// Program loading: the bytes are copied to addresses 512 onward. Loading
/// twice without a reset faults, as does a program that would run past the
/// end of memory.
pub open spec fn spec_load(s: MachineView, data: Seq<u8>) -> Result<MachineView, Fault> {
    if s.loaded {
        Err(Fault::AlreadyLoaded)
    } else if data.len() > 3584 {
        Err(Fault::MemoryFault)
    } else {
        Ok(
            MachineView {
                ram: Seq::new(
                    4096,
                    |j: int| if 512 <= j < 512 + data.len() {
                        data[j - 512]
                    } else {
                        s.ram[j]
                    },
                ),
                loaded: true,
                ..s
            },
        )
    }
}

/// Timer decay: each timer steps toward zero and saturates there; the
/// buzzer signal (the first component) fires exactly when the sound timer
/// is about to reach zero from 1.
pub open spec fn spec_tick_timers(s: MachineView) -> (bool, MachineView) {
    (
        s.st == 1,
        MachineView {
            dt: if s.dt > 0 {
                (s.dt - 1) as u8
            } else {
                0
            },
            st: if s.st > 0 {
                (s.st - 1) as u8
            } else {
                0
            },
            ..s
        },
    )
}

} // verus!
