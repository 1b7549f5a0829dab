//! Mathematical model of the CHIP-8 interpreter.
//!
//! `Machine` is the ghost view of the interpreter state, and `step` /
//! `tick_step` give the exact semantics of executing one instruction or one
//! tick against that model.  The executable interpreter in `chip8` is proved
//! to follow these functions.

use vstd::prelude::*;

verus! {

use vstd::arithmetic::div_mod::lemma_fundamental_div_mod;
use vstd::arithmetic::div_mod::lemma_fundamental_div_mod_converse;
use vstd::arithmetic::div_mod::lemma_mod_multiples_vanish;
use vstd::arithmetic::div_mod::lemma_mod_bound;
use vstd::arithmetic::div_mod::lemma_small_mod;

/// Failures that halt execution: the stack and address-space violations of
/// the instruction set.  Unknown opcodes are deliberately not errors.
#[derive(Clone, Copy, Debug, PartialEq, Eq, Structural)]
pub enum Chip8Error {
    /// `CALL` was executed with the 16-deep call stack already full.
    StackOverflow,
    /// `RET` was executed with an empty call stack.
    StackUnderflow,
    /// A program load or an indexed memory access fell outside the
    /// 4096-byte address space.
    OutOfBoundsAddress,
}

/// How the program counter moves once an instruction's side effects are done:
/// advance past it, skip the following instruction, jump to an explicit
/// target, or stay put while waiting for a key.
pub enum PCAction {
    Next,
    Skip,
    Jump(u16),
    Blocked,
}

/// The interpreter state as mathematics: memory and registers as sequences,
/// the call stack as the sequence of pushed return addresses (top last), and
/// the display as a row-major sequence of 32 x 64 pixels.
#[verifier::ext_equal]
pub ghost struct Machine {
    pub mem: Seq<u8>,
    pub v: Seq<u8>,
    pub stack: Seq<u16>,
    pub pc: u16,
    pub i: u16,
    pub dt: u8,
    pub st: u8,
    pub screen: Seq<bool>,
}

impl Machine {
    pub open spec fn wf(self) -> bool {
        &&& self.mem.len() == 4096
        &&& self.v.len() == 16
        &&& self.stack.len() <= 16
        &&& self.screen.len() == 2048
    }
}

// ---------------------------------------------------------------------------
// Opcode fields
// ---------------------------------------------------------------------------

pub open spec fn nib0(op: u16) -> u16 {
    (op & 0xF000) >> 12
}

pub open spec fn nib1(op: u16) -> u16 {
    (op & 0x0F00) >> 8
}

pub open spec fn nib2(op: u16) -> u16 {
    (op & 0x00F0) >> 4
}

pub open spec fn nib3(op: u16) -> u16 {
    op & 0x000F
}

/// The low-byte immediate operand `kk`.
pub open spec fn imm(op: u16) -> u8 {
    (op & 0x00FF) as u8
}

/// The low-12-bit address operand `nnn`.
pub open spec fn addr12(op: u16) -> u16 {
    op & 0x0FFF
}

pub proof fn lemma_nib_bounds(op: u16)
    ensures
        nib0(op) < 16,
        nib1(op) < 16,
        nib2(op) < 16,
        nib3(op) < 16,
        addr12(op) < 0x1000,
        imm(op) == op & 0x00FF,
    {
    assert(op & 0x00FF < 256) by (bit_vector);
    assert((op & 0xF000) >> 12 < 16) by (bit_vector);
    assert((op & 0x0F00) >> 8 < 16) by (bit_vector);
    assert((op & 0x00F0) >> 4 < 16) by (bit_vector);
    assert(op & 0x000F < 16) by (bit_vector);
    assert(op & 0x0FFF < 0x1000) by (bit_vector);
}

// ---------------------------------------------------------------------------
// Initial state
// ---------------------------------------------------------------------------

/// The built-in font: 16 glyphs of 5 bytes each, the 4x5 bit patterns of the
/// hexadecimal digits 0 through F.
pub open spec fn font_seq() -> Seq<u8> {
    seq![
        0xF0u8, 0x90, 0x90, 0x90, 0xF0,
        0x20, 0x60, 0x20, 0x20, 0x70,
        0xF0, 0x10, 0xF0, 0x80, 0xF0,
        0xF0, 0x10, 0xF0, 0x10, 0xF0,
        0x90, 0x90, 0xF0, 0x10, 0x10,
        0xF0, 0x80, 0xF0, 0x10, 0xF0,
        0xF0, 0x80, 0xF0, 0x90, 0xF0,
        0xF0, 0x10, 0x20, 0x40, 0x40,
        0xF0, 0x90, 0xF0, 0x90, 0xF0,
        0xF0, 0x90, 0xF0, 0x10, 0xF0,
        0xF0, 0x90, 0xF0, 0x90, 0x90,
        0xE0, 0x90, 0xE0, 0x90, 0xE0,
        0xF0, 0x80, 0x80, 0x80, 0xF0,
        0xE0, 0x90, 0x90, 0x90, 0xE0,
        0xF0, 0x80, 0xF0, 0x80, 0xF0,
        0xF0, 0x80, 0xF0, 0x80, 0x80,
    ]
}

/// Memory after construction: the font at address 0, zeroes up to 0x200, the
/// program verbatim from 0x200, zeroes beyond it.
pub open spec fn init_mem(prog: Seq<u8>) -> Seq<u8> {
    Seq::new(4096, |j: int|
        if j < 80 {
            font_seq()[j]
        } else if j < 0x200 {
            0u8
        } else if j < 0x200 + prog.len() {
            prog[j - 0x200]
        } else {
            0u8
        })
}

pub open spec fn blank_screen() -> Seq<bool> {
    Seq::new(2048, |p: int| false)
}

pub open spec fn init_machine(prog: Seq<u8>) -> Machine {
    Machine {
        mem: init_mem(prog),
        v: Seq::new(16, |k: int| 0u8),
        stack: Seq::<u16>::empty(),
        pc: 0x200,
        i: 0,
        dt: 0,
        st: 0,
        screen: blank_screen(),
    }
}

// ---------------------------------------------------------------------------
// Timers and fetch
// ---------------------------------------------------------------------------

/// One timer step: decrement if nonzero, saturating at zero.
pub open spec fn dec8(t: u8) -> u8 {
    if t > 0 {
        (t - 1) as u8
    } else {
        0u8
    }
}

pub open spec fn timers_dec(m: Machine) -> Machine {
    Machine { dt: dec8(m.dt), st: dec8(m.st), ..m }
}

/// The big-endian 16-bit opcode at the program counter.
pub open spec fn fetch(m: Machine) -> u16 {
    ((m.mem[m.pc as int] as u16) << 8) | (m.mem[m.pc as int + 1] as u16)
}

// ---------------------------------------------------------------------------
// Small state updates
// ---------------------------------------------------------------------------

pub open spec fn with_v(m: Machine, x: int, val: u8) -> Machine {
    Machine { v: m.v.update(x, val), ..m }
}

pub open spec fn apply_action(m: Machine, a: PCAction) -> Machine {
    match a {
        PCAction::Next => Machine { pc: ((m.pc + 2) % 0x10000) as u16, ..m },
        PCAction::Skip => Machine { pc: ((m.pc + 4) % 0x10000) as u16, ..m },
        PCAction::Jump(t) => Machine { pc: t, ..m },
        PCAction::Blocked => m,
    }
}

// ---------------------------------------------------------------------------
// Sprite drawing
// ---------------------------------------------------------------------------

/// Bit `k` of a sprite byte, most significant bit first.
pub open spec fn sprite_bit(b: u8, k: int) -> bool {
    (b >> ((7 - k) as u32)) & 1 == 1
}

/// Index of screen cell (row, column) in the row-major pixel sequence.
pub open spec fn pix(r: int, c: int) -> int {
    r * 64 + c
}

pub open spec fn row_of(p: int) -> int {
    p / 64
}

pub open spec fn col_of(p: int) -> int {
    p % 64
}

/// The screen after XOR-drawing the part of the sprite at `(sx, sy)` that has
/// been processed so far: every full row below `rows`, plus the first `k`
/// bits of row `rows`.  A cell (r, c) is touched by sprite coordinate
/// (dy, dx) exactly when dy = (r - sy) mod 32 and dx = (c - sx) mod 64, and
/// each cell is touched at most once because the sprite is at most 15 rows
/// and 8 columns.
pub open spec fn draw_partial(m: Machine, sx: u8, sy: u8, rows: int, k: int) -> Seq<bool> {
    Seq::new(2048, |p: int| {
        let dy = (row_of(p) - (sy as int)) % 32;
        let dx = (col_of(p) - (sx as int)) % 64;
        if (dy < rows && dx < 8) || (dy == rows && dx < k) {
            m.screen[p] ^ sprite_bit(m.mem[m.i + dy], dx)
        } else {
            m.screen[p]
        }
    })
}

/// The screen after drawing the whole 8 x n sprite at `mem[I..I+n]`.
pub open spec fn drawn_screen(m: Machine, sx: u8, sy: u8, n: int) -> Seq<bool> {
    draw_partial(m, sx, sy, n, 0)
}

/// Sprite coordinate (dy, dx) lands on a pixel that is already lit.
pub open spec fn hit(m: Machine, sx: u8, sy: u8, dy: int, dx: int) -> bool {
    sprite_bit(m.mem[m.i + dy], dx) && m.screen[pix((sy + dy) % 32, (sx + dx) % 64)]
}

/// A collision occurred among the sprite cells processed so far.
pub open spec fn coll_partial(m: Machine, sx: u8, sy: u8, rows: int, k: int) -> bool {
    exists|dy: int, dx: int|
        ((0 <= dy < rows && 0 <= dx < 8) || (dy == rows && 0 <= dx < k)) && hit(m, sx, sy, dy, dx)
}

/// Some pixel of the full 8 x n sprite turns a lit pixel off.
pub open spec fn sprite_collision(m: Machine, sx: u8, sy: u8, n: int) -> bool {
    coll_partial(m, sx, sy, n, 0)
}

/// The whole effect of `DRW Vx,Vy,n`: the drawn screen, and VF set to the
/// collision flag.
pub open spec fn draw_machine(m: Machine, x: int, y: int, n: int) -> Machine {
    let sx = m.v[x];
    let sy = m.v[y];
    Machine {
        screen: drawn_screen(m, sx, sy, n),
        v: m.v.update(15, if sprite_collision(m, sx, sy, n) { 1u8 } else { 0u8 }),
        ..m
    }
}

// ---------------------------------------------------------------------------
// Bulk register/memory transfers
// ---------------------------------------------------------------------------

/// Memory after `LD [I],Vx`: registers 0 through x written at I.
pub open spec fn stored_mem(m: Machine, x: int) -> Seq<u8> {
    Seq::new(4096, |j: int|
        if m.i <= j <= m.i + x {
            m.v[j - m.i]
        } else {
            m.mem[j]
        })
}

/// Registers after `LD Vx,[I]`: registers 0 through x read from I.
pub open spec fn loaded_regs(m: Machine, x: int) -> Seq<u8> {
    Seq::new(16, |k: int|
        if k <= x {
            m.mem[m.i + k]
        } else {
            m.v[k]
        })
}

/// Memory after `LD B,Vx`: the decimal digits of Vx at I, I+1, I+2.
pub open spec fn bcd_mem(m: Machine, x: int) -> Seq<u8> {
    m.mem
        .update(m.i as int, (m.v[x] / 100) as u8)
        .update(m.i as int + 1, ((m.v[x] % 100) / 10) as u8)
        .update(m.i as int + 2, (m.v[x] % 10) as u8)
}

// ---------------------------------------------------------------------------
// Keypad
// ---------------------------------------------------------------------------

/// The highest pressed key below `n`, or -1 when none is pressed.  When
/// several keys are down at once the highest index wins.
pub open spec fn last_pressed(keys: Seq<bool>, n: int) -> int
    decreases n,
{
    if n <= 0 {
        -1
    } else if keys[n - 1] {
        n - 1
    } else {
        last_pressed(keys, n - 1)
    }
}

/// `SKP`/`SKNP` read the key named by the low nibble of Vx; the 16-key pad
/// has no other keys.
pub open spec fn key_index(v: u8) -> int {
    (v & 0xF) as int
}

// ---------------------------------------------------------------------------
// One instruction
// ---------------------------------------------------------------------------

/// The side effects of one instruction, before the program counter moves:
/// the machine with registers, memory, timers, stack and screen updated, the
/// way the program counter should move, and whether the display changed.
/// Unmatched opcodes are a no-op that still advances.
pub open spec fn instr_effect(m: Machine, op: u16, keys: Seq<bool>, rnd: u8)
    -> Result<(Machine, PCAction, bool), Chip8Error>
{
    let x = nib1(op) as int;
    let y = nib2(op) as int;
    match (nib0(op), nib1(op), nib2(op), nib3(op)) {
        // CLS
        (0x0, 0x0, 0xE, 0x0) => Ok((Machine { screen: blank_screen(), ..m }, PCAction::Next, true)),
        // RET
        (0x0, 0x0, 0xE, 0xE) => if m.stack.len() == 0 {
            Err(Chip8Error::StackUnderflow)
        } else {
            Ok((Machine { stack: m.stack.drop_last(), ..m }, PCAction::Jump(m.stack.last()), false))
        },
        // JP nnn
        (0x1, _, _, _) => Ok((m, PCAction::Jump(addr12(op)), false)),
        // CALL nnn: push the address of the following instruction
        (0x2, _, _, _) => if m.stack.len() >= 16 {
            Err(Chip8Error::StackOverflow)
        } else {
            Ok((
                Machine { stack: m.stack.push(((m.pc + 2) % 0x10000) as u16), ..m },
                PCAction::Jump(addr12(op)),
                false,
            ))
        },
        // SE Vx, kk
        (0x3, _, _, _) => Ok((m, if m.v[x] == imm(op) { PCAction::Skip } else { PCAction::Next }, false)),
        // SNE Vx, kk
        (0x4, _, _, _) => Ok((m, if m.v[x] != imm(op) { PCAction::Skip } else { PCAction::Next }, false)),
        // SE Vx, Vy
        (0x5, _, _, 0x0) => Ok((m, if m.v[x] == m.v[y] { PCAction::Skip } else { PCAction::Next }, false)),
        // LD Vx, kk
        (0x6, _, _, _) => Ok((with_v(m, x, imm(op)), PCAction::Next, false)),
        // ADD Vx, kk: wraps, carry flag untouched
        (0x7, _, _, _) => Ok((with_v(m, x, ((m.v[x] + imm(op)) % 256) as u8), PCAction::Next, false)),
        // LD Vx, Vy
        (0x8, _, _, 0x0) => Ok((with_v(m, x, m.v[y]), PCAction::Next, false)),
        // OR Vx, Vy
        (0x8, _, _, 0x1) => Ok((with_v(m, x, m.v[x] | m.v[y]), PCAction::Next, false)),
        // AND Vx, Vy
        (0x8, _, _, 0x2) => Ok((with_v(m, x, m.v[x] & m.v[y]), PCAction::Next, false)),
        // XOR Vx, Vy
        (0x8, _, _, 0x3) => Ok((with_v(m, x, m.v[x] ^ m.v[y]), PCAction::Next, false)),
        // ADD Vx, Vy: 9-bit sum, VF is the carry
        (0x8, _, _, 0x4) => Ok((
            Machine {
                v: m.v
                    .update(15, if m.v[x] + m.v[y] > 255 { 1u8 } else { 0u8 })
                    .update(x, ((m.v[x] + m.v[y]) % 256) as u8),
                ..m
            },
            PCAction::Next,
            false,
        )),
        // SUB Vx, Vy: VF = not borrow
        (0x8, _, _, 0x5) => Ok((
            Machine {
                v: m.v
                    .update(15, if m.v[x] > m.v[y] { 1u8 } else { 0u8 })
                    .update(x, ((m.v[x] - m.v[y]) % 256) as u8),
                ..m
            },
            PCAction::Next,
            false,
        )),
        // SHR Vx: VF = bit shifted out
        (0x8, _, _, 0x6) => Ok((
            Machine {
                v: m.v.update(15, m.v[x] & 1).update(x, m.v[x] >> 1u8),
                ..m
            },
            PCAction::Next,
            false,
        )),
        // SUBN Vx, Vy: VF = not borrow
        (0x8, _, _, 0x7) => Ok((
            Machine {
                v: m.v
                    .update(15, if m.v[y] > m.v[x] { 1u8 } else { 0u8 })
                    .update(x, ((m.v[y] - m.v[x]) % 256) as u8),
                ..m
            },
            PCAction::Next,
            false,
        )),
        // SHL Vx: VF = bit shifted out, taken before the shift
        (0x8, _, _, 0xE) => Ok((
            Machine {
                v: m.v.update(15, (m.v[x] & 0x80) >> 7u8).update(x, ((m.v[x] * 2) % 256) as u8),
                ..m
            },
            PCAction::Next,
            false,
        )),
        // SNE Vx, Vy
        (0x9, _, _, 0x0) => Ok((m, if m.v[x] != m.v[y] { PCAction::Skip } else { PCAction::Next }, false)),
        // LD I, nnn
        (0xA, _, _, _) => Ok((Machine { i: addr12(op), ..m }, PCAction::Next, false)),
        // JP V0, nnn
        (0xB, _, _, _) => Ok((m, PCAction::Jump((addr12(op) + m.v[0]) as u16), false)),
        // RND Vx, kk
        (0xC, _, _, _) => Ok((with_v(m, x, rnd & imm(op)), PCAction::Next, false)),
        // DRW Vx, Vy, n
        (0xD, _, _, _) => {
            let n = nib3(op) as int;
            if n > 0 && m.i + n > 4096 {
                Err(Chip8Error::OutOfBoundsAddress)
            } else {
                Ok((draw_machine(m, x, y, n), PCAction::Next, true))
            }
        },
        // SKP Vx
        (0xE, _, 0x9, 0xE) => Ok((
            m,
            if keys[key_index(m.v[x])] { PCAction::Skip } else { PCAction::Next },
            false,
        )),
        // SKNP Vx
        (0xE, _, 0xA, 0x1) => Ok((
            m,
            if !keys[key_index(m.v[x])] { PCAction::Skip } else { PCAction::Next },
            false,
        )),
        // LD Vx, DT
        (0xF, _, 0x0, 0x7) => Ok((with_v(m, x, m.dt), PCAction::Next, false)),
        // LD Vx, K: resolve immediately if a key is down, else block and
        // re-execute on the next tick
        (0xF, _, 0x0, 0xA) => {
            let k = last_pressed(keys, 16);
            if k >= 0 {
                Ok((with_v(m, x, k as u8), PCAction::Next, false))
            } else {
                Ok((m, PCAction::Blocked, false))
            }
        },
        // LD DT, Vx
        (0xF, _, 0x1, 0x5) => Ok((Machine { dt: m.v[x], ..m }, PCAction::Next, false)),
        // LD ST, Vx
        (0xF, _, 0x1, 0x8) => Ok((Machine { st: m.v[x], ..m }, PCAction::Next, false)),
        // ADD I, Vx: no overflow flag
        (0xF, _, 0x1, 0xE) => Ok((
            Machine { i: ((m.i + m.v[x]) % 0x10000) as u16, ..m },
            PCAction::Next,
            false,
        )),
        // LD F, Vx: address of the font glyph for digit Vx
        (0xF, _, 0x2, 0x9) => Ok((Machine { i: (m.v[x] * 5) as u16, ..m }, PCAction::Next, false)),
        // LD B, Vx
        (0xF, _, 0x3, 0x3) => if m.i + 2 >= 4096 {
            Err(Chip8Error::OutOfBoundsAddress)
        } else {
            Ok((Machine { mem: bcd_mem(m, x), ..m }, PCAction::Next, false))
        },
        // LD [I], Vx
        (0xF, _, 0x5, 0x5) => if m.i + x >= 4096 {
            Err(Chip8Error::OutOfBoundsAddress)
        } else {
            Ok((Machine { mem: stored_mem(m, x), ..m }, PCAction::Next, false))
        },
        // LD Vx, [I]
        (0xF, _, 0x6, 0x5) => if m.i + x >= 4096 {
            Err(Chip8Error::OutOfBoundsAddress)
        } else {
            Ok((Machine { v: loaded_regs(m, x), ..m }, PCAction::Next, false))
        },
        // Unknown opcodes are tolerated: no effect, advance
        _ => Ok((m, PCAction::Next, false)),
    }
}

/// One full instruction: side effects, then the program counter move.  On an
/// error the machine is unchanged.
pub open spec fn step(m: Machine, op: u16, keys: Seq<bool>, rnd: u8)
    -> (Machine, Result<bool, Chip8Error>)
{
    match instr_effect(m, op, keys, rnd) {
        Ok((m1, a, changed)) => (apply_action(m1, a), Ok(changed)),
        Err(e) => (m, Err(e)),
    }
}

/// One tick: fail if the fetch would leave memory, otherwise decrement both
/// timers, fetch and execute one instruction.
pub open spec fn tick_step(m: Machine, keys: Seq<bool>, rnd: u8)
    -> (Machine, Result<bool, Chip8Error>)
{
    if m.pc + 1 >= 4096 {
        (m, Err(Chip8Error::OutOfBoundsAddress))
    } else {
        step(timers_dec(m), fetch(m), keys, rnd)
    }
}

/// Executing `op` took `pre` to `post` with outcome `r`, for random byte `rnd`.
pub open spec fn step_matches(
    pre: Machine,
    post: Machine,
    op: u16,
    keys: Seq<bool>,
    rnd: u8,
    r: Result<bool, Chip8Error>,
) -> bool {
    post == step(pre, op, keys, rnd).0 && r == step(pre, op, keys, rnd).1
}

// ---------------------------------------------------------------------------
// Frame conditions: equal in every field but one
// ---------------------------------------------------------------------------

pub open spec fn eq_except_screen(a: Machine, b: Machine) -> bool {
    &&& a.mem == b.mem
    &&& a.v == b.v
    &&& a.stack == b.stack
    &&& a.pc == b.pc
    &&& a.i == b.i
    &&& a.dt == b.dt
    &&& a.st == b.st
}

pub open spec fn eq_except_mem(a: Machine, b: Machine) -> bool {
    &&& a.v == b.v
    &&& a.stack == b.stack
    &&& a.pc == b.pc
    &&& a.i == b.i
    &&& a.dt == b.dt
    &&& a.st == b.st
    &&& a.screen == b.screen
}

pub open spec fn eq_except_v(a: Machine, b: Machine) -> bool {
    &&& a.mem == b.mem
    &&& a.stack == b.stack
    &&& a.pc == b.pc
    &&& a.i == b.i
    &&& a.dt == b.dt
    &&& a.st == b.st
    &&& a.screen == b.screen
}

// ---------------------------------------------------------------------------
// Lemmas about wrapping coordinates and sprite drawing
// ---------------------------------------------------------------------------

/// For `0 <= d < w`, the screen coordinate `r` in `[0, w)` hit by sprite
/// offset `d` from start `s` is exactly `(s + d) % w`, and no other.
pub proof fn lemma_wrap_unique(s: int, d: int, w: int, r: int)
    requires
        0 < w,
        0 <= d < w,
        0 <= r < w,
        0 <= s,
    ensures
        ((r - s) % w == d) <==> (r == (s + d) % w),
{
    if (r - s) % w == d {
        let q = (r - s) / w;
        lemma_fundamental_div_mod(r - s, w);
        assert(r == w * q + (s + d));
        lemma_mod_multiples_vanish(q, s + d, w);
        lemma_small_mod(r as nat, w as nat);
    }
    if r == (s + d) % w {
        let q = (s + d) / w;
        lemma_fundamental_div_mod(s + d, w);
        assert(w * (-q) == -(w * q)) by (nonlinear_arith);
        assert(r - s == w * (-q) + d);
        lemma_mod_multiples_vanish(-q, d, w);
        lemma_small_mod(d as nat, w as nat);
    }
}

/// Decomposing a pixel index into its row and column.
pub proof fn lemma_pix_bounds(p: int)
    requires
        0 <= p < 2048,
    ensures
        0 <= row_of(p) < 32,
        0 <= col_of(p) < 64,
        p == pix(row_of(p), col_of(p)),
{
    lemma_fundamental_div_mod(p, 64);
    lemma_mod_bound(p, 64);
}

/// Composing a row and column into a pixel index.
pub proof fn lemma_pix_inverse(r: int, c: int)
    requires
        0 <= r < 32,
        0 <= c < 64,
    ensures
        0 <= pix(r, c) < 2048,
        row_of(pix(r, c)) == r,
        col_of(pix(r, c)) == c,
{
    lemma_fundamental_div_mod_converse(r * 64 + c, 64, r, c);
}

/// Drawing one more sprite bit updates exactly one screen cell: the cell the
/// sprite coordinate `(rows, k)` wraps onto.
pub proof fn lemma_draw_step(m: Machine, sx: u8, sy: u8, rows: int, k: int)
    requires
        m.wf(),
        0 <= rows < 32,
        0 <= k < 8,
    ensures
        ({
            let p0 = pix((sy + rows) % 32, (sx + k) % 64);
            draw_partial(m, sx, sy, rows, k + 1) == draw_partial(m, sx, sy, rows, k).update(
                p0,
                m.screen[p0] ^ sprite_bit(m.mem[m.i + rows], k),
            )
        }),
{
    let row = (sy + rows) % 32;
    let col = (sx + k) % 64;
    lemma_mod_bound(sy + rows, 32);
    lemma_mod_bound(sx + k, 64);
    lemma_pix_inverse(row, col);
    let p0 = pix(row, col);
    let lhs = draw_partial(m, sx, sy, rows, k + 1);
    let rhs = draw_partial(m, sx, sy, rows, k).update(
        p0,
        m.screen[p0] ^ sprite_bit(m.mem[m.i + rows], k),
    );
    assert forall|p: int| 0 <= p < 2048 implies lhs[p] == rhs[p] by {
        lemma_pix_bounds(p);
        lemma_wrap_unique(sy as int, rows, 32, row_of(p));
        lemma_wrap_unique(sx as int, k, 64, col_of(p));
    }
    assert(lhs =~= rhs);
}

/// Registering one more sprite bit extends the collision flag by exactly the
/// hit at `(rows, k)`.
pub proof fn lemma_coll_step(m: Machine, sx: u8, sy: u8, rows: int, k: int)
    requires
        0 <= rows,
        0 <= k < 8,
    ensures
        coll_partial(m, sx, sy, rows, k + 1) == (coll_partial(m, sx, sy, rows, k) || hit(
            m,
            sx,
            sy,
            rows,
            k,
        )),
{
    if coll_partial(m, sx, sy, rows, k + 1) {
        let (dy, dx) = choose|dy: int, dx: int|
            ((0 <= dy < rows && 0 <= dx < 8) || (dy == rows && 0 <= dx < k + 1)) && hit(
                m,
                sx,
                sy,
                dy,
                dx,
            );
        if !(dy == rows && dx == k) {
            assert(((0 <= dy < rows && 0 <= dx < 8) || (dy == rows && 0 <= dx < k)) && hit(
                m,
                sx,
                sy,
                dy,
                dx,
            ));
        }
    }
    if coll_partial(m, sx, sy, rows, k) {
        let (dy, dx) = choose|dy: int, dx: int|
            ((0 <= dy < rows && 0 <= dx < 8) || (dy == rows && 0 <= dx < k)) && hit(
                m,
                sx,
                sy,
                dy,
                dx,
            );
        assert(((0 <= dy < rows && 0 <= dx < 8) || (dy == rows && 0 <= dx < k + 1)) && hit(
            m,
            sx,
            sy,
            dy,
            dx,
        ));
    }
    if hit(m, sx, sy, rows, k) {
        assert(((0 <= rows < rows && 0 <= k < 8) || (rows == rows && 0 <= k < k + 1)) && hit(
            m,
            sx,
            sy,
            rows,
            k,
        ));
    }
}

/// Before any sprite cell has been processed there is no collision.
pub proof fn lemma_coll_none_yet(m: Machine, sx: u8, sy: u8)
    ensures
        !coll_partial(m, sx, sy, 0, 0),
{
    if coll_partial(m, sx, sy, 0, 0) {
        let (dy, dx) = choose|dy: int, dx: int|
            ((0 <= dy < 0 && 0 <= dx < 8) || (dy == 0 && 0 <= dx < 0)) && hit(m, sx, sy, dy, dx);
        assert(false);
    }
}

/// Finishing the 8 bits of a sprite row is the same as starting the next row.
pub proof fn lemma_draw_row_done(m: Machine, sx: u8, sy: u8, rows: int)
    requires
        0 <= rows,
    ensures
        draw_partial(m, sx, sy, rows, 8) == draw_partial(m, sx, sy, rows + 1, 0),
        coll_partial(m, sx, sy, rows, 8) == coll_partial(m, sx, sy, rows + 1, 0),
{
    assert(draw_partial(m, sx, sy, rows, 8) =~= draw_partial(m, sx, sy, rows + 1, 0));
    if coll_partial(m, sx, sy, rows, 8) {
        let (dy, dx) = choose|dy: int, dx: int|
            ((0 <= dy < rows && 0 <= dx < 8) || (dy == rows && 0 <= dx < 8)) && hit(
                m,
                sx,
                sy,
                dy,
                dx,
            );
        assert(((0 <= dy < rows + 1 && 0 <= dx < 8) || (dy == rows + 1 && 0 <= dx < 0)) && hit(
            m,
            sx,
            sy,
            dy,
            dx,
        ));
    }
    if coll_partial(m, sx, sy, rows + 1, 0) {
        let (dy, dx) = choose|dy: int, dx: int|
            ((0 <= dy < rows + 1 && 0 <= dx < 8) || (dy == rows + 1 && 0 <= dx < 0)) && hit(
                m,
                sx,
                sy,
                dy,
                dx,
            );
        assert(((0 <= dy < rows && 0 <= dx < 8) || (dy == rows && 0 <= dx < 8)) && hit(
            m,
            sx,
            sy,
            dy,
            dx,
        ));
    }
}

/// `last_pressed` is -1 exactly when no key below `n` is down, and otherwise
/// names a pressed key.
pub proof fn lemma_last_pressed(keys: Seq<bool>, n: int)
    requires
        0 <= n <= keys.len(),
    ensures
        (last_pressed(keys, n) == -1) <==> (forall|k: int| 0 <= k < n ==> !keys[k]),
        last_pressed(keys, n) == -1 || (0 <= last_pressed(keys, n) < n && keys[last_pressed(
            keys,
            n,
        )]),
    decreases n,
{
    if n > 0 {
        lemma_last_pressed(keys, n - 1);
    }
}

/// One tick took `pre` to `post` with outcome `r`, for random byte `rnd`.
pub open spec fn tick_matches(
    pre: Machine,
    post: Machine,
    keys: Seq<bool>,
    rnd: u8,
    r: Result<bool, Chip8Error>,
) -> bool {
    post == tick_step(pre, keys, rnd).0 && r == tick_step(pre, keys, rnd).1
}

} // verus!
