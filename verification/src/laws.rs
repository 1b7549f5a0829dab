//! Laws of the instruction semantics, proved once and for all over the
//! model in [`crate::machine`].  Because [`crate::chip8::CHIP8::tick`] and
//! [`crate::chip8::CHIP8::exec_opcode`] are proved to follow `step` and
//! `tick_step`, these laws hold of the executable interpreter as well.

use vstd::prelude::*;

use crate::machine::Chip8Error;
use crate::machine::Machine;
use crate::machine::addr12;
use crate::machine::blank_screen;
use crate::machine::dec8;
use crate::machine::fetch;
use crate::machine::imm;
use crate::machine::last_pressed;
use crate::machine::lemma_last_pressed;
use crate::machine::lemma_nib_bounds;
use crate::machine::nib0;
use crate::machine::nib1;
use crate::machine::nib2;
use crate::machine::nib3;
use crate::machine::step;
use crate::machine::tick_step;
use crate::machine::timers_dec;

verus! {

/// `ADD Vx,kk` on `Vx = 0xFF` with `kk = 0x01` wraps to `Vx = 0x00` and
/// touches no other register: this opcode has no carry flag, so `VF` is
/// unmodified whenever it is not itself the destination.
pub proof fn lemma_add_imm_wraps(m: Machine, op: u16, keys: Seq<bool>, rnd: u8)
    requires
        m.wf(),
        nib0(op) == 0x7,
        imm(op) == 0x01,
        m.v[nib1(op) as int] == 0xFF,
    ensures
        ({
            let (m2, r) = step(m, op, keys, rnd);
            &&& r == Ok::<bool, Chip8Error>(false)
            &&& m2.v == m.v.update(nib1(op) as int, 0u8)
            &&& m2.v[nib1(op) as int] == 0x00
            &&& forall|j: int| 0 <= j < 16 && j != nib1(op) ==> m2.v[j] == m.v[j]
            &&& nib1(op) != 15 ==> m2.v[15] == m.v[15]
            &&& m2.mem == m.mem && m2.screen == m.screen && m2.stack == m.stack
            &&& m2.dt == m.dt && m2.st == m.st
            &&& m2.pc == (m.pc + 2) % 0x10000
        }),
{
    lemma_nib_bounds(op);
}

/// `CALL addr` followed by `RET` brings the program counter to the
/// instruction after the `CALL`, and the stack back to exactly what it was.
pub proof fn lemma_call_ret_round_trip(m: Machine, op: u16, keys: Seq<bool>, rnd: u8)
    requires
        m.wf(),
        nib0(op) == 0x2,
        m.stack.len() < 16,
    ensures
        ({
            let (m1, r1) = step(m, op, keys, rnd);
            let (m2, r2) = step(m1, 0x00EE, keys, rnd);
            &&& r1 == Ok::<bool, Chip8Error>(false)
            &&& m1.pc == addr12(op)
            &&& m1.stack.len() == m.stack.len() + 1
            &&& r2 == Ok::<bool, Chip8Error>(false)
            &&& m2.pc == (m.pc + 2) % 0x10000
            &&& m2.stack == m.stack
            &&& m2.v == m.v && m2.mem == m.mem && m2.screen == m.screen
        }),
{
    lemma_nib_bounds(op);
    assert((0x00EEu16 & 0xF000) >> 12 == 0) by (bit_vector);
    assert((0x00EEu16 & 0x0F00) >> 8 == 0) by (bit_vector);
    assert((0x00EEu16 & 0x00F0) >> 4 == 0xE) by (bit_vector);
    assert(0x00EEu16 & 0x000F == 0xE) by (bit_vector);
    let ret = ((m.pc + 2) % 0x10000) as u16;
    assert(m.stack.push(ret).drop_last() =~= m.stack);
}

/// A `CALL` with the 16-deep stack already full fails with `StackOverflow`
/// and leaves the machine unchanged: a 17th nested `CALL` cannot succeed.
pub proof fn lemma_call_overflow(m: Machine, op: u16, keys: Seq<bool>, rnd: u8)
    requires
        m.wf(),
        nib0(op) == 0x2,
        m.stack.len() == 16,
    ensures
        step(m, op, keys, rnd).1 == Err::<bool, Chip8Error>(Chip8Error::StackOverflow),
        step(m, op, keys, rnd).0 == m,
{
    lemma_nib_bounds(op);
}

/// `CLS` turns every one of the 32 x 64 display cells off.
pub proof fn lemma_cls_clears(m: Machine, keys: Seq<bool>, rnd: u8)
    requires
        m.wf(),
    ensures
        ({
            let (m2, r) = step(m, 0x00E0, keys, rnd);
            &&& r == Ok::<bool, Chip8Error>(true)
            &&& m2.screen == blank_screen()
            &&& forall|p: int| 0 <= p < 2048 ==> !m2.screen[p]
            &&& m2.v == m.v && m2.mem == m.mem && m2.stack == m.stack
        }),
{
    assert((0x00E0u16 & 0xF000) >> 12 == 0) by (bit_vector);
    assert((0x00E0u16 & 0x0F00) >> 8 == 0) by (bit_vector);
    assert((0x00E0u16 & 0x00F0) >> 4 == 0xE) by (bit_vector);
    assert(0x00E0u16 & 0x000F == 0) by (bit_vector);
}

/// A tick that lands on `LD Vx,K` with no key pressed leaves everything but
/// the timers unchanged: in particular the program counter stays put, so the
/// same instruction is fetched again on the next tick.
pub proof fn lemma_key_wait_blocks(m: Machine, keys: Seq<bool>, rnd: u8)
    requires
        m.wf(),
        m.pc + 1 < 4096,
        keys.len() == 16,
        nib0(fetch(m)) == 0xF,
        nib2(fetch(m)) == 0x0,
        nib3(fetch(m)) == 0xA,
        forall|k: int| 0 <= k < 16 ==> !keys[k],
    ensures
        ({
            let (m2, r) = tick_step(m, keys, rnd);
            &&& r == Ok::<bool, Chip8Error>(false)
            &&& m2.pc == m.pc
            &&& m2.v == m.v && m2.mem == m.mem && m2.stack == m.stack && m2.screen == m.screen
            &&& m2 == timers_dec(m)
        }),
{
    lemma_nib_bounds(fetch(m));
    lemma_last_pressed(keys, 16);
}

/// Once a key is pressed during a tick that executes `LD Vx,K`, the waiting
/// ends: `Vx` receives the pressed key's index (the highest one, when
/// several are down at once) and the program counter advances exactly once.
pub proof fn lemma_key_wait_resumes(m: Machine, keys: Seq<bool>, rnd: u8)
    requires
        m.wf(),
        m.pc + 1 < 4096,
        keys.len() == 16,
        nib0(fetch(m)) == 0xF,
        nib2(fetch(m)) == 0x0,
        nib3(fetch(m)) == 0xA,
        exists|k: int| 0 <= k < 16 && keys[k],
    ensures
        ({
            let key = last_pressed(keys, 16);
            let (m2, r) = tick_step(m, keys, rnd);
            &&& 0 <= key < 16
            &&& keys[key]
            &&& r == Ok::<bool, Chip8Error>(false)
            &&& m2.v == m.v.update(nib1(fetch(m)) as int, key as u8)
            &&& m2.pc == (m.pc + 2) % 0x10000
            &&& m2.mem == m.mem && m2.stack == m.stack && m2.screen == m.screen
            &&& m2.dt == dec8(m.dt) && m2.st == dec8(m.st)
        }),
{
    lemma_nib_bounds(fetch(m));
    lemma_last_pressed(keys, 16);
}

} // verus!
