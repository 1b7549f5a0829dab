//! The executable CHIP-8 interpreter, verified against the model in
//! [`crate::machine`].

use vstd::prelude::*;

use crate::machine::Chip8Error;
use crate::machine::Machine;
use crate::machine::PCAction;
use crate::machine::blank_screen;
use crate::machine::coll_partial;
use crate::machine::dec8;
use crate::machine::draw_machine;
use crate::machine::draw_partial;
use crate::machine::eq_except_mem;
use crate::machine::eq_except_screen;
use crate::machine::eq_except_v;
use crate::machine::fetch;
use crate::machine::font_seq;
use crate::machine::init_machine;
use crate::machine::init_mem;
use crate::machine::lemma_coll_none_yet;
use crate::machine::lemma_coll_step;
use crate::machine::lemma_draw_row_done;
use crate::machine::lemma_draw_step;
use crate::machine::lemma_pix_inverse;
use crate::machine::lemma_wrap_unique;
use crate::machine::bcd_mem;
use crate::machine::instr_effect;
use crate::machine::last_pressed;
use crate::machine::lemma_nib_bounds;
use crate::machine::loaded_regs;
use crate::machine::step_matches;
use crate::machine::stored_mem;
use crate::machine::tick_matches;
use crate::machine::timers_dec;
use rand::Rng;

verus! {

use vstd::arithmetic::div_mod::lemma_mod_multiples_vanish;

/// Relies on `rand::thread_rng` and `rand::Rng::gen`: draws one uniformly
/// random byte.  Nothing can be promised of the value, so nothing is; every
/// caller must be correct for every byte that comes back.
#[verifier::external_body]
fn random_byte() -> u8 {
    rand::thread_rng().gen::<u8>()
}

/// The interpreter: 4 KB of memory, sixteen 8-bit registers, a 16-deep call
/// stack, the index register, program counter, two timers, and the 64 x 32
/// display held row-major.
pub struct CHIP8 {
    mem: [u8; 4096],
    vx: [u8; 16],
    stk: [u16; 16],
    pc: u16,
    sp: i16,
    i: u16,
    dt: u8,
    st: u8,
    screen: [bool; 2048],
}

impl View for CHIP8 {
    type V = Machine;

    closed spec fn view(&self) -> Machine {
        Machine {
            mem: self.mem@,
            v: self.vx@,
            stack: self.stk@.take(self.sp as int + 1),
            pc: self.pc,
            i: self.i,
            dt: self.dt,
            st: self.st,
            screen: self.screen@,
        }
    }
}

/// The built-in font data: the view of the returned vector is exactly
/// [`font_seq`].
fn font_data() -> (r: Vec<u8>)
    ensures
        r@ == font_seq(),
{
    let mut v: Vec<u8> = Vec::new();
    v.push(0xF0); v.push(0x90); v.push(0x90); v.push(0x90); v.push(0xF0);
    v.push(0x20); v.push(0x60); v.push(0x20); v.push(0x20); v.push(0x70);
    v.push(0xF0); v.push(0x10); v.push(0xF0); v.push(0x80); v.push(0xF0);
    v.push(0xF0); v.push(0x10); v.push(0xF0); v.push(0x10); v.push(0xF0);
    v.push(0x90); v.push(0x90); v.push(0xF0); v.push(0x10); v.push(0x10);
    v.push(0xF0); v.push(0x80); v.push(0xF0); v.push(0x10); v.push(0xF0);
    v.push(0xF0); v.push(0x80); v.push(0xF0); v.push(0x90); v.push(0xF0);
    v.push(0xF0); v.push(0x10); v.push(0x20); v.push(0x40); v.push(0x40);
    v.push(0xF0); v.push(0x90); v.push(0xF0); v.push(0x90); v.push(0xF0);
    v.push(0xF0); v.push(0x90); v.push(0xF0); v.push(0x10); v.push(0xF0);
    v.push(0xF0); v.push(0x90); v.push(0xF0); v.push(0x90); v.push(0x90);
    v.push(0xE0); v.push(0x90); v.push(0xE0); v.push(0x90); v.push(0xE0);
    v.push(0xF0); v.push(0x80); v.push(0x80); v.push(0x80); v.push(0xF0);
    v.push(0xE0); v.push(0x90); v.push(0x90); v.push(0x90); v.push(0xE0);
    v.push(0xF0); v.push(0x80); v.push(0xF0); v.push(0x80); v.push(0xF0);
    v.push(0xF0); v.push(0x80); v.push(0xF0); v.push(0x80); v.push(0x80);
    proof {
        assert(v@ =~= font_seq());
    }
    v
}

impl CHIP8 {
    /// The one representation invariant: the stack pointer stays in
    /// `-1..=15`, where -1 is the empty stack.
    pub closed spec fn wf(&self) -> bool {
        -1 <= self.sp < 16
    }

    /// A well-formed interpreter has a well-formed model.
    pub proof fn lemma_view_wf(&self)
        requires
            self.wf(),
        ensures
            self@.wf(),
    {
    }

    /// Construct an interpreter from a program image: font at address 0,
    /// program verbatim from 0x200, everything else zero.  A program that
    /// would extend past the 4096-byte memory is rejected rather than
    /// truncated.
    pub fn new(program_bytes: Vec<u8>) -> (r: Result<CHIP8, Chip8Error>)
        ensures
            match r {
                Ok(c) => {
                    &&& program_bytes@.len() + 0x200 <= 4096
                    &&& c.wf()
                    &&& c@ == init_machine(program_bytes@)
                },
                Err(e) => {
                    &&& program_bytes@.len() + 0x200 > 4096
                    &&& e == Chip8Error::OutOfBoundsAddress
                },
            },
    {
        if program_bytes.len() > 4096 - 0x200 {
            return Err(Chip8Error::OutOfBoundsAddress);
        }
        let mut chip = CHIP8 {
            mem: [0u8; 4096],
            vx: [0u8; 16],
            stk: [0u16; 16],
            pc: 0x200,
            sp: -1,
            i: 0,
            dt: 0,
            st: 0,
            screen: [false; 2048],
        };
        let font = font_data();
        for idx in 0..80
            invariant
                font@ == font_seq(),
                chip.pc == 0x200 && chip.sp == -1 && chip.i == 0 && chip.dt == 0 && chip.st
                    == 0,
                forall|j: int| 0 <= j < idx ==> chip.mem@[j] == font_seq()[j],
                forall|j: int| idx <= j < 4096 ==> chip.mem@[j] == 0u8,
                forall|k: int| 0 <= k < 16 ==> chip.vx@[k] == 0u8,
                forall|p: int| 0 <= p < 2048 ==> chip.screen@[p] == false,
        {
            chip.mem[idx] = font[idx];
        }
        let ghost prog = program_bytes@;
        let plen = program_bytes.len();
        for j in 0..plen
            invariant
                plen == prog.len(),
                prog.len() <= 3584,
                program_bytes@ == prog,
                chip.pc == 0x200 && chip.sp == -1 && chip.i == 0 && chip.dt == 0 && chip.st
                    == 0,
                forall|t: int| 0 <= t < 80 ==> chip.mem@[t] == font_seq()[t],
                forall|t: int| 80 <= t < 0x200 ==> chip.mem@[t] == 0u8,
                forall|t: int| 0 <= t < j ==> chip.mem@[0x200 + t] == prog[t],
                forall|t: int| 0x200 + j <= t < 4096 ==> chip.mem@[t] == 0u8,
                forall|k: int| 0 <= k < 16 ==> chip.vx@[k] == 0u8,
                forall|p: int| 0 <= p < 2048 ==> chip.screen@[p] == false,
        {
            chip.mem[0x200 + j] = program_bytes[j];
        }
        proof {
            assert(chip@.mem =~= init_mem(prog));
            assert(chip@.v =~= Seq::new(16, |k: int| 0u8));
            assert(chip@.stack =~= Seq::<u16>::empty());
            assert(chip@.screen =~= blank_screen());
            assert(chip@ =~= init_machine(prog));
        }
        Ok(chip)
    }

    fn tick_delay_timer(&mut self)
        requires
            old(self).wf(),
        ensures
            final(self).wf(),
            final(self)@ == (Machine { dt: dec8(old(self)@.dt), ..old(self)@ }),
    {
        if self.dt > 0 {
            self.dt = self.dt - 1;
        }
    }

    fn tick_sound_timer(&mut self)
        requires
            old(self).wf(),
        ensures
            final(self).wf(),
            final(self)@ == (Machine { st: dec8(old(self)@.st), ..old(self)@ }),
    {
        if self.st > 0 {
            self.st = self.st - 1;
        }
    }

    fn stack_push(&mut self, val: u16) -> (r: Result<(), Chip8Error>)
        requires
            old(self).wf(),
        ensures
            final(self).wf(),
            match r {
                Ok(()) => {
                    &&& old(self)@.stack.len() < 16
                    &&& final(self)@ == (Machine {
                        stack: old(self)@.stack.push(val),
                        ..old(self)@
                    })
                },
                Err(e) => {
                    &&& old(self)@.stack.len() == 16
                    &&& e == Chip8Error::StackOverflow
                    &&& final(self)@ == old(self)@
                },
            },
    {
        if self.sp != 15 {
            self.sp = self.sp + 1;
            self.stk[self.sp as usize] = val;
            proof {
                assert(self.stk@.take(self.sp as int + 1) =~= old(self).stk@.take(
                    old(self).sp as int + 1,
                ).push(val));
            }
            Ok(())
        } else {
            Err(Chip8Error::StackOverflow)
        }
    }

    fn stack_pop(&mut self) -> (r: Result<u16, Chip8Error>)
        requires
            old(self).wf(),
        ensures
            final(self).wf(),
            match r {
                Ok(v) => {
                    &&& old(self)@.stack.len() > 0
                    &&& v == old(self)@.stack.last()
                    &&& final(self)@ == (Machine {
                        stack: old(self)@.stack.drop_last(),
                        ..old(self)@
                    })
                },
                Err(e) => {
                    &&& old(self)@.stack.len() == 0
                    &&& e == Chip8Error::StackUnderflow
                    &&& final(self)@ == old(self)@
                },
            },
    {
        if self.sp >= 0 {
            let data = self.stk[self.sp as usize];
            self.sp = self.sp - 1;
            proof {
                assert(self.stk@.take(self.sp as int + 1) =~= old(self).stk@.take(
                    old(self).sp as int + 1,
                ).drop_last());
            }
            Ok(data)
        } else {
            Err(Chip8Error::StackUnderflow)
        }
    }

    /// The big-endian opcode at the program counter.
    fn read_opcode(&self) -> (op: u16)
        requires
            self.wf(),
            self@.pc + 1 < 4096,
        ensures
            op == fetch(self@),
    {
        ((self.mem[self.pc as usize] as u16) << 8u16) | (self.mem[self.pc as usize + 1] as u16)
    }

    // -- instruction bodies -------------------------------------------------

    /// `CLS`: every display cell becomes false.
    fn op_cls(&mut self)
        requires
            old(self).wf(),
        ensures
            final(self).wf(),
            final(self)@ == (Machine { screen: blank_screen(), ..old(self)@ }),
    {
        let ghost m0 = self@;
        for p in 0..2048
            invariant
                self.wf(),
                eq_except_screen(self@, m0),
                forall|q: int| 0 <= q < p ==> self.screen@[q] == false,
        {
            self.screen[p] = false;
        }
        proof {
            assert(self@.screen =~= blank_screen());
            assert(self@ =~= (Machine { screen: blank_screen(), ..m0 }));
        }
    }

    /// `LD B,Vx`: the decimal digits of Vx written at I, I+1, I+2; fails when
    /// they would fall outside memory.
    fn op_bcd(&mut self, x: usize) -> (r: Result<(), Chip8Error>)
        requires
            old(self).wf(),
            x < 16,
        ensures
            final(self).wf(),
            match r {
                Ok(()) => {
                    &&& old(self)@.i + 2 < 4096
                    &&& final(self)@ == (Machine { mem: bcd_mem(old(self)@, x as int), ..old(self)@ })
                },
                Err(e) => {
                    &&& old(self)@.i + 2 >= 4096
                    &&& e == Chip8Error::OutOfBoundsAddress
                    &&& final(self)@ == old(self)@
                },
            },
    {
        if self.i as usize + 2 >= 4096 {
            return Err(Chip8Error::OutOfBoundsAddress);
        }
        let vxv = self.vx[x];
        let base = self.i as usize;
        self.mem[base] = vxv / 100;
        self.mem[base + 1] = (vxv % 100) / 10;
        self.mem[base + 2] = vxv % 10;
        Ok(())
    }

    /// `LD [I],Vx`: registers 0 through x stored at I; fails when the span
    /// would leave memory.
    fn op_store_regs(&mut self, x: usize) -> (r: Result<(), Chip8Error>)
        requires
            old(self).wf(),
            x < 16,
        ensures
            final(self).wf(),
            match r {
                Ok(()) => {
                    &&& old(self)@.i + x < 4096
                    &&& final(self)@ == (Machine {
                        mem: stored_mem(old(self)@, x as int),
                        ..old(self)@
                    })
                },
                Err(e) => {
                    &&& old(self)@.i + x >= 4096
                    &&& e == Chip8Error::OutOfBoundsAddress
                    &&& final(self)@ == old(self)@
                },
            },
    {
        if self.i as usize + x >= 4096 {
            return Err(Chip8Error::OutOfBoundsAddress);
        }
        let ghost m0 = self@;
        let base = self.i as usize;
        for k in 0..(x + 1)
            invariant
                self.wf(),
                x < 16,
                base == m0.i,
                base + x < 4096,
                eq_except_mem(self@, m0),
                self@.mem == Seq::new(4096, |t: int|
                    if m0.i <= t < m0.i + k {
                        m0.v[t - m0.i]
                    } else {
                        m0.mem[t]
                    }),
        {
            self.mem[base + k] = self.vx[k];
            proof {
                assert(self@.mem =~= Seq::new(4096, |t: int|
                    if m0.i <= t < m0.i + (k + 1) {
                        m0.v[t - m0.i]
                    } else {
                        m0.mem[t]
                    }));
            }
        }
        proof {
            assert(self@.mem =~= stored_mem(m0, x as int));
            assert(self@ =~= (Machine { mem: stored_mem(m0, x as int), ..m0 }));
        }
        Ok(())
    }

    /// `LD Vx,[I]`: registers 0 through x loaded from I; fails when the span
    /// would leave memory.
    fn op_load_regs(&mut self, x: usize) -> (r: Result<(), Chip8Error>)
        requires
            old(self).wf(),
            x < 16,
        ensures
            final(self).wf(),
            match r {
                Ok(()) => {
                    &&& old(self)@.i + x < 4096
                    &&& final(self)@ == (Machine {
                        v: loaded_regs(old(self)@, x as int),
                        ..old(self)@
                    })
                },
                Err(e) => {
                    &&& old(self)@.i + x >= 4096
                    &&& e == Chip8Error::OutOfBoundsAddress
                    &&& final(self)@ == old(self)@
                },
            },
    {
        if self.i as usize + x >= 4096 {
            return Err(Chip8Error::OutOfBoundsAddress);
        }
        let ghost m0 = self@;
        let base = self.i as usize;
        for k in 0..(x + 1)
            invariant
                self.wf(),
                x < 16,
                base == m0.i,
                base + x < 4096,
                eq_except_v(self@, m0),
                self@.v == Seq::new(16, |t: int|
                    if 0 <= t < k {
                        m0.mem[m0.i + t]
                    } else {
                        m0.v[t]
                    }),
        {
            self.vx[k] = self.mem[base + k];
            proof {
                assert(self@.v =~= Seq::new(16, |t: int|
                    if 0 <= t < k + 1 {
                        m0.mem[m0.i + t]
                    } else {
                        m0.v[t]
                    }));
            }
        }
        proof {
            assert(self@.v =~= loaded_regs(m0, x as int));
            assert(self@ =~= (Machine { v: loaded_regs(m0, x as int), ..m0 }));
        }
        Ok(())
    }

    /// `DRW Vx,Vy,n`: XOR the 8 x n sprite at `mem[I..I+n]` onto the screen
    /// at `(Vx, Vy)`, wrapping per axis, and set VF to the collision flag;
    /// fails when the sprite bytes would be read from outside memory.
    fn op_draw(&mut self, x: usize, y: usize, n: usize) -> (r: Result<(), Chip8Error>)
        requires
            old(self).wf(),
            x < 16,
            y < 16,
            n < 16,
        ensures
            final(self).wf(),
            match r {
                Ok(()) => {
                    &&& (n == 0 || old(self)@.i + n <= 4096)
                    &&& final(self)@ == draw_machine(old(self)@, x as int, y as int, n as int)
                },
                Err(e) => {
                    &&& n > 0
                    &&& old(self)@.i + n > 4096
                    &&& e == Chip8Error::OutOfBoundsAddress
                    &&& final(self)@ == old(self)@
                },
            },
    {
        if n > 0 && self.i as usize > 4096 - n {
            return Err(Chip8Error::OutOfBoundsAddress);
        }
        let ghost m0 = self@;
        proof {
            self.lemma_view_wf();
            assert(self@.screen =~= draw_partial(m0, m0.v[x as int], m0.v[y as int], 0, 0));
            lemma_coll_none_yet(m0, m0.v[x as int], m0.v[y as int]);
        }
        let sx = self.vx[x];
        let sy = self.vx[y];
        let mut collision = false;
        let mut yy: usize = 0;
        while yy < n
            invariant
                0 <= yy <= n,
                n < 16,
                self.wf(),
                m0.wf(),
                n > 0 ==> m0.i + n <= 4096,
                sx == m0.v[x as int],
                sy == m0.v[y as int],
                x < 16,
                y < 16,
                eq_except_screen(self@, m0),
                self@.screen == draw_partial(m0, sx, sy, yy as int, 0),
                collision == coll_partial(m0, sx, sy, yy as int, 0),
            decreases n - yy,
        {
            let row = (sy as usize + yy) % 32;
            let byte = self.mem[self.i as usize + yy];
            let mut kk: usize = 0;
            while kk < 8
                invariant
                    0 <= kk <= 8,
                    yy < n,
                    n < 16,
                    self.wf(),
                    m0.wf(),
                    m0.i + n <= 4096,
                    sx == m0.v[x as int],
                    sy == m0.v[y as int],
                    row == (sy as int + yy as int) % 32,
                    byte == m0.mem[m0.i + yy],
                    eq_except_screen(self@, m0),
                    self@.screen == draw_partial(m0, sx, sy, yy as int, kk as int),
                    collision == coll_partial(m0, sx, sy, yy as int, kk as int),
                decreases 8 - kk,
            {
                let col = (sx as usize + kk) % 64;
                let idx = row * 64 + col;
                let bit = ((byte >> ((7 - kk) as u32)) & 1) == 1;
                proof {
                    lemma_pix_inverse(row as int, col as int);
                    lemma_wrap_unique(sy as int, yy as int, 32, row as int);
                    lemma_wrap_unique(sx as int, kk as int, 64, col as int);
                    lemma_draw_step(m0, sx, sy, yy as int, kk as int);
                    lemma_coll_step(m0, sx, sy, yy as int, kk as int);
                }
                let oldpix = self.screen[idx];
                if bit && oldpix {
                    collision = true;
                }
                self.screen[idx] = bit ^ oldpix;
                kk += 1;
            }
            proof {
                lemma_draw_row_done(m0, sx, sy, yy as int);
            }
            yy += 1;
        }
        self.vx[15] = if collision {
            1
        } else {
            0
        };
        proof {
            assert(self@ =~= draw_machine(m0, x as int, y as int, n as int));
        }
        Ok(())
    }

    /// Execute one already-fetched instruction: its side effects and the
    /// program-counter move, returning whether the display changed.  The
    /// result agrees with [`crate::machine::step`] for the random byte drawn
    /// by `RND` (and for every byte when the instruction is not `RND`).
    #[verifier::rlimit(100)]
    pub fn exec_opcode(&mut self, opcode: u16, keys: [bool; 16]) -> (r: Result<bool, Chip8Error>)
        requires
            old(self).wf(),
        ensures
            final(self).wf(),
            exists|rnd: u8| step_matches(old(self)@, final(self)@, opcode, keys@, rnd, r),
    {
        proof {
            lemma_nib_bounds(opcode);
        }
        let n0 = ((opcode & 0xF000) >> 12u16) as usize;
        let n1 = ((opcode & 0x0F00) >> 8u16) as usize;
        let n2 = ((opcode & 0x00F0) >> 4u16) as usize;
        let n3 = (opcode & 0x000F) as usize;
        let x = n1;
        let y = n2;
        let kk = (opcode & 0x00FF) as u8;
        let nnn = opcode & 0x0FFF;
        let ghost pre = self@;
        let ghost mut grnd: u8 = 0;
        let mut screen_changed = false;
        let action: PCAction = match (n0, n1, n2, n3) {
            // CLS
            (0x0, 0x0, 0xE, 0x0) => {
                self.op_cls();
                screen_changed = true;
                PCAction::Next
            },
            // RET
            (0x0, 0x0, 0xE, 0xE) => match self.stack_pop() {
                Ok(pc_value) => PCAction::Jump(pc_value),
                Err(e) => {
                    proof {
                        assert(step_matches(pre, self@, opcode, keys@, 0u8, Err::<
                            bool,
                            Chip8Error,
                        >(e)));
                    }
                    return Err(e);
                },
            },
            // JP nnn
            (0x1, _, _, _) => PCAction::Jump(nnn),
            // CALL nnn
            (0x2, _, _, _) => {
                let ret = ((self.pc as u32 + 2) % 0x10000) as u16;
                match self.stack_push(ret) {
                    Ok(()) => PCAction::Jump(nnn),
                    Err(e) => {
                        proof {
                            assert(step_matches(pre, self@, opcode, keys@, 0u8, Err::<
                                bool,
                                Chip8Error,
                            >(e)));
                        }
                        return Err(e);
                    },
                }
            },
            // SE Vx, kk
            (0x3, _, _, _) => if self.vx[x] == kk {
                PCAction::Skip
            } else {
                PCAction::Next
            },
            // SNE Vx, kk
            (0x4, _, _, _) => if self.vx[x] != kk {
                PCAction::Skip
            } else {
                PCAction::Next
            },
            // SE Vx, Vy
            (0x5, _, _, 0x0) => if self.vx[x] == self.vx[y] {
                PCAction::Skip
            } else {
                PCAction::Next
            },
            // LD Vx, kk
            (0x6, _, _, _) => {
                self.vx[x] = kk;
                PCAction::Next
            },
            // ADD Vx, kk: wraps, carry flag untouched
            (0x7, _, _, _) => {
                let sum = self.vx[x] as u16 + kk as u16;
                self.vx[x] = (sum % 256) as u8;
                PCAction::Next
            },
            // LD Vx, Vy
            (0x8, _, _, 0x0) => {
                self.vx[x] = self.vx[y];
                PCAction::Next
            },
            // OR Vx, Vy
            (0x8, _, _, 0x1) => {
                self.vx[x] = self.vx[x] | self.vx[y];
                PCAction::Next
            },
            // AND Vx, Vy
            (0x8, _, _, 0x2) => {
                self.vx[x] = self.vx[x] & self.vx[y];
                PCAction::Next
            },
            // XOR Vx, Vy
            (0x8, _, _, 0x3) => {
                self.vx[x] = self.vx[x] ^ self.vx[y];
                PCAction::Next
            },
            // ADD Vx, Vy: 9-bit sum, VF is the carry
            (0x8, _, _, 0x4) => {
                let sum = self.vx[x] as u16 + self.vx[y] as u16;
                self.vx[15] = if sum > 0xFF {
                    1
                } else {
                    0
                };
                self.vx[x] = (sum % 256) as u8;
                PCAction::Next
            },
            // SUB Vx, Vy: VF = not borrow
            (0x8, _, _, 0x5) => {
                let a = self.vx[x];
                let b = self.vx[y];
                self.vx[15] = if a > b {
                    1
                } else {
                    0
                };
                proof {
                    lemma_mod_multiples_vanish(1, a - b, 256);
                }
                self.vx[x] = (((a as u16 + 256) - b as u16) % 256) as u8;
                PCAction::Next
            },
            // SHR Vx: VF = bit shifted out
            (0x8, _, _, 0x6) => {
                let a = self.vx[x];
                self.vx[15] = a & 1;
                self.vx[x] = a >> 1u8;
                PCAction::Next
            },
            // SUBN Vx, Vy: VF = not borrow
            (0x8, _, _, 0x7) => {
                let a = self.vx[x];
                let b = self.vx[y];
                self.vx[15] = if b > a {
                    1
                } else {
                    0
                };
                proof {
                    lemma_mod_multiples_vanish(1, b - a, 256);
                }
                self.vx[x] = (((b as u16 + 256) - a as u16) % 256) as u8;
                PCAction::Next
            },
            // SHL Vx: VF = bit shifted out, taken before the shift
            (0x8, _, _, 0xE) => {
                let a = self.vx[x];
                self.vx[15] = (a & 0x80) >> 7u8;
                self.vx[x] = ((a as u16 * 2) % 256) as u8;
                PCAction::Next
            },
            // SNE Vx, Vy
            (0x9, _, _, 0x0) => if self.vx[x] != self.vx[y] {
                PCAction::Skip
            } else {
                PCAction::Next
            },
            // LD I, nnn
            (0xA, _, _, _) => {
                self.i = nnn;
                PCAction::Next
            },
            // JP V0, nnn
            (0xB, _, _, _) => PCAction::Jump(nnn + self.vx[0] as u16),
            // RND Vx, kk
            (0xC, _, _, _) => {
                let rb = random_byte();
                proof {
                    grnd = rb;
                }
                self.vx[x] = rb & kk;
                PCAction::Next
            },
            // DRW Vx, Vy, n
            (0xD, _, _, _) => match self.op_draw(x, y, n3) {
                Ok(()) => {
                    screen_changed = true;
                    PCAction::Next
                },
                Err(e) => {
                    proof {
                        assert(step_matches(pre, self@, opcode, keys@, 0u8, Err::<
                            bool,
                            Chip8Error,
                        >(e)));
                    }
                    return Err(e);
                },
            },
            // SKP Vx
            (0xE, _, 0x9, 0xE) => {
                let vv = self.vx[x];
                proof {
                    assert(vv & 0x0F < 16) by (bit_vector);
                }
                let ki = (vv & 0x0F) as usize;
                if keys[ki] {
                    PCAction::Skip
                } else {
                    PCAction::Next
                }
            },
            // SKNP Vx
            (0xE, _, 0xA, 0x1) => {
                let vv = self.vx[x];
                proof {
                    assert(vv & 0x0F < 16) by (bit_vector);
                }
                let ki = (vv & 0x0F) as usize;
                if !keys[ki] {
                    PCAction::Skip
                } else {
                    PCAction::Next
                }
            },
            // LD Vx, DT
            (0xF, _, 0x0, 0x7) => {
                self.vx[x] = self.dt;
                PCAction::Next
            },
            // LD Vx, K: resolve immediately if a key is down, else stay put
            // and re-execute on the next tick
            (0xF, _, 0x0, 0xA) => {
                let mut pressed = false;
                let mut key: u8 = 0;
                for k2 in 0..16
                    invariant
                        if last_pressed(keys@, k2 as int) == -1 {
                            pressed == false
                        } else {
                            pressed == true && key as int == last_pressed(keys@, k2 as int)
                        },
                {
                    if keys[k2] {
                        pressed = true;
                        key = k2 as u8;
                    }
                }
                if pressed {
                    self.vx[x] = key;
                    PCAction::Next
                } else {
                    PCAction::Blocked
                }
            },
            // LD DT, Vx
            (0xF, _, 0x1, 0x5) => {
                self.dt = self.vx[x];
                PCAction::Next
            },
            // LD ST, Vx
            (0xF, _, 0x1, 0x8) => {
                self.st = self.vx[x];
                PCAction::Next
            },
            // ADD I, Vx
            (0xF, _, 0x1, 0xE) => {
                self.i = ((self.i as u32 + self.vx[x] as u32) % 0x10000) as u16;
                PCAction::Next
            },
            // LD F, Vx
            (0xF, _, 0x2, 0x9) => {
                self.i = self.vx[x] as u16 * 5;
                PCAction::Next
            },
            // LD B, Vx
            (0xF, _, 0x3, 0x3) => match self.op_bcd(x) {
                Ok(()) => PCAction::Next,
                Err(e) => {
                    proof {
                        assert(step_matches(pre, self@, opcode, keys@, 0u8, Err::<
                            bool,
                            Chip8Error,
                        >(e)));
                    }
                    return Err(e);
                },
            },
            // LD [I], Vx
            (0xF, _, 0x5, 0x5) => match self.op_store_regs(x) {
                Ok(()) => PCAction::Next,
                Err(e) => {
                    proof {
                        assert(step_matches(pre, self@, opcode, keys@, 0u8, Err::<
                            bool,
                            Chip8Error,
                        >(e)));
                    }
                    return Err(e);
                },
            },
            // LD Vx, [I]
            (0xF, _, 0x6, 0x5) => match self.op_load_regs(x) {
                Ok(()) => PCAction::Next,
                Err(e) => {
                    proof {
                        assert(step_matches(pre, self@, opcode, keys@, 0u8, Err::<
                            bool,
                            Chip8Error,
                        >(e)));
                    }
                    return Err(e);
                },
            },
            // Unknown opcodes are tolerated: no effect, advance
            _ => PCAction::Next,
        };
        proof {
            assert(instr_effect(pre, opcode, keys@, grnd) == Ok::<
                (Machine, PCAction, bool),
                Chip8Error,
            >((self@, action, screen_changed)));
        }
        match action {
            PCAction::Next => {
                self.pc = ((self.pc as u32 + 2) % 0x10000) as u16;
            },
            PCAction::Skip => {
                self.pc = ((self.pc as u32 + 4) % 0x10000) as u16;
            },
            PCAction::Jump(t) => {
                self.pc = t;
            },
            PCAction::Blocked => {},
        }
        proof {
            assert(step_matches(pre, self@, opcode, keys@, grnd, Ok::<bool, Chip8Error>(
                screen_changed,
            )));
        }
        Ok(screen_changed)
    }

    /// One tick: fail if the fetch would leave memory, otherwise decrement
    /// both timers (also while blocked on a keypress), fetch one instruction
    /// and execute it.  Returns whether the display changed.
    pub fn tick(&mut self, keypad: [bool; 16]) -> (r: Result<bool, Chip8Error>)
        requires
            old(self).wf(),
        ensures
            final(self).wf(),
            exists|rnd: u8| tick_matches(old(self)@, final(self)@, keypad@, rnd, r),
    {
        let ghost pre = self@;
        if self.pc >= 4095 {
            proof {
                assert(tick_matches(pre, self@, keypad@, 0u8, Err::<bool, Chip8Error>(
                    Chip8Error::OutOfBoundsAddress,
                )));
            }
            return Err(Chip8Error::OutOfBoundsAddress);
        }
        self.tick_sound_timer();
        self.tick_delay_timer();
        let ghost mid = self@;
        proof {
            assert(mid == timers_dec(pre));
            assert(fetch(mid) == fetch(pre));
        }
        let opcode = self.read_opcode();
        let result = self.exec_opcode(opcode, keypad);
        proof {
            let rnd = choose|rnd: u8| step_matches(mid, self@, opcode, keypad@, rnd, result);
            assert(tick_matches(pre, self@, keypad@, rnd, result));
        }
        result
    }

    // -- read-only accessors ------------------------------------------------

    /// General-purpose register `Vx`.
    pub fn reg(&self, x: usize) -> (r: u8)
        requires
            x < 16,
        ensures
            r == self@.v[x as int],
    {
        self.vx[x]
    }

    /// The program counter.
    pub fn pc(&self) -> (r: u16)
        ensures
            r == self@.pc,
    {
        self.pc
    }

    /// The index register `I`.
    pub fn index_reg(&self) -> (r: u16)
        ensures
            r == self@.i,
    {
        self.i
    }

    /// The delay timer.
    pub fn delay_timer(&self) -> (r: u8)
        ensures
            r == self@.dt,
    {
        self.dt
    }

    /// The sound timer.
    pub fn sound_timer(&self) -> (r: u8)
        ensures
            r == self@.st,
    {
        self.st
    }

    /// How many return addresses are on the call stack.
    pub fn stack_depth(&self) -> (r: usize)
        requires
            self.wf(),
        ensures
            r == self@.stack.len(),
    {
        (self.sp + 1) as usize
    }

    /// The display pixel in the given row and column.
    pub fn pixel(&self, row: usize, col: usize) -> (r: bool)
        requires
            row < 32,
            col < 64,
        ensures
            r == self@.screen[row * 64 + col],
    {
        self.screen[row * 64 + col]
    }
}

} // verus!
