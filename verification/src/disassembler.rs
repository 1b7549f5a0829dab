//! A small CHIP-8 disassembler: renders a program image as one mnemonic
//! line per opcode, joined by newlines, with the same formatting for every
//! input, pinned down by [`spec_disassemble`].

use vstd::prelude::*;

use crate::machine::addr12;
use crate::machine::imm;
use crate::machine::lemma_nib_bounds;
use crate::machine::nib0;
use crate::machine::nib1;
use crate::machine::nib2;
use crate::machine::nib3;

verus! {

// ---------------------------------------------------------------------------
// Rendering numbers
// ---------------------------------------------------------------------------

/// The character for one digit value, 0-9 then a-f.
pub open spec fn digit_char(d: int) -> char {
    if d == 0 {
        '0'
    } else if d == 1 {
        '1'
    } else if d == 2 {
        '2'
    } else if d == 3 {
        '3'
    } else if d == 4 {
        '4'
    } else if d == 5 {
        '5'
    } else if d == 6 {
        '6'
    } else if d == 7 {
        '7'
    } else if d == 8 {
        '8'
    } else if d == 9 {
        '9'
    } else if d == 10 {
        'a'
    } else if d == 11 {
        'b'
    } else if d == 12 {
        'c'
    } else if d == 13 {
        'd'
    } else if d == 14 {
        'e'
    } else {
        'f'
    }
}

/// Lower-case hexadecimal without leading zeroes, as `{:x}` prints.
pub open spec fn spec_hex(n: nat) -> Seq<char>
    decreases n,
{
    if n < 16 {
        seq![digit_char(n as int)]
    } else {
        spec_hex(n / 16) + seq![digit_char((n % 16) as int)]
    }
}

/// Decimal without leading zeroes, as `{}` prints.
pub open spec fn spec_dec(n: nat) -> Seq<char>
    decreases n,
{
    if n < 10 {
        seq![digit_char(n as int)]
    } else {
        spec_dec(n / 10) + seq![digit_char((n % 10) as int)]
    }
}

/// Append the character of one digit value.
fn push_digit(s: &mut String, d: u8)
    requires
        d < 16,
    ensures
        final(s)@ == old(s)@ + seq![digit_char(d as int)],
{
    match d {
        0 => s.append("0"),
        1 => s.append("1"),
        2 => s.append("2"),
        3 => s.append("3"),
        4 => s.append("4"),
        5 => s.append("5"),
        6 => s.append("6"),
        7 => s.append("7"),
        8 => s.append("8"),
        9 => s.append("9"),
        10 => s.append("a"),
        11 => s.append("b"),
        12 => s.append("c"),
        13 => s.append("d"),
        14 => s.append("e"),
        _ => s.append("f"),
    }
    proof {
        reveal_strlit("0");
        reveal_strlit("1");
        reveal_strlit("2");
        reveal_strlit("3");
        reveal_strlit("4");
        reveal_strlit("5");
        reveal_strlit("6");
        reveal_strlit("7");
        reveal_strlit("8");
        reveal_strlit("9");
        reveal_strlit("a");
        reveal_strlit("b");
        reveal_strlit("c");
        reveal_strlit("d");
        reveal_strlit("e");
        reveal_strlit("f");
        assert(s@ =~= old(s)@ + seq![digit_char(d as int)]);
    }
}

/// Append `n` in lower-case hexadecimal.
fn push_hex(s: &mut String, n: u16)
    ensures
        final(s)@ == old(s)@ + spec_hex(n as nat),
    decreases n,
{
    if n >= 16 {
        push_hex(s, n / 16);
    }
    push_digit(s, (n % 16) as u8);
    proof {
        assert(s@ =~= old(s)@ + spec_hex(n as nat));
    }
}

/// Append `n` in decimal.
fn push_dec(s: &mut String, n: u16)
    ensures
        final(s)@ == old(s)@ + spec_dec(n as nat),
    decreases n,
{
    if n >= 10 {
        push_dec(s, n / 10);
    }
    push_digit(s, (n % 10) as u8);
    proof {
        assert(s@ =~= old(s)@ + spec_dec(n as nat));
    }
}

// ---------------------------------------------------------------------------
// One line per opcode
// ---------------------------------------------------------------------------

/// The big-endian opcode formed by the two program bytes at `pc`.
pub open spec fn op_at(prog: Seq<u8>, pc: int) -> u16 {
    ((prog[pc] as u16) << 8u16) | (prog[pc + 1] as u16)
}

/// The mnemonic line printed for one opcode; unknown opcodes print as an
/// empty line.
pub open spec fn line_for(op: u16) -> Seq<char> {
    let x = nib1(op) as nat;
    let y = nib2(op) as nat;
    let n = nib3(op) as nat;
    let kk = imm(op) as nat;
    let nnn = addr12(op) as nat;
    match (nib0(op), nib1(op), nib2(op), nib3(op)) {
        (0x0, 0x0, 0xE, 0x0) => ("CLS")@,
        (0x0, 0x0, 0xE, 0xE) => ("RET")@,
        (0x1, _, _, _) => ("JP ")@ + spec_hex(nnn),
        (0x2, _, _, _) => ("CALL ")@ + spec_hex(nnn),
        (0x3, _, _, _) => ("SE ")@ + spec_hex(x) + (", ")@ + spec_hex(kk) + (" ; (V")@
            + spec_dec(x) + (" == ")@ + spec_dec(kk) + (" ? skip)")@,
        (0x4, _, _, _) => ("SNE ")@ + spec_hex(x) + (", ")@ + spec_hex(kk) + (" ; (V")@
            + spec_dec(x) + (" != ")@ + spec_dec(kk) + (" ? skip)")@,
        (0x5, _, _, 0x0) => ("SE ")@ + spec_hex(x) + (", ")@ + spec_hex(y) + (" ; (V")@
            + spec_dec(x) + (" == V")@ + spec_dec(y) + (" ? skip)")@,
        (0x6, _, _, _) => ("LD ")@ + spec_hex(x) + (", ")@ + spec_hex(kk) + (" ; (V")@
            + spec_dec(x) + (" = ")@ + spec_dec(kk) + (")")@,
        (0x7, _, _, _) => ("ADD ")@ + spec_hex(x) + (", ")@ + spec_hex(kk) + (" ; (V")@
            + spec_dec(x) + (" = V")@ + spec_dec(x) + (" + ")@ + spec_dec(kk) + (")")@,
        (0x8, _, _, 0x0) => ("LD ")@ + spec_hex(x) + (", ")@ + spec_hex(y) + (" ; (V")@
            + spec_dec(x) + (" = V")@ + spec_dec(y) + (")")@,
        (0x8, _, _, 0x1) => ("OR ")@ + spec_hex(x) + (", ")@ + spec_hex(y) + (" ; (V")@
            + spec_dec(x) + (" = V")@ + spec_dec(x) + (" OR V")@ + spec_dec(y) + (")")@,
        (0x8, _, _, 0x2) => ("AND ")@ + spec_hex(x) + (", ")@ + spec_hex(y) + (" ; (V")@
            + spec_dec(x) + (" = V")@ + spec_dec(x) + (" AND V")@ + spec_dec(y) + (")")@,
        (0x8, _, _, 0x3) => ("XOR ")@ + spec_hex(x) + (", ")@ + spec_hex(y) + (" ; (V")@
            + spec_dec(x) + (" = V")@ + spec_dec(x) + (" XOR V")@ + spec_dec(y) + (")")@,
        (0x8, _, _, 0x4) => ("ADD ")@ + spec_hex(x) + (", ")@ + spec_hex(y) + (" ; (V")@
            + spec_dec(x) + (" = V")@ + spec_dec(x) + (" + V")@ + spec_dec(y) + (", VF = carry)")@,
        (0x8, _, _, 0x5) => ("SUB ")@ + spec_hex(x) + (", ")@ + spec_hex(y) + (" ; (V")@
            + spec_dec(x) + (" = V")@ + spec_dec(x) + (" - V")@ + spec_dec(y) + (", VF = !borrow)")@,
        (0x8, _, _, 0x6) => ("SHR ")@ + spec_hex(x) + (" {, ")@ + spec_hex(y) + ("} ; (V")@
            + spec_dec(x) + (" = V")@ + spec_dec(x) + (" >> 1, VF = LSB)")@,
        (0x8, _, _, 0x7) => ("SUB ")@ + spec_hex(x) + (", ")@ + spec_hex(y) + (" ; (V")@
            + spec_dec(x) + (" = V")@ + spec_dec(y) + (" - V")@ + spec_dec(x) + (", VF = !borrow)")@,
        (0x8, _, _, 0xE) => ("SHL ")@ + spec_hex(x) + (" {, ")@ + spec_hex(y) + ("} ; (V")@
            + spec_dec(x) + (" = V")@ + spec_dec(x) + (" << 1, VF = MSB)")@,
        (0x9, _, _, 0x0) => ("SE ")@ + spec_hex(x) + (", ")@ + spec_hex(y) + (" ; (V")@
            + spec_dec(x) + (" != V")@ + spec_dec(y) + (" ? skip)")@,
        (0xA, _, _, _) => ("LD I, ")@ + spec_hex(nnn) + (" ; (I = ")@ + spec_dec(nnn) + (")")@,
        (0xB, _, _, _) => ("JP V0, ")@ + spec_hex(nnn) + (" ; (PC = V0 + ")@ + spec_dec(nnn)
            + (")")@,
        (0xC, _, _, _) => ("RND ")@ + spec_hex(x) + (", ")@ + spec_hex(kk) + (" ; (V")@
            + spec_dec(x) + (" = rand() AND ")@ + spec_hex(kk) + (")")@,
        (0xD, _, _, _) => ("DRW ")@ + spec_hex(x) + (", ")@ + spec_hex(y) + (", ")@ + spec_hex(n)
            + (" ; ((V")@ + spec_dec(x) + (", V")@ + spec_dec(y) + (") -> ")@ + spec_dec(n)
            + (")")@,
        (0xE, _, 0x9, 0xE) => ("SKP ")@ + spec_hex(x) + (" ; (key(V")@ + spec_dec(x)
            + (") ? skip)")@,
        (0xE, _, 0xA, 0x1) => ("SKNP ")@ + spec_hex(x) + (" ; (!key(V")@ + spec_dec(x)
            + (") ? skip)")@,
        (0xF, _, 0x0, 0x7) => ("LD ")@ + spec_hex(x) + (", DT ; (V")@ + spec_dec(x) + (" = DT)")@,
        (0xF, _, 0x0, 0xA) => ("LD ")@ + spec_hex(x) + (", K ; (Wait till keypress then V")@
            + spec_dec(x) + (" = Key)")@,
        (0xF, _, 0x1, 0x5) => ("LD DT, ")@ + spec_hex(x) + (" ; (DT = V")@ + spec_dec(x) + (")")@,
        (0xF, _, 0x1, 0x8) => ("LD ST, ")@ + spec_hex(x) + (" ; (ST = V")@ + spec_dec(x) + (")")@,
        (0xF, _, 0x1, 0xE) => ("ADD I, ")@ + spec_hex(x) + (" ; (I = I + V")@ + spec_dec(x)
            + (")")@,
        (0xF, _, 0x2, 0x9) => ("LD F, ")@ + spec_hex(x) + (" ; (I = Location of sprite for V")@
            + spec_dec(x) + (")")@,
        (0xF, _, 0x3, 0x3) => ("LD B, ")@ + spec_hex(x) + (" ; (BCD(V")@ + spec_dec(x)
            + (") -> (I, I+1, I+2))")@,
        (0xF, _, 0x5, 0x5) => ("LD [I], ")@ + spec_hex(x) + (" ; (mem[I + x] = Vx for x in 0..")@
            + spec_dec(x) + (")")@,
        (0xF, _, 0x6, 0x5) => ("LD ")@ + spec_hex(x) + (", [I] ; (Vx = mem[I + x] for x in 0..")@
            + spec_dec(x) + (")")@,
        _ => Seq::<char>::empty(),
    }
}

/// The full disassembly from opcode position `pc`: one line per full opcode,
/// joined by newlines, stopping before a trailing odd byte.
pub open spec fn disasm_from(prog: Seq<u8>, pc: int) -> Seq<char>
    decreases prog.len() - pc,
{
    if pc + 1 < prog.len() {
        let line = line_for(op_at(prog, pc));
        if pc + 3 < prog.len() {
            line + seq!['\n'] + disasm_from(prog, pc + 2)
        } else {
            line
        }
    } else {
        Seq::<char>::empty()
    }
}

/// The disassembly of a whole program image.
pub open spec fn spec_disassemble(prog: Seq<u8>) -> Seq<char> {
    disasm_from(prog, 0)
}

/// One nibble group of [`push_line`].
#[verifier::rlimit(100)]
fn push_line_low(s: &mut String, op: u16)
    requires
        nib0(op) <= 0x7,
    ensures
        final(s)@ == old(s)@ + line_for(op),
{
    proof {
        lemma_nib_bounds(op);
    }
    let xv = (op & 0x0F00) >> 8u16;
    let yv = (op & 0x00F0) >> 4u16;
    let nv = op & 0x000F;
    let kkv = op & 0x00FF;
    let nnnv = op & 0x0FFF;
    match ((op & 0xF000) >> 12u16, xv, yv, nv) {
        (0x0, 0x0, 0xE, 0x0) => {
            s.append("CLS");
            proof {
                assert(s@ =~= old(s)@ + line_for(op));
            }
        },
        (0x0, 0x0, 0xE, 0xE) => {
            s.append("RET");
            proof {
                assert(s@ =~= old(s)@ + line_for(op));
            }
        },
        (0x1, _, _, _) => {
            s.append("JP ");
            push_hex(s, nnnv);
            proof {
                assert(s@ =~= old(s)@ + line_for(op));
            }
        },
        (0x2, _, _, _) => {
            s.append("CALL ");
            push_hex(s, nnnv);
            proof {
                assert(s@ =~= old(s)@ + line_for(op));
            }
        },
        (0x3, _, _, _) => {
            s.append("SE ");
            push_hex(s, xv);
            s.append(", ");
            push_hex(s, kkv);
            s.append(" ; (V");
            push_dec(s, xv);
            s.append(" == ");
            push_dec(s, kkv);
            s.append(" ? skip)");
            proof {
                assert(s@ =~= old(s)@ + line_for(op));
            }
        },
        (0x4, _, _, _) => {
            s.append("SNE ");
            push_hex(s, xv);
            s.append(", ");
            push_hex(s, kkv);
            s.append(" ; (V");
            push_dec(s, xv);
            s.append(" != ");
            push_dec(s, kkv);
            s.append(" ? skip)");
            proof {
                assert(s@ =~= old(s)@ + line_for(op));
            }
        },
        (0x5, _, _, 0x0) => {
            s.append("SE ");
            push_hex(s, xv);
            s.append(", ");
            push_hex(s, yv);
            s.append(" ; (V");
            push_dec(s, xv);
            s.append(" == V");
            push_dec(s, yv);
            s.append(" ? skip)");
            proof {
                assert(s@ =~= old(s)@ + line_for(op));
            }
        },
        (0x6, _, _, _) => {
            s.append("LD ");
            push_hex(s, xv);
            s.append(", ");
            push_hex(s, kkv);
            s.append(" ; (V");
            push_dec(s, xv);
            s.append(" = ");
            push_dec(s, kkv);
            s.append(")");
            proof {
                assert(s@ =~= old(s)@ + line_for(op));
            }
        },
        (0x7, _, _, _) => {
            s.append("ADD ");
            push_hex(s, xv);
            s.append(", ");
            push_hex(s, kkv);
            s.append(" ; (V");
            push_dec(s, xv);
            s.append(" = V");
            push_dec(s, xv);
            s.append(" + ");
            push_dec(s, kkv);
            s.append(")");
            proof {
                assert(s@ =~= old(s)@ + line_for(op));
            }
        },
        _ => {
            proof {
                assert(s@ =~= old(s)@ + line_for(op));
            }
        },
    }
}

/// One nibble group of [`push_line`].
#[verifier::rlimit(100)]
fn push_line_alu(s: &mut String, op: u16)
    requires
        nib0(op) == 0x8 || nib0(op) == 0x9,
    ensures
        final(s)@ == old(s)@ + line_for(op),
{
    proof {
        lemma_nib_bounds(op);
    }
    let xv = (op & 0x0F00) >> 8u16;
    let yv = (op & 0x00F0) >> 4u16;
    let nv = op & 0x000F;
    let kkv = op & 0x00FF;
    let nnnv = op & 0x0FFF;
    match ((op & 0xF000) >> 12u16, xv, yv, nv) {
        (0x8, _, _, 0x0) => {
            s.append("LD ");
            push_hex(s, xv);
            s.append(", ");
            push_hex(s, yv);
            s.append(" ; (V");
            push_dec(s, xv);
            s.append(" = V");
            push_dec(s, yv);
            s.append(")");
            proof {
                assert(s@ =~= old(s)@ + line_for(op));
            }
        },
        (0x8, _, _, 0x1) => {
            s.append("OR ");
            push_hex(s, xv);
            s.append(", ");
            push_hex(s, yv);
            s.append(" ; (V");
            push_dec(s, xv);
            s.append(" = V");
            push_dec(s, xv);
            s.append(" OR V");
            push_dec(s, yv);
            s.append(")");
            proof {
                assert(s@ =~= old(s)@ + line_for(op));
            }
        },
        (0x8, _, _, 0x2) => {
            s.append("AND ");
            push_hex(s, xv);
            s.append(", ");
            push_hex(s, yv);
            s.append(" ; (V");
            push_dec(s, xv);
            s.append(" = V");
            push_dec(s, xv);
            s.append(" AND V");
            push_dec(s, yv);
            s.append(")");
            proof {
                assert(s@ =~= old(s)@ + line_for(op));
            }
        },
        (0x8, _, _, 0x3) => {
            s.append("XOR ");
            push_hex(s, xv);
            s.append(", ");
            push_hex(s, yv);
            s.append(" ; (V");
            push_dec(s, xv);
            s.append(" = V");
            push_dec(s, xv);
            s.append(" XOR V");
            push_dec(s, yv);
            s.append(")");
            proof {
                assert(s@ =~= old(s)@ + line_for(op));
            }
        },
        (0x8, _, _, 0x4) => {
            s.append("ADD ");
            push_hex(s, xv);
            s.append(", ");
            push_hex(s, yv);
            s.append(" ; (V");
            push_dec(s, xv);
            s.append(" = V");
            push_dec(s, xv);
            s.append(" + V");
            push_dec(s, yv);
            s.append(", VF = carry)");
            proof {
                assert(s@ =~= old(s)@ + line_for(op));
            }
        },
        (0x8, _, _, 0x5) => {
            s.append("SUB ");
            push_hex(s, xv);
            s.append(", ");
            push_hex(s, yv);
            s.append(" ; (V");
            push_dec(s, xv);
            s.append(" = V");
            push_dec(s, xv);
            s.append(" - V");
            push_dec(s, yv);
            s.append(", VF = !borrow)");
            proof {
                assert(s@ =~= old(s)@ + line_for(op));
            }
        },
        (0x8, _, _, 0x6) => {
            s.append("SHR ");
            push_hex(s, xv);
            s.append(" {, ");
            push_hex(s, yv);
            s.append("} ; (V");
            push_dec(s, xv);
            s.append(" = V");
            push_dec(s, xv);
            s.append(" >> 1, VF = LSB)");
            proof {
                assert(s@ =~= old(s)@ + line_for(op));
            }
        },
        (0x8, _, _, 0x7) => {
            s.append("SUB ");
            push_hex(s, xv);
            s.append(", ");
            push_hex(s, yv);
            s.append(" ; (V");
            push_dec(s, xv);
            s.append(" = V");
            push_dec(s, yv);
            s.append(" - V");
            push_dec(s, xv);
            s.append(", VF = !borrow)");
            proof {
                assert(s@ =~= old(s)@ + line_for(op));
            }
        },
        (0x8, _, _, 0xE) => {
            s.append("SHL ");
            push_hex(s, xv);
            s.append(" {, ");
            push_hex(s, yv);
            s.append("} ; (V");
            push_dec(s, xv);
            s.append(" = V");
            push_dec(s, xv);
            s.append(" << 1, VF = MSB)");
            proof {
                assert(s@ =~= old(s)@ + line_for(op));
            }
        },
        (0x9, _, _, 0x0) => {
            s.append("SE ");
            push_hex(s, xv);
            s.append(", ");
            push_hex(s, yv);
            s.append(" ; (V");
            push_dec(s, xv);
            s.append(" != V");
            push_dec(s, yv);
            s.append(" ? skip)");
            proof {
                assert(s@ =~= old(s)@ + line_for(op));
            }
        },
        _ => {
            proof {
                assert(s@ =~= old(s)@ + line_for(op));
            }
        },
    }
}

/// One nibble group of [`push_line`].
#[verifier::rlimit(100)]
fn push_line_addr(s: &mut String, op: u16)
    requires
        0xA <= nib0(op) <= 0xD,
    ensures
        final(s)@ == old(s)@ + line_for(op),
{
    proof {
        lemma_nib_bounds(op);
    }
    let xv = (op & 0x0F00) >> 8u16;
    let yv = (op & 0x00F0) >> 4u16;
    let nv = op & 0x000F;
    let kkv = op & 0x00FF;
    let nnnv = op & 0x0FFF;
    match ((op & 0xF000) >> 12u16, xv, yv, nv) {
        (0xA, _, _, _) => {
            s.append("LD I, ");
            push_hex(s, nnnv);
            s.append(" ; (I = ");
            push_dec(s, nnnv);
            s.append(")");
            proof {
                assert(s@ =~= old(s)@ + line_for(op));
            }
        },
        (0xB, _, _, _) => {
            s.append("JP V0, ");
            push_hex(s, nnnv);
            s.append(" ; (PC = V0 + ");
            push_dec(s, nnnv);
            s.append(")");
            proof {
                assert(s@ =~= old(s)@ + line_for(op));
            }
        },
        (0xC, _, _, _) => {
            s.append("RND ");
            push_hex(s, xv);
            s.append(", ");
            push_hex(s, kkv);
            s.append(" ; (V");
            push_dec(s, xv);
            s.append(" = rand() AND ");
            push_hex(s, kkv);
            s.append(")");
            proof {
                assert(s@ =~= old(s)@ + line_for(op));
            }
        },
        (0xD, _, _, _) => {
            s.append("DRW ");
            push_hex(s, xv);
            s.append(", ");
            push_hex(s, yv);
            s.append(", ");
            push_hex(s, nv);
            s.append(" ; ((V");
            push_dec(s, xv);
            s.append(", V");
            push_dec(s, yv);
            s.append(") -> ");
            push_dec(s, nv);
            s.append(")");
            proof {
                assert(s@ =~= old(s)@ + line_for(op));
            }
        },
        _ => {
            proof {
                assert(s@ =~= old(s)@ + line_for(op));
            }
        },
    }
}

/// One nibble group of [`push_line`].
#[verifier::rlimit(100)]
fn push_line_sys(s: &mut String, op: u16)
    requires
        nib0(op) == 0xE || nib0(op) == 0xF,
    ensures
        final(s)@ == old(s)@ + line_for(op),
{
    proof {
        lemma_nib_bounds(op);
    }
    let xv = (op & 0x0F00) >> 8u16;
    let yv = (op & 0x00F0) >> 4u16;
    let nv = op & 0x000F;
    let kkv = op & 0x00FF;
    let nnnv = op & 0x0FFF;
    match ((op & 0xF000) >> 12u16, xv, yv, nv) {
        (0xE, _, 0x9, 0xE) => {
            s.append("SKP ");
            push_hex(s, xv);
            s.append(" ; (key(V");
            push_dec(s, xv);
            s.append(") ? skip)");
            proof {
                assert(s@ =~= old(s)@ + line_for(op));
            }
        },
        (0xE, _, 0xA, 0x1) => {
            s.append("SKNP ");
            push_hex(s, xv);
            s.append(" ; (!key(V");
            push_dec(s, xv);
            s.append(") ? skip)");
            proof {
                assert(s@ =~= old(s)@ + line_for(op));
            }
        },
        (0xF, _, 0x0, 0x7) => {
            s.append("LD ");
            push_hex(s, xv);
            s.append(", DT ; (V");
            push_dec(s, xv);
            s.append(" = DT)");
            proof {
                assert(s@ =~= old(s)@ + line_for(op));
            }
        },
        (0xF, _, 0x0, 0xA) => {
            s.append("LD ");
            push_hex(s, xv);
            s.append(", K ; (Wait till keypress then V");
            push_dec(s, xv);
            s.append(" = Key)");
            proof {
                assert(s@ =~= old(s)@ + line_for(op));
            }
        },
        (0xF, _, 0x1, 0x5) => {
            s.append("LD DT, ");
            push_hex(s, xv);
            s.append(" ; (DT = V");
            push_dec(s, xv);
            s.append(")");
            proof {
                assert(s@ =~= old(s)@ + line_for(op));
            }
        },
        (0xF, _, 0x1, 0x8) => {
            s.append("LD ST, ");
            push_hex(s, xv);
            s.append(" ; (ST = V");
            push_dec(s, xv);
            s.append(")");
            proof {
                assert(s@ =~= old(s)@ + line_for(op));
            }
        },
        (0xF, _, 0x1, 0xE) => {
            s.append("ADD I, ");
            push_hex(s, xv);
            s.append(" ; (I = I + V");
            push_dec(s, xv);
            s.append(")");
            proof {
                assert(s@ =~= old(s)@ + line_for(op));
            }
        },
        (0xF, _, 0x2, 0x9) => {
            s.append("LD F, ");
            push_hex(s, xv);
            s.append(" ; (I = Location of sprite for V");
            push_dec(s, xv);
            s.append(")");
            proof {
                assert(s@ =~= old(s)@ + line_for(op));
            }
        },
        (0xF, _, 0x3, 0x3) => {
            s.append("LD B, ");
            push_hex(s, xv);
            s.append(" ; (BCD(V");
            push_dec(s, xv);
            s.append(") -> (I, I+1, I+2))");
            proof {
                assert(s@ =~= old(s)@ + line_for(op));
            }
        },
        (0xF, _, 0x5, 0x5) => {
            s.append("LD [I], ");
            push_hex(s, xv);
            s.append(" ; (mem[I + x] = Vx for x in 0..");
            push_dec(s, xv);
            s.append(")");
            proof {
                assert(s@ =~= old(s)@ + line_for(op));
            }
        },
        (0xF, _, 0x6, 0x5) => {
            s.append("LD ");
            push_hex(s, xv);
            s.append(", [I] ; (Vx = mem[I + x] for x in 0..");
            push_dec(s, xv);
            s.append(")");
            proof {
                assert(s@ =~= old(s)@ + line_for(op));
            }
        },
        _ => {
            proof {
                assert(s@ =~= old(s)@ + line_for(op));
            }
        },
    }
}

/// Append the mnemonic line for one opcode.
fn push_line(s: &mut String, op: u16)
    ensures
        final(s)@ == old(s)@ + line_for(op),
{
    proof {
        lemma_nib_bounds(op);
    }
    let n0 = (op & 0xF000) >> 12u16;
    if n0 <= 0x7 {
        push_line_low(s, op);
    } else if n0 <= 0x9 {
        push_line_alu(s, op);
    } else if n0 <= 0xD {
        push_line_addr(s, op);
    } else {
        push_line_sys(s, op);
    }
}

// ---------------------------------------------------------------------------
// The disassembler
// ---------------------------------------------------------------------------

/// Walks a borrowed program image two bytes at a time and renders each
/// opcode.
pub struct Disassembler<'a> {
    program: &'a Vec<u8>,
    pc: usize,
}

impl<'a> View for Disassembler<'a> {
    type V = Seq<u8>;

    closed spec fn view(&self) -> Seq<u8> {
        self.program@
    }
}

impl<'a> Disassembler<'a> {
    pub fn new(bytes: &'a Vec<u8>) -> (r: Self)
        ensures
            r@ == bytes@,
    {
        Self { program: bytes, pc: 0 }
    }

    /// The opcode under the cursor, advancing past it; `None` once fewer
    /// than two bytes remain.
    fn read_opcode(&mut self) -> (r: Option<u16>)
        ensures
            final(self)@ == old(self)@,
            match r {
                Some(op) => {
                    &&& old(self).pc + 2 <= old(self)@.len()
                    &&& op == op_at(old(self)@, old(self).pc as int)
                    &&& final(self).pc == old(self).pc + 2
                },
                None => {
                    &&& old(self).pc + 2 > old(self)@.len()
                    &&& final(self).pc == old(self).pc
                },
            },
    {
        if self.program.len() < 2 || self.pc > self.program.len() - 2 {
            None
        } else {
            let op = ((self.program[self.pc] as u16) << 8u16) | (self.program[self.pc + 1]
                as u16);
            self.pc = self.pc + 2;
            Some(op)
        }
    }

    /// Render the whole program, one line per full opcode, joined by
    /// newlines; a trailing odd byte is ignored.
    pub fn disassemble(&mut self) -> (r: String)
        ensures
            r@ == spec_disassemble(old(self)@),
            final(self)@ == old(self)@,
    {
        self.pc = 0;
        let mut out = String::new();
        let ghost prog = self@;
        while self.program.len() >= 2 && self.pc <= self.program.len() - 2
            invariant
                self@ == prog,
                self.pc <= prog.len(),
                out@ + disasm_from(prog, self.pc as int) == spec_disassemble(prog),
            decreases prog.len() - self.pc,
        {
            match self.read_opcode() {
                Some(op) => {
                    push_line(&mut out, op);
                    if self.program.len() >= 2 && self.pc <= self.program.len() - 2 {
                        out.append("\n");
                        proof {
                            reveal_strlit("\n");
                            assert(("\n")@ =~= seq!['\n']);
                            assert(out@ + disasm_from(prog, self.pc as int) =~= spec_disassemble(
                                prog,
                            ));
                        }
                    } else {
                        proof {
                            assert(out@ + disasm_from(prog, self.pc as int) =~= spec_disassemble(
                                prog,
                            ));
                        }
                    }
                },
                None => {
                    proof {
                        assert(false);
                    }
                },
            }
        }
        proof {
            assert(out@ =~= spec_disassemble(prog));
        }
        out
    }
}

} // verus!
