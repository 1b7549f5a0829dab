use chipper8::disassembler::Disassembler;

fn disasm(bytes: &[u8]) -> String {
    let owned = bytes.to_vec();
    let mut d = Disassembler::new(&owned);
    d.disassemble()
}

#[test]
fn empty_program_disassembles_to_nothing() {
    assert_eq!(disasm(&[]), "");
    assert_eq!(disasm(&[0x12]), "");
}

#[test]
fn trailing_odd_byte_is_ignored() {
    assert_eq!(disasm(&[0x00, 0xE0, 0xFF]), "CLS");
}

#[test]
fn cls_and_ret_lines() {
    assert_eq!(disasm(&[0x00, 0xE0, 0x00, 0xEE]), "CLS\nRET");
}

#[test]
fn jumps_and_calls_in_hex() {
    assert_eq!(disasm(&[0x1A, 0xBC]), "JP abc");
    assert_eq!(disasm(&[0x22, 0x02]), "CALL 202");
    assert_eq!(disasm(&[0xB1, 0x23]), "JP V0, 123 ; (PC = V0 + 291)");
}

#[test]
fn loads_and_arithmetic() {
    assert_eq!(disasm(&[0x61, 0x23]), "LD 1, 23 ; (V1 = 35)");
    assert_eq!(disasm(&[0x70, 0xFF]), "ADD 0, ff ; (V0 = V0 + 255)");
    assert_eq!(
        disasm(&[0x8A, 0xB4]),
        "ADD a, b ; (V10 = V10 + V11, VF = carry)"
    );
    assert_eq!(
        disasm(&[0x85, 0x66]),
        "SHR 5 {, 6} ; (V5 = V5 >> 1, VF = LSB)"
    );
    assert_eq!(
        disasm(&[0x85, 0x6E]),
        "SHL 5 {, 6} ; (V5 = V5 << 1, VF = MSB)"
    );
    assert_eq!(
        disasm(&[0x83, 0x47]),
        "SUB 3, 4 ; (V3 = V4 - V3, VF = !borrow)"
    );
}

#[test]
fn skips_and_keys() {
    assert_eq!(disasm(&[0x3A, 0x10]), "SE a, 10 ; (V10 == 16 ? skip)");
    assert_eq!(disasm(&[0x4A, 0x10]), "SNE a, 10 ; (V10 != 16 ? skip)");
    assert_eq!(disasm(&[0x51, 0x20]), "SE 1, 2 ; (V1 == V2 ? skip)");
    assert_eq!(disasm(&[0x91, 0x20]), "SE 1, 2 ; (V1 != V2 ? skip)");
    assert_eq!(disasm(&[0xE1, 0x9E]), "SKP 1 ; (key(V1) ? skip)");
    assert_eq!(disasm(&[0xE1, 0xA1]), "SKNP 1 ; (!key(V1) ? skip)");
}

#[test]
fn index_timers_and_memory() {
    assert_eq!(disasm(&[0xA0, 0x50]), "LD I, 50 ; (I = 80)");
    assert_eq!(disasm(&[0xC3, 0xFF]), "RND 3, ff ; (V3 = rand() AND ff)");
    assert_eq!(disasm(&[0xD1, 0x2F]), "DRW 1, 2, f ; ((V1, V2) -> 15)");
    assert_eq!(disasm(&[0xF1, 0x07]), "LD 1, DT ; (V1 = DT)");
    assert_eq!(
        disasm(&[0xF1, 0x0A]),
        "LD 1, K ; (Wait till keypress then V1 = Key)"
    );
    assert_eq!(disasm(&[0xF1, 0x15]), "LD DT, 1 ; (DT = V1)");
    assert_eq!(disasm(&[0xF1, 0x18]), "LD ST, 1 ; (ST = V1)");
    assert_eq!(disasm(&[0xF1, 0x1E]), "ADD I, 1 ; (I = I + V1)");
    assert_eq!(
        disasm(&[0xF1, 0x29]),
        "LD F, 1 ; (I = Location of sprite for V1)"
    );
    assert_eq!(disasm(&[0xF5, 0x33]), "LD B, 5 ; (BCD(V5) -> (I, I+1, I+2))");
    assert_eq!(
        disasm(&[0xF5, 0x55]),
        "LD [I], 5 ; (mem[I + x] = Vx for x in 0..5)"
    );
    assert_eq!(
        disasm(&[0xF5, 0x65]),
        "LD 5, [I] ; (Vx = mem[I + x] for x in 0..5)"
    );
}

#[test]
fn unknown_opcodes_print_empty_lines() {
    assert_eq!(disasm(&[0xFF, 0xFF]), "");
    assert_eq!(disasm(&[0x00, 0x00, 0x00, 0xE0]), "\nCLS");
}

#[test]
fn disassemble_is_repeatable() {
    let bytes = vec![0x00, 0xE0, 0x61, 0x23, 0x00, 0xEE];
    let mut d = Disassembler::new(&bytes);
    let first = d.disassemble();
    let second = d.disassemble();
    assert_eq!(first, "CLS\nLD 1, 23 ; (V1 = 35)\nRET");
    assert_eq!(first, second);
}
