use chipper8::chip8::CHIP8;
use chipper8::machine::Chip8Error;

const NO_KEYS: [bool; 16] = [false; 16];

fn boot(bytes: &[u8]) -> CHIP8 {
    CHIP8::new(bytes.to_vec()).unwrap()
}

fn key(i: usize) -> [bool; 16] {
    let mut k = [false; 16];
    k[i] = true;
    k
}

#[test]
fn construct_round_trip_ld_v0() {
    // LD V0,0x05 then one tick: V0 = 5 and PC has advanced once.
    let mut cpu = boot(&[0x60, 0x05]);
    assert_eq!(cpu.pc(), 0x200);
    assert_eq!(cpu.tick(NO_KEYS), Ok(false));
    assert_eq!(cpu.reg(0), 5);
    assert_eq!(cpu.pc(), 0x202);
}

#[test]
fn construct_rejects_oversized_program() {
    assert_eq!(
        CHIP8::new(vec![0u8; 3585]).err(),
        Some(Chip8Error::OutOfBoundsAddress)
    );
    assert!(CHIP8::new(vec![0u8; 3584]).is_ok());
}

#[test]
fn fresh_machine_state() {
    let cpu = boot(&[]);
    assert_eq!(cpu.pc(), 0x200);
    assert_eq!(cpu.index_reg(), 0);
    assert_eq!(cpu.delay_timer(), 0);
    assert_eq!(cpu.sound_timer(), 0);
    assert_eq!(cpu.stack_depth(), 0);
    for x in 0..16 {
        assert_eq!(cpu.reg(x), 0);
    }
    for r in 0..32 {
        for c in 0..64 {
            assert!(!cpu.pixel(r, c));
        }
    }
}

#[test]
fn add_imm_wraps_without_carry_flag() {
    // LD V0,0xFF; ADD V0,0x01: wraps to 0, VF untouched.
    let mut cpu = boot(&[0x60, 0xFF, 0x70, 0x01]);
    assert_eq!(cpu.tick(NO_KEYS), Ok(false));
    assert_eq!(cpu.tick(NO_KEYS), Ok(false));
    assert_eq!(cpu.reg(0), 0x00);
    assert_eq!(cpu.reg(0xF), 0x00);
    assert_eq!(cpu.pc(), 0x204);
}

#[test]
fn add_reg_sets_carry() {
    // LD V0,0xFF; LD V1,0x01; ADD V0,V1: V0 = 0, VF = 1.
    let mut cpu = boot(&[0x60, 0xFF, 0x61, 0x01, 0x80, 0x14]);
    for _ in 0..3 {
        cpu.tick(NO_KEYS).unwrap();
    }
    assert_eq!(cpu.reg(0), 0x00);
    assert_eq!(cpu.reg(0xF), 1);
}

#[test]
fn add_reg_clears_carry() {
    // LD V0,0x01; LD V1,0x01; ADD V0,V1: V0 = 2, VF = 0.
    let mut cpu = boot(&[0x60, 0x01, 0x61, 0x01, 0x80, 0x14]);
    for _ in 0..3 {
        cpu.tick(NO_KEYS).unwrap();
    }
    assert_eq!(cpu.reg(0), 0x02);
    assert_eq!(cpu.reg(0xF), 0);
}

#[test]
fn shl_captures_msb_before_shift() {
    // LD V0,0x81; SHL V0: V0 = 0x02, VF = 1.
    let mut cpu = boot(&[0x60, 0x81, 0x80, 0x0E]);
    cpu.tick(NO_KEYS).unwrap();
    cpu.tick(NO_KEYS).unwrap();
    assert_eq!(cpu.reg(0), 0x02);
    assert_eq!(cpu.reg(0xF), 1);
}

#[test]
fn shr_captures_lsb() {
    // LD V0,0x05; SHR V0: V0 = 2, VF = 1.
    let mut cpu = boot(&[0x60, 0x05, 0x80, 0x06]);
    cpu.tick(NO_KEYS).unwrap();
    cpu.tick(NO_KEYS).unwrap();
    assert_eq!(cpu.reg(0), 0x02);
    assert_eq!(cpu.reg(0xF), 1);
}

#[test]
fn or_and_xor() {
    // V0 = 0xF0, V1 = 0x3C.
    let mut cpu = boot(&[0x60, 0xF0, 0x61, 0x3C, 0x80, 0x11]);
    for _ in 0..3 {
        cpu.tick(NO_KEYS).unwrap();
    }
    assert_eq!(cpu.reg(0), 0xFC);

    let mut cpu = boot(&[0x60, 0xF0, 0x61, 0x3C, 0x80, 0x12]);
    for _ in 0..3 {
        cpu.tick(NO_KEYS).unwrap();
    }
    assert_eq!(cpu.reg(0), 0x30);

    let mut cpu = boot(&[0x60, 0xF0, 0x61, 0x3C, 0x80, 0x13]);
    for _ in 0..3 {
        cpu.tick(NO_KEYS).unwrap();
    }
    assert_eq!(cpu.reg(0), 0xCC);
}

#[test]
fn sub_sets_not_borrow() {
    // V0 = 5, V1 = 3; SUB V0,V1: V0 = 2, VF = 1.
    let mut cpu = boot(&[0x60, 0x05, 0x61, 0x03, 0x80, 0x15]);
    for _ in 0..3 {
        cpu.tick(NO_KEYS).unwrap();
    }
    assert_eq!(cpu.reg(0), 2);
    assert_eq!(cpu.reg(0xF), 1);
}

#[test]
fn sub_wraps_on_borrow() {
    // V0 = 3, V1 = 5; SUB V0,V1: V0 = 254, VF = 0.
    let mut cpu = boot(&[0x60, 0x03, 0x61, 0x05, 0x80, 0x15]);
    for _ in 0..3 {
        cpu.tick(NO_KEYS).unwrap();
    }
    assert_eq!(cpu.reg(0), 254);
    assert_eq!(cpu.reg(0xF), 0);
}

#[test]
fn subn_subtracts_reversed() {
    // V0 = 3, V1 = 5; SUBN V0,V1: V0 = 2, VF = 1.
    let mut cpu = boot(&[0x60, 0x03, 0x61, 0x05, 0x80, 0x17]);
    for _ in 0..3 {
        cpu.tick(NO_KEYS).unwrap();
    }
    assert_eq!(cpu.reg(0), 2);
    assert_eq!(cpu.reg(0xF), 1);
}

#[test]
fn ld_reg_copies() {
    let mut cpu = boot(&[0x61, 0x2A, 0x80, 0x10]);
    cpu.tick(NO_KEYS).unwrap();
    cpu.tick(NO_KEYS).unwrap();
    assert_eq!(cpu.reg(0), 0x2A);
}

#[test]
fn skips_on_equal_immediate() {
    // SE V0,0x00 with V0 = 0 skips the next instruction.
    let mut cpu = boot(&[0x30, 0x00]);
    cpu.tick(NO_KEYS).unwrap();
    assert_eq!(cpu.pc(), 0x204);
    // SE V0,0x01 with V0 = 0 does not skip.
    let mut cpu = boot(&[0x30, 0x01]);
    cpu.tick(NO_KEYS).unwrap();
    assert_eq!(cpu.pc(), 0x202);
}

#[test]
fn skips_on_not_equal_immediate() {
    let mut cpu = boot(&[0x40, 0x01]);
    cpu.tick(NO_KEYS).unwrap();
    assert_eq!(cpu.pc(), 0x204);
    let mut cpu = boot(&[0x40, 0x00]);
    cpu.tick(NO_KEYS).unwrap();
    assert_eq!(cpu.pc(), 0x202);
}

#[test]
fn skips_on_register_compare() {
    // SE V0,V1 skips when equal.
    let mut cpu = boot(&[0x50, 0x10]);
    cpu.tick(NO_KEYS).unwrap();
    assert_eq!(cpu.pc(), 0x204);
    // SNE V0,V1 with V1 = 1 skips when different.
    let mut cpu = boot(&[0x61, 0x01, 0x90, 0x10]);
    cpu.tick(NO_KEYS).unwrap();
    cpu.tick(NO_KEYS).unwrap();
    assert_eq!(cpu.pc(), 0x206);
}

#[test]
fn jp_sets_pc() {
    let mut cpu = boot(&[0x16, 0x00]);
    cpu.tick(NO_KEYS).unwrap();
    assert_eq!(cpu.pc(), 0x600);
}

#[test]
fn jp_v0_adds_offset() {
    let mut cpu = boot(&[0x60, 0x05, 0xB3, 0x00]);
    cpu.tick(NO_KEYS).unwrap();
    cpu.tick(NO_KEYS).unwrap();
    assert_eq!(cpu.pc(), 0x305);
}

#[test]
fn ld_i_and_add_i() {
    let mut cpu = boot(&[0xA1, 0x23, 0x60, 0x05, 0xF0, 0x1E]);
    for _ in 0..3 {
        cpu.tick(NO_KEYS).unwrap();
    }
    assert_eq!(cpu.index_reg(), 0x128);
}

#[test]
fn ld_font_address() {
    // LD V0,3; LD F,V0: I = 3 * 5.
    let mut cpu = boot(&[0x60, 0x03, 0xF0, 0x29]);
    cpu.tick(NO_KEYS).unwrap();
    cpu.tick(NO_KEYS).unwrap();
    assert_eq!(cpu.index_reg(), 15);
}

#[test]
fn call_ret_round_trip() {
    // CALL 0x300; the word at 0x300 is RET.
    let mut program = vec![0x23u8, 0x00];
    program.resize(0x100, 0);
    program.push(0x00);
    program.push(0xEE);
    let mut cpu = boot(&program);
    assert_eq!(cpu.tick(NO_KEYS), Ok(false));
    assert_eq!(cpu.pc(), 0x300);
    assert_eq!(cpu.stack_depth(), 1);
    assert_eq!(cpu.tick(NO_KEYS), Ok(false));
    assert_eq!(cpu.pc(), 0x202);
    assert_eq!(cpu.stack_depth(), 0);
}

#[test]
fn seventeenth_nested_call_overflows() {
    // Seventeen CALLs, each to the next instruction.
    let mut program = Vec::new();
    for i in 0..17u16 {
        let target = 0x202 + 2 * i;
        program.push(0x20 | (target >> 8) as u8);
        program.push((target & 0xFF) as u8);
    }
    let mut cpu = boot(&program);
    for _ in 0..16 {
        assert_eq!(cpu.tick(NO_KEYS), Ok(false));
    }
    assert_eq!(cpu.stack_depth(), 16);
    assert_eq!(cpu.tick(NO_KEYS), Err(Chip8Error::StackOverflow));
    assert_eq!(cpu.stack_depth(), 16);
}

#[test]
fn ret_on_empty_stack_underflows() {
    let mut cpu = boot(&[0x00, 0xEE]);
    assert_eq!(cpu.tick(NO_KEYS), Err(Chip8Error::StackUnderflow));
    // Execution halted without moving the program counter.
    assert_eq!(cpu.pc(), 0x200);
}

#[test]
fn draw_wraps_around_right_edge() {
    // LD V0,60; LD V1,0; LD I,0x208; DRW V0,V1,1 over sprite byte 0xFF.
    let mut cpu = boot(&[0x60, 0x3C, 0x61, 0x00, 0xA2, 0x08, 0xD0, 0x11, 0xFF]);
    for _ in 0..3 {
        assert_eq!(cpu.tick(NO_KEYS), Ok(false));
    }
    assert_eq!(cpu.tick(NO_KEYS), Ok(true));
    for c in 60..64 {
        assert!(cpu.pixel(0, c));
    }
    for c in 0..4 {
        assert!(cpu.pixel(0, c));
    }
    for c in 4..60 {
        assert!(!cpu.pixel(0, c));
    }
    for c in 0..64 {
        assert!(!cpu.pixel(1, c));
    }
    assert_eq!(cpu.reg(0xF), 0);
}

#[test]
fn draw_twice_collides_and_erases() {
    let mut cpu = boot(&[
        0x60, 0x3C, 0x61, 0x00, 0xA2, 0x0A, 0xD0, 0x11, 0xD0, 0x11, 0xFF,
    ]);
    for _ in 0..4 {
        cpu.tick(NO_KEYS).unwrap();
    }
    assert_eq!(cpu.reg(0xF), 0);
    assert_eq!(cpu.tick(NO_KEYS), Ok(true));
    assert_eq!(cpu.reg(0xF), 1);
    for c in 0..64 {
        assert!(!cpu.pixel(0, c));
    }
}

#[test]
fn cls_clears_display() {
    // Draw the 0xFF sprite, then CLS: every cell is false again.
    let mut cpu = boot(&[
        0x60, 0x3C, 0x61, 0x00, 0xA2, 0x0A, 0xD0, 0x11, 0x00, 0xE0, 0xFF,
    ]);
    for _ in 0..4 {
        cpu.tick(NO_KEYS).unwrap();
    }
    assert!(cpu.pixel(0, 60));
    assert_eq!(cpu.tick(NO_KEYS), Ok(true));
    for r in 0..32 {
        for c in 0..64 {
            assert!(!cpu.pixel(r, c));
        }
    }
}

#[test]
fn draw_renders_font_glyph() {
    // LD V0,0; LD F,V0; DRW V0,V0,5 draws the 4x5 glyph for 0.
    let mut cpu = boot(&[0x60, 0x00, 0xF0, 0x29, 0xD0, 0x05]);
    for _ in 0..3 {
        cpu.tick(NO_KEYS).unwrap();
    }
    // Row 0 of the glyph is 0xF0: four lit pixels then four dark.
    for c in 0..4 {
        assert!(cpu.pixel(0, c));
    }
    for c in 4..8 {
        assert!(!cpu.pixel(0, c));
    }
    // Row 1 is 0x90: lit, dark, dark, lit.
    assert!(cpu.pixel(1, 0));
    assert!(!cpu.pixel(1, 1));
    assert!(!cpu.pixel(1, 2));
    assert!(cpu.pixel(1, 3));
}

#[test]
fn key_wait_blocks_then_resumes() {
    // LD V0,5; LD DT,V0; LD V1,K.
    let mut cpu = boot(&[0x60, 0x05, 0xF0, 0x15, 0xF1, 0x0A]);
    cpu.tick(NO_KEYS).unwrap();
    cpu.tick(NO_KEYS).unwrap();
    assert_eq!(cpu.delay_timer(), 5);
    assert_eq!(cpu.pc(), 0x204);
    // No key: the program counter stays put, tick after tick, while the
    // delay timer keeps running.
    assert_eq!(cpu.tick(NO_KEYS), Ok(false));
    assert_eq!(cpu.pc(), 0x204);
    assert_eq!(cpu.delay_timer(), 4);
    assert_eq!(cpu.tick(NO_KEYS), Ok(false));
    assert_eq!(cpu.pc(), 0x204);
    assert_eq!(cpu.delay_timer(), 3);
    // A key arrives: V1 gets its index and the program counter advances
    // exactly once.
    assert_eq!(cpu.tick(key(7)), Ok(false));
    assert_eq!(cpu.reg(1), 7);
    assert_eq!(cpu.pc(), 0x206);
}

#[test]
fn key_wait_takes_highest_pressed() {
    let mut cpu = boot(&[0xF0, 0x0A]);
    let mut keys = [false; 16];
    keys[2] = true;
    keys[9] = true;
    cpu.tick(keys).unwrap();
    assert_eq!(cpu.reg(0), 9);
}

#[test]
fn skp_and_sknp() {
    // SKP V0 with key 0 pressed: skip.
    let mut cpu = boot(&[0xE0, 0x9E]);
    cpu.tick(key(0)).unwrap();
    assert_eq!(cpu.pc(), 0x204);
    // SKP V0 with no key: no skip.
    let mut cpu = boot(&[0xE0, 0x9E]);
    cpu.tick(NO_KEYS).unwrap();
    assert_eq!(cpu.pc(), 0x202);
    // SKNP V0 with no key: skip.
    let mut cpu = boot(&[0xE0, 0xA1]);
    cpu.tick(NO_KEYS).unwrap();
    assert_eq!(cpu.pc(), 0x204);
}

#[test]
fn timers_count_down_and_saturate() {
    // LD V0,2; LD ST,V0; then no-ops.
    let mut cpu = boot(&[0x60, 0x02, 0xF0, 0x18, 0x00, 0x00, 0x00, 0x00, 0x00, 0x00]);
    cpu.tick(NO_KEYS).unwrap();
    cpu.tick(NO_KEYS).unwrap();
    assert_eq!(cpu.sound_timer(), 2);
    cpu.tick(NO_KEYS).unwrap();
    assert_eq!(cpu.sound_timer(), 1);
    cpu.tick(NO_KEYS).unwrap();
    assert_eq!(cpu.sound_timer(), 0);
    cpu.tick(NO_KEYS).unwrap();
    assert_eq!(cpu.sound_timer(), 0);
}

#[test]
fn ld_vx_dt_reads_timer() {
    // LD V0,3; LD DT,V0; LD V1,DT.
    let mut cpu = boot(&[0x60, 0x03, 0xF0, 0x15, 0xF1, 0x07]);
    for _ in 0..3 {
        cpu.tick(NO_KEYS).unwrap();
    }
    // The third tick decrements DT to 2 before the load executes.
    assert_eq!(cpu.reg(1), 2);
}

#[test]
fn rnd_masked_with_zero_is_zero() {
    // RND V0,0x00 must give 0 whatever byte was drawn.
    let mut cpu = boot(&[0x60, 0xAA, 0xC0, 0x00]);
    cpu.tick(NO_KEYS).unwrap();
    cpu.tick(NO_KEYS).unwrap();
    assert_eq!(cpu.reg(0), 0);
}

#[test]
fn rnd_respects_mask() {
    let mut cpu = boot(&[0xC0, 0x0F]);
    cpu.tick(NO_KEYS).unwrap();
    assert!(cpu.reg(0) <= 0x0F);
}

#[test]
fn bcd_digits_read_back() {
    // LD V0,234; LD I,0x300; LD B,V0; LD V0..V2,[I].
    let mut cpu = boot(&[0x60, 0xEA, 0xA3, 0x00, 0xF0, 0x33, 0xF2, 0x65]);
    for _ in 0..4 {
        cpu.tick(NO_KEYS).unwrap();
    }
    assert_eq!(cpu.reg(0), 2);
    assert_eq!(cpu.reg(1), 3);
    assert_eq!(cpu.reg(2), 4);
}

#[test]
fn store_and_load_registers() {
    let mut cpu = boot(&[
        0x60, 0x0A, 0x61, 0x0B, 0x62, 0x0C, // V0..V2
        0xA3, 0x00, // I = 0x300
        0xF2, 0x55, // store V0..V2
        0x60, 0x00, 0x61, 0x00, 0x62, 0x00, // clear
        0xF2, 0x65, // load V0..V2
    ]);
    for _ in 0..9 {
        cpu.tick(NO_KEYS).unwrap();
    }
    assert_eq!(cpu.reg(0), 0x0A);
    assert_eq!(cpu.reg(1), 0x0B);
    assert_eq!(cpu.reg(2), 0x0C);
}

#[test]
fn fetch_out_of_memory_fails() {
    // JP 0xFFF: the next fetch would read past the end of memory.
    let mut cpu = boot(&[0x1F, 0xFF]);
    cpu.tick(NO_KEYS).unwrap();
    assert_eq!(cpu.tick(NO_KEYS), Err(Chip8Error::OutOfBoundsAddress));
}

#[test]
fn draw_out_of_memory_fails() {
    // LD I,0xFFF; DRW V0,V0,2 reads two sprite bytes past the end.
    let mut cpu = boot(&[0xAF, 0xFF, 0xD0, 0x02]);
    cpu.tick(NO_KEYS).unwrap();
    assert_eq!(cpu.tick(NO_KEYS), Err(Chip8Error::OutOfBoundsAddress));
}

#[test]
fn bcd_out_of_memory_fails() {
    let mut cpu = boot(&[0xAF, 0xFE, 0xF0, 0x33]);
    cpu.tick(NO_KEYS).unwrap();
    assert_eq!(cpu.tick(NO_KEYS), Err(Chip8Error::OutOfBoundsAddress));
}

#[test]
fn store_registers_out_of_memory_fails() {
    let mut cpu = boot(&[0xAF, 0xFF, 0xF1, 0x55]);
    cpu.tick(NO_KEYS).unwrap();
    assert_eq!(cpu.tick(NO_KEYS), Err(Chip8Error::OutOfBoundsAddress));
}

#[test]
fn load_registers_out_of_memory_fails() {
    let mut cpu = boot(&[0xAF, 0xFF, 0xF1, 0x65]);
    cpu.tick(NO_KEYS).unwrap();
    assert_eq!(cpu.tick(NO_KEYS), Err(Chip8Error::OutOfBoundsAddress));
}

#[test]
fn unknown_opcode_is_a_nop() {
    let mut cpu = boot(&[0x00, 0x00]);
    assert_eq!(cpu.tick(NO_KEYS), Ok(false));
    assert_eq!(cpu.pc(), 0x202);
}

#[test]
fn exec_opcode_runs_one_instruction() {
    // exec_opcode executes an already-fetched instruction without a fetch.
    let mut cpu = boot(&[]);
    assert_eq!(cpu.exec_opcode(0x6A05, NO_KEYS), Ok(false));
    assert_eq!(cpu.reg(0xA), 5);
    assert_eq!(cpu.pc(), 0x202);
    assert_eq!(cpu.exec_opcode(0x00E0, NO_KEYS), Ok(true));
}
