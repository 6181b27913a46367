use ferro8::machine::{Chip8, Chip8Error, Registers, DISPLAY_SIZE, SCREEN_WIDTH};

fn machine_with(rom: &[u8]) -> Chip8 {
    let mut chip8 = Chip8::new();
    chip8.load_rom(rom).unwrap();
    chip8
}

fn run(chip8: &mut Chip8, steps: usize) {
    for _ in 0..steps {
        chip8.step(0).unwrap();
    }
}

#[test]
fn inc_pc_moves_to_next_instruction() {
    let mut regs = Registers { v: [0; 16], i: 0, pc: 0x200 };
    regs.inc_pc();
    assert_eq!(regs.pc, 0x202);
}

#[test]
fn new_machine_holds_font_and_starts_at_program() {
    let chip8 = Chip8::new();
    assert_eq!(chip8.registers().pc, 0x200);
    assert_eq!(&chip8.memory()[0..5], &[0xF0, 0x90, 0x90, 0x90, 0xF0]);
    assert_eq!(&chip8.memory()[75..80], &[0xF0, 0x80, 0xF0, 0x80, 0x80]);
    assert!(chip8.memory()[80..].iter().all(|&b| b == 0));
    assert!(chip8.get_display_buffer().iter().all(|&p| p == 0));
    assert_eq!(chip8.delay_timer(), 0);
    assert_eq!(chip8.sound_timer(), 0);
}

#[test]
fn load_immediate_then_advance() {
    let mut chip8 = machine_with(&[0x60, 0x05]);
    chip8.step(0).unwrap();
    assert_eq!(chip8.registers().v[0], 5);
    assert_eq!(chip8.registers().pc, 0x202);
}

#[test]
fn draws_font_row_at_origin() {
    let mut chip8 = machine_with(&[0xA0, 0x00, 0xD0, 0x05]);
    run(&mut chip8, 2);
    let gfx = chip8.get_display_buffer();
    assert_eq!(&gfx[0..8], &[1, 1, 1, 1, 0, 0, 0, 0]);
    assert_eq!(&gfx[SCREEN_WIDTH..SCREEN_WIDTH + 8], &[1, 0, 0, 1, 0, 0, 0, 0]);
    assert_eq!(chip8.registers().v[0xF], 0);
    assert_eq!(gfx.iter().filter(|&&p| p == 1).count(), 14);
}

#[test]
fn timers_stop_at_zero() {
    let mut chip8 = Chip8::new();
    chip8.update_timers();
    assert_eq!(chip8.delay_timer(), 0);
    assert_eq!(chip8.sound_timer(), 0);
}

#[test]
fn timers_count_down_independently() {
    // LD V0, 3; LD DT, V0; LD V1, 1; LD ST, V1
    let mut chip8 = machine_with(&[0x60, 0x03, 0xF0, 0x15, 0x61, 0x01, 0xF1, 0x18]);
    run(&mut chip8, 4);
    assert!(chip8.should_play_sound());
    chip8.update_timers();
    assert_eq!(chip8.delay_timer(), 2);
    assert_eq!(chip8.sound_timer(), 0);
    assert!(!chip8.should_play_sound());
    chip8.update_timers();
    chip8.update_timers();
    chip8.update_timers();
    assert_eq!(chip8.delay_timer(), 0);
}

#[test]
fn call_then_return_resumes_after_call() {
    let mut chip8 = machine_with(&[0x23, 0x00]);
    chip8.load_into_memory(&[0x00, 0xEE], 0x300);
    chip8.step(0).unwrap();
    assert_eq!(chip8.registers().pc, 0x300);
    chip8.step(0).unwrap();
    assert_eq!(chip8.registers().pc, 0x202);
}

#[test]
fn seventeenth_nested_call_overflows() {
    // CALL 0x200, calling itself.
    let mut chip8 = machine_with(&[0x22, 0x00]);
    run(&mut chip8, 16);
    assert_eq!(chip8.step(0), Err(Chip8Error::StackOverflow));
    assert_eq!(chip8.registers().pc, 0x200);
}

#[test]
fn return_with_empty_stack_underflows() {
    let mut chip8 = machine_with(&[0x00, 0xEE]);
    assert_eq!(chip8.step(0), Err(Chip8Error::StackUnderflow));
    assert_eq!(chip8.registers().pc, 0x200);
}

#[test]
fn fetch_past_end_of_memory_fails() {
    // JP 0xFFF
    let mut chip8 = machine_with(&[0x1F, 0xFF]);
    chip8.step(0).unwrap();
    assert_eq!(chip8.registers().pc, 0xFFF);
    assert_eq!(chip8.step(0), Err(Chip8Error::MemoryAccessViolation));
}

#[test]
fn draw_past_end_of_memory_fails() {
    // LD I, 0xFFE; DRW V0, V0, 5
    let mut chip8 = machine_with(&[0xAF, 0xFE, 0xD0, 0x05]);
    chip8.step(0).unwrap();
    assert_eq!(chip8.step(0), Err(Chip8Error::MemoryAccessViolation));
    assert!(chip8.get_display_buffer().iter().all(|&p| p == 0));
    assert_eq!(chip8.registers().pc, 0x202);
}

#[test]
fn rom_too_large_is_refused() {
    let mut chip8 = Chip8::new();
    let rom = vec![0xAA; 3585];
    assert_eq!(chip8.load_rom(&rom), Err(Chip8Error::RomTooLarge));
    assert_eq!(chip8.memory()[0x200], 0);
    let rom = vec![0xAA; 3584];
    assert_eq!(chip8.load_rom(&rom), Ok(()));
    assert_eq!(chip8.memory()[0xFFF], 0xAA);
}

#[test]
fn add_registers_sets_carry() {
    // LD V0, 0xFF; LD V1, 2; ADD V0, V1
    let mut chip8 = machine_with(&[0x60, 0xFF, 0x61, 0x02, 0x80, 0x14]);
    run(&mut chip8, 3);
    assert_eq!(chip8.registers().v[0], 1);
    assert_eq!(chip8.registers().v[0xF], 1);
}

#[test]
fn add_registers_without_carry() {
    let mut chip8 = machine_with(&[0x60, 0x10, 0x61, 0x22, 0x80, 0x14]);
    run(&mut chip8, 3);
    assert_eq!(chip8.registers().v[0], 0x32);
    assert_eq!(chip8.registers().v[0xF], 0);
}

#[test]
fn add_immediate_wraps_without_flag() {
    // LD VF, 7; LD V0, 0xFE; ADD V0, 3
    let mut chip8 = machine_with(&[0x6F, 0x07, 0x60, 0xFE, 0x70, 0x03]);
    run(&mut chip8, 3);
    assert_eq!(chip8.registers().v[0], 1);
    assert_eq!(chip8.registers().v[0xF], 7);
}

#[test]
fn sub_sets_not_borrow() {
    // LD V0, 5; LD V1, 7; SUB V0, V1
    let mut chip8 = machine_with(&[0x60, 0x05, 0x61, 0x07, 0x80, 0x15]);
    run(&mut chip8, 3);
    assert_eq!(chip8.registers().v[0], 0xFE);
    assert_eq!(chip8.registers().v[0xF], 0);

    let mut chip8 = machine_with(&[0x60, 0x07, 0x61, 0x05, 0x80, 0x15]);
    run(&mut chip8, 3);
    assert_eq!(chip8.registers().v[0], 2);
    assert_eq!(chip8.registers().v[0xF], 1);

    // Equal operands: no "greater than", so VF is 0.
    let mut chip8 = machine_with(&[0x60, 0x07, 0x61, 0x07, 0x80, 0x15]);
    run(&mut chip8, 3);
    assert_eq!(chip8.registers().v[0], 0);
    assert_eq!(chip8.registers().v[0xF], 0);
}

#[test]
fn subn_reverses_operands() {
    // LD V0, 5; LD V1, 7; SUBN V0, V1
    let mut chip8 = machine_with(&[0x60, 0x05, 0x61, 0x07, 0x80, 0x17]);
    run(&mut chip8, 3);
    assert_eq!(chip8.registers().v[0], 2);
    assert_eq!(chip8.registers().v[0xF], 1);
}

#[test]
fn shifts_put_shifted_out_bit_in_vf() {
    // LD V0, 0x81; SHR V0
    let mut chip8 = machine_with(&[0x60, 0x81, 0x80, 0x06]);
    run(&mut chip8, 2);
    assert_eq!(chip8.registers().v[0], 0x40);
    assert_eq!(chip8.registers().v[0xF], 1);
    // LD V0, 0x81; SHL V0
    let mut chip8 = machine_with(&[0x60, 0x81, 0x80, 0x0E]);
    run(&mut chip8, 2);
    assert_eq!(chip8.registers().v[0], 0x02);
    assert_eq!(chip8.registers().v[0xF], 1);
    // LD V0, 0x40; SHL V0
    let mut chip8 = machine_with(&[0x60, 0x40, 0x80, 0x0E]);
    run(&mut chip8, 2);
    assert_eq!(chip8.registers().v[0], 0x80);
    assert_eq!(chip8.registers().v[0xF], 0);
}

#[test]
fn logic_operations() {
    // LD V0, 0xC;  LD V1, 0xA; then OR / AND / XOR into V2..V4 copies.
    let mut chip8 = machine_with(&[
        0x60, 0x0C, 0x61, 0x0A, 0x82, 0x00, 0x82, 0x11, 0x83, 0x00, 0x83, 0x12, 0x84, 0x00, 0x84,
        0x13,
    ]);
    run(&mut chip8, 8);
    assert_eq!(chip8.registers().v[2], 0x0E);
    assert_eq!(chip8.registers().v[3], 0x08);
    assert_eq!(chip8.registers().v[4], 0x06);
}

#[test]
fn drawing_twice_restores_display_and_flags_erasure() {
    // LD V0, 62; LD V1, 30; LD I, 0; DRW V0, V1, 5; JP 0x206
    let mut chip8 = machine_with(&[0x60, 62, 0x61, 30, 0xA0, 0x00, 0xD0, 0x15, 0x12, 0x06]);
    run(&mut chip8, 4);
    assert_eq!(chip8.registers().v[0xF], 0);
    // The glyph wraps: its first row covers columns 62, 63, 0 and 1 of row 30.
    let gfx = chip8.get_display_buffer();
    assert_eq!(gfx[30 * SCREEN_WIDTH + 62], 1);
    assert_eq!(gfx[30 * SCREEN_WIDTH + 1], 1);
    assert_eq!(gfx[30 * SCREEN_WIDTH + 2], 0);
    assert_eq!(gfx[0 * SCREEN_WIDTH + 62], 1);
    run(&mut chip8, 2);
    assert_eq!(chip8.registers().v[0xF], 1);
    assert!(chip8.get_display_buffer().iter().all(|&p| p == 0));
}

#[test]
fn clear_screen_zeroes_display() {
    let mut chip8 = machine_with(&[0xD0, 0x05, 0x00, 0xE0]);
    chip8.step(0).unwrap();
    assert!(chip8.get_display_buffer().iter().any(|&p| p == 1));
    chip8.step(0).unwrap();
    assert!(chip8.get_display_buffer().iter().all(|&p| p == 0));
    assert_eq!(chip8.registers().pc, 0x204);
}

#[test]
fn skips_advance_by_four_when_taken() {
    // SE V0, 0 (taken)
    let mut chip8 = machine_with(&[0x30, 0x00]);
    chip8.step(0).unwrap();
    assert_eq!(chip8.registers().pc, 0x204);
    // SNE V0, 0 (not taken)
    let mut chip8 = machine_with(&[0x40, 0x00]);
    chip8.step(0).unwrap();
    assert_eq!(chip8.registers().pc, 0x202);
    // SE V0, V1 (taken); SNE V0, V1 (not taken)
    let mut chip8 = machine_with(&[0x50, 0x10]);
    chip8.step(0).unwrap();
    assert_eq!(chip8.registers().pc, 0x204);
    let mut chip8 = machine_with(&[0x90, 0x10]);
    chip8.step(0).unwrap();
    assert_eq!(chip8.registers().pc, 0x202);
}

#[test]
fn key_skips_follow_snapshot() {
    // LD V0, 5; SKP V0
    let mut chip8 = machine_with(&[0x60, 0x05, 0xE0, 0x9E]);
    let mut keys = [0u8; 16];
    keys[5] = 1;
    chip8.set_keys(&keys);
    run(&mut chip8, 2);
    assert_eq!(chip8.registers().pc, 0x206);
    // LD V0, 5; SKNP V0 with nothing pressed
    let mut chip8 = machine_with(&[0x60, 0x05, 0xE0, 0xA1]);
    run(&mut chip8, 2);
    assert_eq!(chip8.registers().pc, 0x206);
}

#[test]
fn wait_for_key_repeats_until_pressed() {
    // LD V3, K
    let mut chip8 = machine_with(&[0xF3, 0x0A]);
    chip8.step(0).unwrap();
    chip8.step(0).unwrap();
    assert_eq!(chip8.registers().pc, 0x200);
    let mut keys = [0u8; 16];
    keys[0] = 1;
    keys[9] = 1;
    chip8.set_keys(&keys);
    chip8.step(0).unwrap();
    assert_eq!(chip8.registers().pc, 0x202);
    assert_eq!(chip8.registers().v[3], 0);
}

#[test]
fn bcd_stores_three_digits() {
    // LD V0, 254; LD I, 0x300; LD B, V0
    let mut chip8 = machine_with(&[0x60, 254, 0xA3, 0x00, 0xF0, 0x33]);
    run(&mut chip8, 3);
    assert_eq!(&chip8.memory()[0x300..0x303], &[2, 5, 4]);
}

#[test]
fn store_and_load_registers_include_vx() {
    // LD V0, 1; LD V1, 2; LD V2, 3; LD I, 0x300; LD [I], V2; LD V0, 0; LD V2, 0; LD V2, [I]
    let mut chip8 = machine_with(&[
        0x60, 1, 0x61, 2, 0x62, 3, 0xA3, 0x00, 0xF2, 0x55, 0x60, 0, 0x62, 0, 0xF2, 0x65,
    ]);
    run(&mut chip8, 5);
    assert_eq!(&chip8.memory()[0x300..0x304], &[1, 2, 3, 0]);
    run(&mut chip8, 3);
    assert_eq!(&chip8.registers().v[0..3], &[1, 2, 3]);
    assert_eq!(chip8.registers().i, 0x300);
}

#[test]
fn index_register_instructions() {
    // LD V0, 0xA; LD F, V0; ADD I, V0; LD I, 0xFFF
    let mut chip8 = machine_with(&[0x60, 0x0A, 0xF0, 0x29, 0xF0, 0x1E]);
    run(&mut chip8, 2);
    assert_eq!(chip8.registers().i, 50);
    chip8.step(0).unwrap();
    assert_eq!(chip8.registers().i, 60);
}

#[test]
fn random_byte_is_masked() {
    // RND V0, 0x0F
    let mut chip8 = machine_with(&[0xC0, 0x0F]);
    chip8.step(0xAB).unwrap();
    assert_eq!(chip8.registers().v[0], 0x0B);
    // RND V1, 0x00 through the machine's own generator
    let mut chip8 = machine_with(&[0xC1, 0x00]);
    chip8.execute_cycle().unwrap();
    assert_eq!(chip8.registers().v[1], 0);
    assert_eq!(chip8.registers().pc, 0x202);
}

#[test]
fn jump_with_offset() {
    // LD V0, 4; JP V0, 0x300
    let mut chip8 = machine_with(&[0x60, 0x04, 0xB3, 0x00]);
    run(&mut chip8, 2);
    assert_eq!(chip8.registers().pc, 0x304);
}

#[test]
fn unknown_opcode_advances() {
    let mut chip8 = machine_with(&[0x80, 0x08, 0x0F, 0xFF]);
    run(&mut chip8, 2);
    assert_eq!(chip8.registers().pc, 0x204);
}

#[test]
fn display_converts_to_host_formats() {
    let mut src = [0u8; DISPLAY_SIZE];
    src[1] = 1;
    let mut dest = vec![7u32; DISPLAY_SIZE + 1];
    ferro8::convert_display_buffer(&src, &mut dest);
    assert_eq!(&dest[0..3], &[0, 0xFFFFFF, 0]);
    assert_eq!(dest[DISPLAY_SIZE], 7);

    let mut frame = vec![9u8; 10];
    ferro8::draw_chip8(&src, &mut frame);
    assert_eq!(&frame, &[0, 0, 0, 255, 255, 255, 255, 255, 9, 9]);
}

#[test]
fn key_snapshot_marks_listed_keys() {
    let keys = ferro8::get_chip8_keys(&[0x0, 0xC, 0x20, 0xC]);
    let mut expected = [0u8; 16];
    expected[0x0] = 1;
    expected[0xC] = 1;
    assert_eq!(keys, expected);
    assert_eq!(ferro8::get_chip8_keys(&[]), [0u8; 16]);
}
