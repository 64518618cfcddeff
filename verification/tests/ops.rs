use chip8::Chip8;

fn run(rom: &[u8], cycles: u32) -> Chip8 {
    let mut chip = Chip8::default();
    chip.config.tick_rate = cycles;
    chip.load_rom(rom).unwrap();
    chip.tick().unwrap();
    chip
}

#[test]
fn load_and_add_immediate() {
    let chip = run(&[0x60, 0x2A], 1);
    assert_eq!(chip.reg(0), 42);
    // 7xkk wraps and leaves VF alone
    let chip = run(&[0x60, 0xFF, 0x70, 0x02], 2);
    assert_eq!(chip.reg(0), 1);
    assert_eq!(chip.reg(15), 0);
}

#[test]
fn copy_or_and_xor() {
    let chip = run(&[0x60, 0x00, 0x61, 0x2B, 0x80, 0x10], 3);
    assert_eq!(chip.reg(0), 0x2B);
    let chip = run(&[0x60, 0x40, 0x61, 0x12, 0x80, 0x11], 3);
    assert_eq!(chip.reg(0), 0x52);
    let chip = run(&[0x60, 0xF0, 0x61, 0x3C, 0x80, 0x12], 3);
    assert_eq!(chip.reg(0), 0x30);
    let chip = run(&[0x60, 0xA7, 0x61, 0x35, 0x80, 0x13], 3);
    assert_eq!(chip.reg(0), 0xA7 ^ 0x35);
}

#[test]
fn add_registers_sets_carry() {
    let chip = run(&[0x60, 0x96, 0x61, 0x6A, 0x80, 0x14], 3);
    assert_eq!(chip.reg(0), 0);
    assert_eq!(chip.reg(15), 1);
    let chip = run(&[0x60, 0x12, 0x61, 0x34, 0x80, 0x14], 3);
    assert_eq!(chip.reg(0), 0x46);
    assert_eq!(chip.reg(15), 0);
}

#[test]
fn sub_registers_sets_no_borrow_flag() {
    let chip = run(&[0x60, 0x64, 0x61, 0x3C, 0x80, 0x15], 3);
    assert_eq!(chip.reg(0), 40);
    assert_eq!(chip.reg(15), 1);
    let chip = run(&[0x60, 0x1E, 0x61, 0x1F, 0x80, 0x15], 3);
    assert_eq!(chip.reg(0), 255);
    assert_eq!(chip.reg(15), 0);
}

#[test]
fn reverse_sub_registers() {
    let chip = run(&[0x60, 0x1E, 0x61, 0x6E, 0x80, 0x17], 3);
    assert_eq!(chip.reg(0), 80);
    assert_eq!(chip.reg(15), 1);
    let chip = run(&[0x60, 0x29, 0x61, 0x28, 0x80, 0x17], 3);
    assert_eq!(chip.reg(0), 255);
    assert_eq!(chip.reg(15), 0);
}

#[test]
fn shifts_read_vx_by_default() {
    let chip = run(&[0x60, 0x9B, 0x80, 0x06], 2);
    assert_eq!(chip.reg(0), 0x4D);
    assert_eq!(chip.reg(15), 1);
    let chip = run(&[0x60, 0x9B, 0x80, 0x0E], 2);
    assert_eq!(chip.reg(0), 0x36);
    assert_eq!(chip.reg(15), 1);
}

#[test]
fn shifts_read_vy_with_quirk() {
    let mut chip = Chip8::default();
    chip.config.tick_rate = 3;
    chip.config.shift_reads_vy = true;
    chip.load_rom(&[0x60, 0x00, 0x61, 0x9B, 0x80, 0x16]).unwrap();
    chip.tick().unwrap();
    assert_eq!(chip.reg(0), 0x4D);
    assert_eq!(chip.reg(15), 1);
}

#[test]
fn conditional_skips() {
    // 3xkk skips on equal
    let chip = run(&[0x60, 0x07, 0x30, 0x07], 2);
    assert_eq!(chip.pc(), 0x206);
    let chip = run(&[0x60, 0x07, 0x30, 0x08], 2);
    assert_eq!(chip.pc(), 0x204);
    // 4xkk skips on not equal
    let chip = run(&[0x60, 0x07, 0x40, 0x08], 2);
    assert_eq!(chip.pc(), 0x206);
    // 5xy0 skips on equal registers
    let chip = run(&[0x60, 0x05, 0x61, 0x05, 0x50, 0x10], 3);
    assert_eq!(chip.pc(), 0x208);
    // 9xy0 skips on differing registers
    let chip = run(&[0x60, 0x05, 0x61, 0x06, 0x90, 0x10], 3);
    assert_eq!(chip.pc(), 0x208);
    let chip = run(&[0x60, 0x05, 0x61, 0x05, 0x90, 0x10], 3);
    assert_eq!(chip.pc(), 0x206);
}

#[test]
fn jump_and_jump_with_offset() {
    let chip = run(&[0x13, 0x00], 1);
    assert_eq!(chip.pc(), 0x300);
    let chip = run(&[0x60, 0x0A, 0xB3, 0x00], 2);
    assert_eq!(chip.pc(), 0x30A);
}

#[test]
fn call_pushes_and_return_pops() {
    // call 0x206, land on a return, come back past the call
    let chip = run(&[0x22, 0x06, 0x12, 0x02, 0x00, 0x00, 0x00, 0xEE], 2);
    assert_eq!(chip.pc(), 0x202);
}

#[test]
fn index_register_ops() {
    let chip = run(&[0xA1, 0x23], 1);
    assert_eq!(chip.index(), 0x123);
    let chip = run(&[0x60, 0x0A, 0xA1, 0x00, 0xF0, 0x1E], 3);
    assert_eq!(chip.index(), 0x10A);
}

#[test]
fn font_index_points_at_digit_sprite() {
    let chip = run(&[0x60, 0x02, 0xF0, 0x29], 2);
    assert_eq!(chip.index(), 0x5A);
    assert_eq!(chip.read(0x5A).unwrap(), 0xF0);
    assert_eq!(chip.read(0x5B).unwrap(), 0x10);
}

#[test]
fn bcd_digits_land_at_index() {
    let chip = run(&[0x60, 0x7B, 0xA3, 0x00, 0xF0, 0x33], 3);
    assert_eq!(chip.read(0x300).unwrap(), 1);
    assert_eq!(chip.read(0x301).unwrap(), 2);
    assert_eq!(chip.read(0x302).unwrap(), 3);
}

#[test]
fn store_registers_leaves_index_by_default() {
    let chip = run(&[0x60, 0x11, 0x61, 0x22, 0xA3, 0x00, 0xF1, 0x55], 4);
    assert_eq!(chip.read(0x300).unwrap(), 0x11);
    assert_eq!(chip.read(0x301).unwrap(), 0x22);
    assert_eq!(chip.index(), 0x300);
}

#[test]
fn store_registers_increments_index_with_quirk() {
    let mut chip = Chip8::default();
    chip.config.tick_rate = 4;
    chip.config.block_ops_increment_index = true;
    chip.load_rom(&[0x60, 0x11, 0x61, 0x22, 0xA3, 0x00, 0xF1, 0x55]).unwrap();
    chip.tick().unwrap();
    assert_eq!(chip.read(0x300).unwrap(), 0x11);
    assert_eq!(chip.index(), 0x302);
}

#[test]
fn load_registers_from_memory() {
    let mut chip = Chip8::default();
    chip.config.tick_rate = 2;
    chip.load_rom(&[0xA3, 0x00, 0xF1, 0x65]).unwrap();
    chip.write(0x300, 5).unwrap();
    chip.write(0x301, 7).unwrap();
    chip.tick().unwrap();
    assert_eq!(chip.reg(0), 5);
    assert_eq!(chip.reg(1), 7);
    assert_eq!(chip.index(), 0x300);
}

#[test]
fn block_ops_past_memory_end_fault() {
    let mut chip = Chip8::default();
    chip.config.tick_rate = 2;
    chip.load_rom(&[0xAF, 0xFE, 0xF2, 0x55]).unwrap();
    let e = chip.tick().unwrap_err();
    assert_eq!(e.kind, chip8::FaultKind::OutOfBoundsAddress);
    assert_eq!(e.pc, 0x202);
}

#[test]
fn random_is_masked_by_literal() {
    // a zero mask forces a zero result whatever byte was drawn
    let chip = run(&[0x60, 0xFF, 0xC0, 0x00], 2);
    assert_eq!(chip.reg(0), 0);
    // a 0x0F mask clears the high nibble
    let chip = run(&[0xC1, 0x0F], 1);
    assert!(chip.reg(1) <= 0x0F);
}

#[test]
fn read_delay_into_register() {
    // delay=9 via V0, then V1 = delay
    let chip = run(&[0x60, 0x09, 0xF0, 0x15, 0xF1, 0x07], 3);
    assert_eq!(chip.reg(1), 9);
    // the tick's own decrement happens after the cycles
    assert_eq!(chip.delay_timer(), 8);
}
