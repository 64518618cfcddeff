use chip8::Chip8;
use chip8::FaultKind;

fn machine_with(rom: &[u8], tick_rate: u32) -> Chip8 {
    let mut chip = Chip8::default();
    chip.config.tick_rate = tick_rate;
    chip.load_rom(rom).unwrap();
    chip
}

#[test]
fn memory_write_read_roundtrip() {
    let mut chip = Chip8::default();
    chip.write(0x300, 0xAB).unwrap();
    assert_eq!(chip.read(0x300).unwrap(), 0xAB);
    chip.write(0, 0x01).unwrap();
    assert_eq!(chip.read(0).unwrap(), 0x01);
    chip.write(4095, 0xFF).unwrap();
    assert_eq!(chip.read(4095).unwrap(), 0xFF);
    let e = chip.write(4096, 2).unwrap_err();
    assert_eq!(e.kind, FaultKind::OutOfBoundsAddress);
    let e = chip.read(123456).unwrap_err();
    assert_eq!(e.kind, FaultKind::OutOfBoundsAddress);
    // the failed write changed nothing
    assert_eq!(chip.read(4095).unwrap(), 0xFF);
}

#[test]
fn loaded_rom_reads_back() {
    let rom = [1u8, 2, 3, 4, 5];
    let mut chip = Chip8::default();
    chip.load_rom(&rom).unwrap();
    for (k, b) in rom.iter().enumerate() {
        assert_eq!(chip.read(0x200 + k).unwrap(), *b);
    }
    // the font is resident in the reserved region
    assert_eq!(chip.read(0x50).unwrap(), 0xF0);
    assert_eq!(chip.read(0x9F).unwrap(), 0x80);
}

#[test]
fn reset_restores_rom_without_resupplying() {
    let rom = [0x12u8, 0x00, 0xAB, 0xCD];
    let mut chip = Chip8::default();
    chip.load_rom(&rom).unwrap();
    chip.write(0x200, 0xFF).unwrap();
    chip.write(0x203, 0x00).unwrap();
    chip.reset();
    for (k, b) in rom.iter().enumerate() {
        assert_eq!(chip.read(0x200 + k).unwrap(), *b);
    }
    assert_eq!(chip.pc(), 0x200);
}

#[test]
fn rom_too_large_is_refused() {
    let mut chip = Chip8::default();
    let big = vec![0u8; 3585];
    let e = chip.load_rom(&big).unwrap_err();
    assert_eq!(e.kind, FaultKind::RomTooLarge);
    let just_fits = vec![0u8; 3584];
    chip.load_rom(&just_fits).unwrap();
    assert_eq!(chip.read(0xFFF).unwrap(), 0);
}

#[test]
fn cls_and_jump_loop_runs_clean() {
    // 00E0 (clear screen) then 1202 (jump to self)
    let mut chip = machine_with(&[0x00, 0xE0, 0x12, 0x02], 10);
    for _ in 0..5 {
        chip.tick().unwrap();
    }
    for y in 0..chip.display_height() {
        for x in 0..chip.display_width() {
            assert!(!chip.pixel_at(x, y));
        }
    }
    assert_eq!(chip.pc(), 0x202);
}

#[test]
fn draw_sets_pixels_and_clears_flag() {
    // V0=0, V1=0, I=0x208, draw 1 row; sprite byte F0 at 0x208
    let rom = [0x60, 0x00, 0x61, 0x00, 0xA2, 0x08, 0xD0, 0x11, 0xF0];
    let mut chip = machine_with(&rom, 4);
    chip.tick().unwrap();
    for x in 0..4 {
        assert!(chip.pixel_at(x, 0));
    }
    for x in 4..8 {
        assert!(!chip.pixel_at(x, 0));
    }
    assert_eq!(chip.reg(15), 0);
}

#[test]
fn draw_twice_restores_and_reports_collision() {
    // V0=0, V1=0, I=0x20C, draw, draw again, jump to self; sprite F0
    let rom = [
        0x60, 0x00, 0x61, 0x00, 0xA2, 0x0C, 0xD0, 0x11, 0xD0, 0x11, 0x12, 0x0A, 0xF0,
    ];
    let mut chip = machine_with(&rom, 4);
    chip.tick().unwrap();
    assert!(chip.pixel_at(0, 0));
    assert_eq!(chip.reg(15), 0);
    chip.config.tick_rate = 1;
    chip.tick().unwrap();
    for y in 0..chip.display_height() {
        for x in 0..chip.display_width() {
            assert!(!chip.pixel_at(x, y));
        }
    }
    assert_eq!(chip.reg(15), 1);
}

#[test]
fn draw_wraps_at_screen_edge() {
    // V0=62, V1=0, I=0x208, draw 1 row of F0
    let rom = [0x60, 0x3E, 0x61, 0x00, 0xA2, 0x08, 0xD0, 0x11, 0xF0];
    let mut chip = machine_with(&rom, 4);
    chip.tick().unwrap();
    assert!(chip.pixel_at(62, 0));
    assert!(chip.pixel_at(63, 0));
    assert!(chip.pixel_at(0, 0));
    assert!(chip.pixel_at(1, 0));
    assert!(!chip.pixel_at(2, 0));
}

#[test]
fn draw_past_memory_end_faults() {
    // I=0xFFE, draw 3 rows: would read memory[4094..4097)
    let mut chip = machine_with(&[0xAF, 0xFE, 0xD0, 0x13], 2);
    let e = chip.tick().unwrap_err();
    assert_eq!(e.kind, FaultKind::OutOfBoundsAddress);
    assert_eq!(e.pc, 0x202);
    assert_eq!(chip.pc(), 0x202);
}

#[test]
fn delay_timer_counts_down_to_zero_and_stays() {
    // V0=3, delay=V0, jump to self
    let mut chip = machine_with(&[0x60, 0x03, 0xF0, 0x15, 0x12, 0x04], 3);
    chip.tick().unwrap();
    assert_eq!(chip.delay_timer(), 2);
    chip.tick().unwrap();
    assert_eq!(chip.delay_timer(), 1);
    chip.tick().unwrap();
    assert_eq!(chip.delay_timer(), 0);
    chip.tick().unwrap();
    assert_eq!(chip.delay_timer(), 0);
}

#[test]
fn sound_timer_drives_tone_query() {
    // V0=5, sound=V0, jump to self
    let mut chip = machine_with(&[0x60, 0x05, 0xF0, 0x18, 0x12, 0x04], 3);
    assert!(!chip.should_play_sound());
    chip.tick().unwrap();
    assert_eq!(chip.sound_timer(), 4);
    assert!(chip.should_play_sound());
    for _ in 0..4 {
        chip.tick().unwrap();
    }
    assert_eq!(chip.sound_timer(), 0);
    assert!(!chip.should_play_sound());
}

#[test]
fn sixteen_calls_fit_and_the_seventeenth_overflows() {
    // seventeen nested calls, each to the next address
    let mut rom: Vec<u8> = Vec::new();
    for k in 0..17u16 {
        let target = 0x202 + 2 * k;
        rom.push(0x20 | (target >> 8) as u8);
        rom.push((target & 0xFF) as u8);
    }
    let mut chip = machine_with(&rom, 17);
    let e = chip.tick().unwrap_err();
    assert_eq!(e.kind, FaultKind::StackOverflow);
    assert_eq!(e.pc, 0x220);
    assert_eq!(chip.pc(), 0x220);
}

#[test]
fn return_with_empty_stack_underflows() {
    let mut chip = machine_with(&[0x00, 0xEE], 1);
    let e = chip.tick().unwrap_err();
    assert_eq!(e.kind, FaultKind::StackUnderflow);
    assert_eq!(e.pc, 0x200);
}

#[test]
fn stack_push_pop_discipline() {
    let mut chip = Chip8::default();
    for k in 0..16u16 {
        chip.stack_push(0x200 + k).unwrap();
    }
    let e = chip.stack_push(0x300).unwrap_err();
    assert_eq!(e.kind, FaultKind::StackOverflow);
    for k in (0..16u16).rev() {
        assert_eq!(chip.stack_pop().unwrap(), 0x200 + k);
    }
    let e = chip.stack_pop().unwrap_err();
    assert_eq!(e.kind, FaultKind::StackUnderflow);
}

#[test]
fn unknown_opcode_leaves_pc_at_instruction() {
    let mut chip = machine_with(&[0xFF, 0xFF], 1);
    let e = chip.tick().unwrap_err();
    assert_eq!(e.kind, FaultKind::UnknownOpcode);
    assert_eq!(e.pc, 0x200);
    assert_eq!(chip.pc(), 0x200);
    // the machine stays inspectable: the faulting word can be re-read
    assert_eq!(chip.read(0x200).unwrap(), 0xFF);
    assert_eq!(chip.read(0x201).unwrap(), 0xFF);
}

#[test]
fn system_call_opcode_is_refused() {
    // 0nnn system calls are not part of the instruction set here
    let mut chip = machine_with(&[0x02, 0x00], 1);
    let e = chip.tick().unwrap_err();
    assert_eq!(e.kind, FaultKind::UnknownOpcode);
    assert_eq!(chip.pc(), 0x200);
}

#[test]
fn wait_key_blocks_until_a_key_is_down() {
    let mut chip = machine_with(&[0xF0, 0x0A, 0x12, 0x02], 1);
    chip.tick().unwrap();
    assert_eq!(chip.pc(), 0x200);
    chip.tick().unwrap();
    assert_eq!(chip.pc(), 0x200);
    let mut keys = [false; 16];
    keys[7] = true;
    keys[9] = true;
    chip.set_input(keys);
    chip.tick().unwrap();
    // the lowest pressed key lands in V0
    assert_eq!(chip.reg(0), 7);
    assert_eq!(chip.pc(), 0x202);
}

#[test]
fn skip_if_key_pressed() {
    let rom = [0x60, 0x05, 0xE0, 0x9E];
    let mut chip = machine_with(&rom, 2);
    let mut keys = [false; 16];
    keys[5] = true;
    chip.set_input(keys);
    chip.tick().unwrap();
    assert_eq!(chip.pc(), 0x206);

    let mut chip = machine_with(&rom, 2);
    chip.tick().unwrap();
    assert_eq!(chip.pc(), 0x204);
}

#[test]
fn skip_if_key_not_pressed() {
    let rom = [0x60, 0x05, 0xE0, 0xA1];
    let mut chip = machine_with(&rom, 2);
    chip.tick().unwrap();
    assert_eq!(chip.pc(), 0x206);

    let mut chip = machine_with(&rom, 2);
    let mut keys = [false; 16];
    keys[5] = true;
    chip.set_input(keys);
    chip.tick().unwrap();
    assert_eq!(chip.pc(), 0x204);
}

#[test]
fn display_dimensions() {
    let chip = Chip8::default();
    assert_eq!(chip.display_width(), 64);
    assert_eq!(chip.display_height(), 32);
    assert_eq!(chip.screen.width, 64);
    assert_eq!(chip.screen.height, 32);
    assert!(!chip.screen.get_pixel(0, 0));
    assert!(!chip.screen.get_pixel(63, 31));
}

#[test]
fn default_config_values() {
    let chip = Chip8::default();
    assert_eq!(chip.config.tick_rate, 10);
    assert!(!chip.config.shift_reads_vy);
    assert!(!chip.config.block_ops_increment_index);
}

#[test]
fn reset_clears_screen_and_timers() {
    let rom = [0x60, 0x00, 0x61, 0x00, 0xA2, 0x08, 0xD0, 0x11, 0xF0];
    let mut chip = machine_with(&rom, 4);
    chip.tick().unwrap();
    assert!(chip.pixel_at(0, 0));
    chip.reset();
    assert!(!chip.pixel_at(0, 0));
    assert_eq!(chip.pc(), 0x200);
    assert_eq!(chip.delay_timer(), 0);
    assert_eq!(chip.index(), 0);
    assert_eq!(chip.reg(0), 0);
}
