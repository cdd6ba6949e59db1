use chip8::Emu;
use chip8::Fault;

/// Sets register `x` to `val` through the `6XNN` opcode.
fn set_reg(emu: &mut Emu, x: u16, val: u8) {
    let op = 0x6000 | (x << 8) | (val as u16);
    assert_eq!(emu.execute(op, 0), Ok(()));
}

#[test]
fn new_machine_baseline() {
    let emu = Emu::new();
    assert_eq!(emu.program_counter(), 512);
    assert_eq!(emu.stack_pointer(), 0);
    assert_eq!(emu.index_register(), 0);
    assert_eq!(emu.delay_timer(), 0);
    assert_eq!(emu.sound_timer(), 0);
    // glyph font: first row of glyph 0, last row of glyph F, first byte past it
    assert_eq!(emu.read_ram(0), 0xF0);
    assert_eq!(emu.read_ram(1), 0x90);
    assert_eq!(emu.read_ram(79), 0x80);
    assert_eq!(emu.read_ram(80), 0);
    for r in 0..16 {
        assert_eq!(emu.register(r), 0);
    }
    let display = emu.get_display();
    assert_eq!(display.len(), 64 * 32);
    assert!(display.iter().all(|p| !p));
}

#[test]
fn reset_matches_fresh_machine() {
    let mut emu = Emu::new();
    assert_eq!(emu.load(&[0x60, 0x2A, 0xA2, 0x00]), Ok(()));
    assert_eq!(emu.tick(), Ok(()));
    assert_eq!(emu.tick(), Ok(()));
    emu.keypress(3, true);
    set_reg(&mut emu, 5, 99);
    emu.reset();

    let fresh = Emu::new();
    for a in 0..4096 {
        assert_eq!(emu.read_ram(a), fresh.read_ram(a));
    }
    for r in 0..16 {
        assert_eq!(emu.register(r), fresh.register(r));
    }
    assert_eq!(emu.program_counter(), fresh.program_counter());
    assert_eq!(emu.index_register(), fresh.index_register());
    assert_eq!(emu.stack_pointer(), fresh.stack_pointer());
    assert_eq!(emu.delay_timer(), fresh.delay_timer());
    assert_eq!(emu.sound_timer(), fresh.sound_timer());
    assert_eq!(emu.get_display(), fresh.get_display());
    // reset clears the loaded mark, so a new program may be loaded
    assert_eq!(emu.load(&[0x12, 0x00]), Ok(()));
}

#[test]
fn load_then_fetch_round_trip() {
    let mut emu = Emu::new();
    assert_eq!(emu.load(&[0xAB, 0xCD]), Ok(()));
    assert_eq!(emu.read_ram(512), 0xAB);
    assert_eq!(emu.read_ram(513), 0xCD);
    assert_eq!(emu.fetch(), Ok(0xABCD));
    assert_eq!(emu.program_counter(), 514);
}

#[test]
fn load_oversized_program_faults() {
    let mut emu = Emu::new();
    let too_big = vec![0u8; 3585];
    assert_eq!(emu.load(&too_big), Err(Fault::MemoryFault));
    // the failed load leaves the machine untouched and unloaded
    assert_eq!(emu.read_ram(512), 0);
    let exact_fit = vec![7u8; 3584];
    assert_eq!(emu.load(&exact_fit), Ok(()));
    assert_eq!(emu.read_ram(4095), 7);
}

#[test]
fn load_twice_faults() {
    let mut emu = Emu::new();
    assert_eq!(emu.load(&[0x00, 0x00]), Ok(()));
    assert_eq!(emu.load(&[0x12, 0x34]), Err(Fault::AlreadyLoaded));
    assert_eq!(emu.read_ram(512), 0x00);
}

#[test]
fn add_with_carry_wraps() {
    let mut emu = Emu::new();
    set_reg(&mut emu, 0, 250);
    set_reg(&mut emu, 1, 10);
    assert_eq!(emu.execute(0x8014, 0), Ok(()));
    assert_eq!(emu.register(0), 4);
    assert_eq!(emu.register(0xF), 1);
    // no carry leaves VF at 0
    set_reg(&mut emu, 2, 3);
    set_reg(&mut emu, 3, 4);
    assert_eq!(emu.execute(0x8234, 0), Ok(()));
    assert_eq!(emu.register(2), 7);
    assert_eq!(emu.register(0xF), 0);
}

#[test]
fn sub_with_borrow_wraps() {
    let mut emu = Emu::new();
    set_reg(&mut emu, 0, 5);
    set_reg(&mut emu, 1, 10);
    assert_eq!(emu.execute(0x8015, 0), Ok(()));
    assert_eq!(emu.register(0), 251);
    assert_eq!(emu.register(0xF), 0);
    // no borrow sets VF to 1
    set_reg(&mut emu, 2, 10);
    set_reg(&mut emu, 3, 4);
    assert_eq!(emu.execute(0x8235, 0), Ok(()));
    assert_eq!(emu.register(2), 6);
    assert_eq!(emu.register(0xF), 1);
}

#[test]
fn reverse_sub_and_shifts() {
    let mut emu = Emu::new();
    set_reg(&mut emu, 0, 4);
    set_reg(&mut emu, 1, 10);
    assert_eq!(emu.execute(0x8017, 0), Ok(()));
    assert_eq!(emu.register(0), 6);
    assert_eq!(emu.register(0xF), 1);
    set_reg(&mut emu, 2, 5);
    assert_eq!(emu.execute(0x8206, 0), Ok(()));
    assert_eq!(emu.register(2), 2);
    assert_eq!(emu.register(0xF), 1);
    set_reg(&mut emu, 3, 0x81);
    assert_eq!(emu.execute(0x830E, 0), Ok(()));
    assert_eq!(emu.register(3), 0x02);
    assert_eq!(emu.register(0xF), 1);
}

#[test]
fn bitwise_ops() {
    let mut emu = Emu::new();
    set_reg(&mut emu, 0, 0b1100);
    set_reg(&mut emu, 1, 0b1010);
    assert_eq!(emu.execute(0x8011, 0), Ok(()));
    assert_eq!(emu.register(0), 0b1110);
    set_reg(&mut emu, 0, 0b1100);
    assert_eq!(emu.execute(0x8012, 0), Ok(()));
    assert_eq!(emu.register(0), 0b1000);
    set_reg(&mut emu, 0, 0b1100);
    assert_eq!(emu.execute(0x8013, 0), Ok(()));
    assert_eq!(emu.register(0), 0b0110);
    assert_eq!(emu.execute(0x8010, 0), Ok(()));
    assert_eq!(emu.register(0), 0b1010);
}

#[test]
fn immediate_add_wraps_without_flag() {
    let mut emu = Emu::new();
    set_reg(&mut emu, 0xF, 9);
    set_reg(&mut emu, 4, 0xFF);
    assert_eq!(emu.execute(0x7402, 0), Ok(()));
    assert_eq!(emu.register(4), 1);
    assert_eq!(emu.register(0xF), 9);
}

#[test]
fn bcd_of_255() {
    let mut emu = Emu::new();
    set_reg(&mut emu, 0, 255);
    assert_eq!(emu.execute(0xA300, 0), Ok(()));
    assert_eq!(emu.execute(0xF033, 0), Ok(()));
    assert_eq!(emu.read_ram(0x300), 2);
    assert_eq!(emu.read_ram(0x301), 5);
    assert_eq!(emu.read_ram(0x302), 5);
}

#[test]
fn bcd_of_small_value() {
    let mut emu = Emu::new();
    set_reg(&mut emu, 7, 42);
    assert_eq!(emu.execute(0xA400, 0), Ok(()));
    assert_eq!(emu.execute(0xF733, 0), Ok(()));
    assert_eq!(emu.read_ram(0x400), 0);
    assert_eq!(emu.read_ram(0x401), 4);
    assert_eq!(emu.read_ram(0x402), 2);
}

#[test]
fn sprite_draw_and_self_inverse() {
    let mut emu = Emu::new();
    // glyph 0 lives at address 0: rows F0 90 90 90 F0
    set_reg(&mut emu, 0, 3);
    set_reg(&mut emu, 1, 5);
    assert_eq!(emu.execute(0xA000, 0), Ok(()));
    assert_eq!(emu.execute(0xD015, 0), Ok(()));
    assert_eq!(emu.register(0xF), 0);
    {
        let display = emu.get_display();
        // top row of the glyph: pixels (3..7, 5) lit, (7, 5) dark
        assert!(display[5 * 64 + 3]);
        assert!(display[5 * 64 + 4]);
        assert!(display[5 * 64 + 5]);
        assert!(display[5 * 64 + 6]);
        assert!(!display[5 * 64 + 7]);
        // second row: only the leftmost and the one three to its right
        assert!(display[6 * 64 + 3]);
        assert!(!display[6 * 64 + 4]);
        assert!(display[6 * 64 + 6]);
    }
    // drawing the same sprite again erases it and reports the collision
    assert_eq!(emu.execute(0xD015, 0), Ok(()));
    assert_eq!(emu.register(0xF), 1);
    assert!(emu.get_display().iter().all(|p| !p));
}

#[test]
fn sprite_wraps_at_screen_edges() {
    let mut emu = Emu::new();
    set_reg(&mut emu, 0, 62);
    set_reg(&mut emu, 1, 31);
    assert_eq!(emu.execute(0xA000, 0), Ok(()));
    assert_eq!(emu.execute(0xD012, 0), Ok(()));
    let display = emu.get_display();
    // first glyph row 0xF0 at origin (62, 31): columns 62, 63, 0, 1
    assert!(display[31 * 64 + 62]);
    assert!(display[31 * 64 + 63]);
    assert!(display[31 * 64]);
    assert!(display[31 * 64 + 1]);
    // second row 0x90 wraps to row 0: columns 62 and 1
    assert!(display[62]);
    assert!(!display[63]);
    assert!(display[1]);
}

#[test]
fn zero_height_sprite_draws_nothing() {
    let mut emu = Emu::new();
    set_reg(&mut emu, 0xF, 1);
    assert_eq!(emu.execute(0xA000, 0), Ok(()));
    assert_eq!(emu.execute(0xD010, 0), Ok(()));
    assert!(emu.get_display().iter().all(|p| !p));
    // the draw still reports its (empty) collision outcome in VF
    assert_eq!(emu.register(0xF), 0);
}

#[test]
fn clear_screen_opcode() {
    let mut emu = Emu::new();
    assert_eq!(emu.execute(0xA000, 0), Ok(()));
    assert_eq!(emu.execute(0xD015, 0), Ok(()));
    assert!(emu.get_display().iter().any(|p| *p));
    assert_eq!(emu.execute(0x00E0, 0), Ok(()));
    assert!(emu.get_display().iter().all(|p| !p));
}

#[test]
fn wait_for_key_blocks_until_press() {
    let mut emu = Emu::new();
    assert_eq!(emu.load(&[0xF5, 0x0A]), Ok(()));
    // no key pressed: the program counter makes no net progress
    assert_eq!(emu.tick(), Ok(()));
    assert_eq!(emu.program_counter(), 512);
    assert_eq!(emu.tick(), Ok(()));
    assert_eq!(emu.program_counter(), 512);
    // press two keys: the lowest pressed index lands in V5
    emu.keypress(9, true);
    emu.keypress(4, true);
    assert_eq!(emu.tick(), Ok(()));
    assert_eq!(emu.program_counter(), 514);
    assert_eq!(emu.register(5), 4);
}

#[test]
fn key_skip_opcodes() {
    let mut emu = Emu::new();
    set_reg(&mut emu, 0, 7);
    // EX9E with key 7 up: no skip
    assert_eq!(emu.execute(0xE09E, 0), Ok(()));
    assert_eq!(emu.program_counter(), 512);
    emu.keypress(7, true);
    assert_eq!(emu.execute(0xE09E, 0), Ok(()));
    assert_eq!(emu.program_counter(), 514);
    // EXA1 with key 7 down: no skip
    assert_eq!(emu.execute(0xE0A1, 0), Ok(()));
    assert_eq!(emu.program_counter(), 514);
    emu.keypress(7, false);
    assert_eq!(emu.execute(0xE0A1, 0), Ok(()));
    assert_eq!(emu.program_counter(), 516);
}

#[test]
fn key_index_out_of_range_faults() {
    let mut emu = Emu::new();
    set_reg(&mut emu, 0, 20);
    assert_eq!(emu.execute(0xE09E, 0), Err(Fault::MemoryFault));
    assert_eq!(emu.execute(0xE0A1, 0), Err(Fault::MemoryFault));
    assert_eq!(emu.program_counter(), 512);
}

#[test]
fn sound_timer_decays_and_buzzes_once() {
    let mut emu = Emu::new();
    set_reg(&mut emu, 1, 1);
    assert_eq!(emu.execute(0xF118, 0), Ok(()));
    assert_eq!(emu.sound_timer(), 1);
    assert!(emu.tick_timers());
    assert_eq!(emu.sound_timer(), 0);
    assert!(!emu.tick_timers());
    assert_eq!(emu.sound_timer(), 0);
}

#[test]
fn delay_timer_decays_to_zero_and_stays() {
    let mut emu = Emu::new();
    set_reg(&mut emu, 1, 2);
    assert_eq!(emu.execute(0xF115, 0), Ok(()));
    assert_eq!(emu.delay_timer(), 2);
    assert!(!emu.tick_timers());
    assert_eq!(emu.delay_timer(), 1);
    assert!(!emu.tick_timers());
    assert_eq!(emu.delay_timer(), 0);
    assert!(!emu.tick_timers());
    assert_eq!(emu.delay_timer(), 0);
    // FX07 reads the delay timer back
    assert_eq!(emu.execute(0xF207, 0), Ok(()));
    assert_eq!(emu.register(2), 0);
}

#[test]
fn call_and_return() {
    let mut emu = Emu::new();
    assert_eq!(emu.execute(0x2400, 0), Ok(()));
    assert_eq!(emu.program_counter(), 0x400);
    assert_eq!(emu.stack_pointer(), 1);
    assert_eq!(emu.execute(0x00EE, 0), Ok(()));
    assert_eq!(emu.program_counter(), 512);
    assert_eq!(emu.stack_pointer(), 0);
}

#[test]
fn stack_overflow_and_underflow_fault() {
    let mut emu = Emu::new();
    assert_eq!(emu.execute(0x00EE, 0), Err(Fault::StackFault));
    for _ in 0..16 {
        assert_eq!(emu.execute(0x2200, 0), Ok(()));
    }
    assert_eq!(emu.stack_pointer(), 16);
    assert_eq!(emu.execute(0x2200, 0), Err(Fault::StackFault));
    assert_eq!(emu.stack_pointer(), 16);
}

#[test]
fn jumps_and_skips() {
    let mut emu = Emu::new();
    assert_eq!(emu.execute(0x1ABC, 0), Ok(()));
    assert_eq!(emu.program_counter(), 0xABC);
    set_reg(&mut emu, 0, 4);
    assert_eq!(emu.execute(0xB300, 0), Ok(()));
    assert_eq!(emu.program_counter(), 0x304);
    // 3XNN skips only on equality
    assert_eq!(emu.execute(0x3004, 0), Ok(()));
    assert_eq!(emu.program_counter(), 0x306);
    assert_eq!(emu.execute(0x3005, 0), Ok(()));
    assert_eq!(emu.program_counter(), 0x306);
    // 4XNN skips only on inequality
    assert_eq!(emu.execute(0x4005, 0), Ok(()));
    assert_eq!(emu.program_counter(), 0x308);
    // 5XY0 and 9XY0 compare two registers
    set_reg(&mut emu, 1, 4);
    assert_eq!(emu.execute(0x5010, 0), Ok(()));
    assert_eq!(emu.program_counter(), 0x30A);
    assert_eq!(emu.execute(0x9010, 0), Ok(()));
    assert_eq!(emu.program_counter(), 0x30A);
}

#[test]
fn index_register_opcodes() {
    let mut emu = Emu::new();
    assert_eq!(emu.execute(0xA123, 0), Ok(()));
    assert_eq!(emu.index_register(), 0x123);
    set_reg(&mut emu, 0, 5);
    assert_eq!(emu.execute(0xF01E, 0), Ok(()));
    assert_eq!(emu.index_register(), 0x128);
    // FX29: glyph address of digit VX, five bytes per glyph
    set_reg(&mut emu, 3, 0xA);
    assert_eq!(emu.execute(0xF329, 0), Ok(()));
    assert_eq!(emu.index_register(), 50);
}

#[test]
fn store_and_load_registers() {
    let mut emu = Emu::new();
    set_reg(&mut emu, 0, 11);
    set_reg(&mut emu, 1, 22);
    set_reg(&mut emu, 2, 33);
    assert_eq!(emu.execute(0xA500, 0), Ok(()));
    assert_eq!(emu.execute(0xF255, 0), Ok(()));
    assert_eq!(emu.read_ram(0x500), 11);
    assert_eq!(emu.read_ram(0x501), 22);
    assert_eq!(emu.read_ram(0x502), 33);
    assert_eq!(emu.read_ram(0x503), 0);
    set_reg(&mut emu, 0, 0);
    set_reg(&mut emu, 1, 0);
    set_reg(&mut emu, 2, 99);
    assert_eq!(emu.execute(0xF165, 0), Ok(()));
    assert_eq!(emu.register(0), 11);
    assert_eq!(emu.register(1), 22);
    assert_eq!(emu.register(2), 99);
}

#[test]
fn random_opcode_is_masked() {
    let mut emu = Emu::new();
    set_reg(&mut emu, 0, 77);
    // a zero mask forces V0 to zero whatever the random byte was
    assert_eq!(emu.execute(0xC000, 0), Ok(()));
    assert_eq!(emu.register(0), 0);
    let mut emu2 = Emu::new();
    assert_eq!(emu2.load(&[0xC5, 0x0F]), Ok(()));
    assert_eq!(emu2.tick(), Ok(()));
    assert!(emu2.register(5) <= 0x0F);
}

#[test]
fn invalid_opcode_faults_with_value() {
    let mut emu = Emu::new();
    assert_eq!(emu.execute(0xFFFF, 0), Err(Fault::InvalidOpcode(0xFFFF)));
    assert_eq!(emu.execute(0x5011, 0), Err(Fault::InvalidOpcode(0x5011)));
    let mut emu2 = Emu::new();
    assert_eq!(emu2.load(&[0x80, 0x08]), Ok(()));
    assert_eq!(emu2.tick(), Err(Fault::InvalidOpcode(0x8008)));
}

#[test]
fn fetch_and_memory_faults() {
    let mut emu = Emu::new();
    assert_eq!(emu.execute(0x1FFF, 0), Ok(()));
    assert_eq!(emu.tick(), Err(Fault::MemoryFault));
    // BCD with I at the end of memory would write past it
    let mut emu2 = Emu::new();
    assert_eq!(emu2.execute(0xAFFF, 0), Ok(()));
    assert_eq!(emu2.execute(0xF033, 0), Err(Fault::MemoryFault));
    // a register store past the end of memory faults too
    assert_eq!(emu2.execute(0xF455, 0), Err(Fault::MemoryFault));
}

#[test]
fn tick_runs_a_small_program() {
    let mut emu = Emu::new();
    // V0 = 2; V1 = 3; V0 += V1 with carry flag; jump back to start
    assert_eq!(emu.load(&[0x60, 0x02, 0x61, 0x03, 0x80, 0x14, 0x12, 0x00]), Ok(()));
    assert_eq!(emu.tick(), Ok(()));
    assert_eq!(emu.tick(), Ok(()));
    assert_eq!(emu.tick(), Ok(()));
    assert_eq!(emu.register(0), 5);
    assert_eq!(emu.register(0xF), 0);
    assert_eq!(emu.tick(), Ok(()));
    assert_eq!(emu.program_counter(), 512);
}
