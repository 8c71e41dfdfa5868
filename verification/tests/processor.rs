use chip8_core::chip8::{create_cpu, Cpu, RomError};

fn cpu_with_rom(rom: &[u8]) -> Cpu {
    let mut cpu = create_cpu();
    cpu.initialize();
    cpu.load_rom(&rom.to_vec()).unwrap();
    cpu
}

#[test]
fn load_then_add_doubles_register() {
    let mut cpu = cpu_with_rom(&[0x62, 0x07, 0x72, 0x07]);
    cpu.do_cycle_with_rand(0);
    cpu.do_cycle_with_rand(0);
    assert_eq!(cpu.v[2], 14);
    assert_eq!(cpu.v[15], 0);
    assert_eq!(cpu.v[3], 0);
}

#[test]
fn load_then_add_wraps_modulo_256() {
    let mut cpu = cpu_with_rom(&[0x62, 0x90, 0x72, 0x90]);
    cpu.do_cycle_with_rand(0);
    cpu.do_cycle_with_rand(0);
    assert_eq!(cpu.v[2], 0x20);
    assert_eq!(cpu.v[15], 0);
}

#[test]
fn add_with_carry_sets_flag() {
    let mut cpu = cpu_with_rom(&[0x80, 0x14]);
    cpu.v[0] = 0xFF;
    cpu.v[1] = 0x01;
    cpu.do_cycle_with_rand(0);
    assert_eq!(cpu.v[0], 0x00);
    assert_eq!(cpu.v[15], 1);
}

#[test]
fn add_without_carry_clears_flag() {
    let mut cpu = cpu_with_rom(&[0x80, 0x14]);
    cpu.v[0] = 0x01;
    cpu.v[1] = 0x01;
    cpu.v[15] = 7;
    cpu.do_cycle_with_rand(0);
    assert_eq!(cpu.v[0], 0x02);
    assert_eq!(cpu.v[15], 0);
}

#[test]
fn sub_without_borrow_sets_flag() {
    let mut cpu = cpu_with_rom(&[0x80, 0x15]);
    cpu.v[0] = 0x05;
    cpu.v[1] = 0x02;
    cpu.do_cycle_with_rand(0);
    assert_eq!(cpu.v[0], 0x03);
    assert_eq!(cpu.v[15], 1);
}

#[test]
fn sub_with_borrow_clears_flag() {
    let mut cpu = cpu_with_rom(&[0x80, 0x15]);
    cpu.v[0] = 0x02;
    cpu.v[1] = 0x05;
    cpu.do_cycle_with_rand(0);
    assert_eq!(cpu.v[0], 0xFD);
    assert_eq!(cpu.v[15], 0);
}

#[test]
fn draw_twice_restores_screen() {
    let mut cpu = create_cpu();
    cpu.memory[0x300] = 0xFF;
    cpu.memory[0x301] = 0x81;
    cpu.i = 0x300;
    let before = cpu.screen.clone();
    cpu.draw(10, 5, 2);
    assert_eq!(cpu.v[15], 0);
    assert!(cpu.screen[5 * 64 + 10]);
    cpu.draw(10, 5, 2);
    assert_eq!(cpu.screen, before);
    assert_eq!(cpu.v[15], 1);
}

#[test]
fn draw_wraps_around_right_edge() {
    let mut cpu = create_cpu();
    cpu.memory[0x300] = 0xFF;
    cpu.i = 0x300;
    cpu.draw(63, 0, 1);
    assert!(cpu.screen[63]);
    for col in 0..=6 {
        assert!(cpu.screen[col]);
    }
    assert!(!cpu.screen[7]);
}

#[test]
fn draw_collision_turns_cell_off() {
    let mut cpu = create_cpu();
    cpu.memory[0x300] = 0x80;
    cpu.i = 0x300;
    cpu.draw(0, 0, 1);
    assert!(cpu.screen[0]);
    assert_eq!(cpu.v[15], 0);
    cpu.draw(0, 0, 1);
    assert!(!cpu.screen[0]);
    assert_eq!(cpu.v[15], 1);
}

#[test]
fn call_then_ret_round_trip() {
    let mut cpu = cpu_with_rom(&[0x23, 0x00]);
    cpu.memory[0x300] = 0x00;
    cpu.memory[0x301] = 0xEE;
    cpu.do_cycle_with_rand(0);
    assert_eq!(cpu.pc, 0x300);
    cpu.do_cycle_with_rand(0);
    assert_eq!(cpu.pc, 0x202);
}

#[test]
fn bcd_writes_three_digits() {
    let mut cpu = cpu_with_rom(&[0xF1, 0x33]);
    cpu.v[1] = 234;
    cpu.i = 0x400;
    cpu.do_cycle_with_rand(0);
    assert_eq!(cpu.memory[0x400], 2);
    assert_eq!(cpu.memory[0x401], 3);
    assert_eq!(cpu.memory[0x402], 4);
}

#[test]
fn delay_timer_decays_to_zero_and_stays() {
    let mut cpu = create_cpu();
    cpu.delay_timer = 5;
    for _ in 0..5 {
        cpu.do_cycle_with_rand(0);
    }
    assert_eq!(cpu.delay_timer, 0);
    cpu.do_cycle_with_rand(0);
    assert_eq!(cpu.delay_timer, 0);
}

#[test]
fn sound_timer_requests_tone_while_nonzero() {
    let mut cpu = create_cpu();
    cpu.sound_timer = 2;
    assert!(cpu.do_cycle_with_rand(0));
    assert!(cpu.do_cycle_with_rand(0));
    assert!(!cpu.do_cycle_with_rand(0));
    assert_eq!(cpu.sound_timer, 0);
}

#[test]
fn end_to_end_program_parks_at_jump() {
    let mut cpu = cpu_with_rom(&[0x60, 0x05, 0x70, 0x03, 0x00, 0xE0, 0x12, 0x06]);
    cpu.screen[100] = true;
    cpu.do_cycle_with_rand(0);
    cpu.do_cycle_with_rand(0);
    assert_eq!(cpu.v[0], 8);
    cpu.do_cycle_with_rand(0);
    assert!(cpu.screen.iter().all(|cell| !cell));
    for _ in 0..4 {
        cpu.do_cycle_with_rand(0);
        assert_eq!(cpu.pc, 0x206);
    }
    assert_eq!(cpu.v[0], 8);
}

#[test]
fn rnd_masked_with_zero_is_zero() {
    let mut cpu = cpu_with_rom(&[0xC1, 0x00]);
    cpu.v[1] = 0x55;
    cpu.do_cycle();
    assert_eq!(cpu.v[1], 0);
}

#[test]
fn rnd_uses_injected_byte_and_mask() {
    let mut cpu = cpu_with_rom(&[0xC1, 0xFF, 0xC2, 0x0F]);
    cpu.do_cycle_with_rand(0xAB);
    assert_eq!(cpu.v[1], 0xAB);
    cpu.do_cycle_with_rand(0xAB);
    assert_eq!(cpu.v[2], 0x0B);
}

#[test]
fn load_rom_rejects_oversize_image() {
    let mut cpu = create_cpu();
    let rom = vec![0xAAu8; 4096 - 512 + 1];
    assert_eq!(cpu.load_rom(&rom), Err(RomError::TooLarge));
    assert_eq!(cpu.memory[512], 0);
}

#[test]
fn load_rom_accepts_maximal_image() {
    let mut cpu = create_cpu();
    let rom = vec![0xAAu8; 4096 - 512];
    assert_eq!(cpu.load_rom(&rom), Ok(()));
    assert_eq!(cpu.memory[512], 0xAA);
    assert_eq!(cpu.memory[4095], 0xAA);
}

#[test]
fn load_rom_copies_bytes_at_program_start() {
    let mut cpu = create_cpu();
    cpu.load_rom(&vec![1, 2, 3]).unwrap();
    assert_eq!(&cpu.memory[512..515], &[1, 2, 3]);
    assert_eq!(cpu.memory[515], 0);
}

#[test]
fn initialize_copies_font_into_memory() {
    let mut cpu = create_cpu();
    cpu.initialize();
    assert_eq!(cpu.memory[0], 0xF0);
    assert_eq!(cpu.memory[79], 0x80);
    assert_eq!(cpu.memory[80], 0);
}

#[test]
fn wait_for_key_sets_wait_state() {
    let mut cpu = cpu_with_rom(&[0xF5, 0x0A]);
    cpu.do_cycle_with_rand(0);
    assert!(cpu.is_wating);
    assert_eq!(cpu.key_register, 5);
    assert_eq!(cpu.pc, 0x202);
}

#[test]
fn resolve_key_wait_writes_lowest_pressed_key() {
    let mut cpu = cpu_with_rom(&[0xF5, 0x0A]);
    cpu.do_cycle_with_rand(0);
    cpu.keys[9] = true;
    cpu.keys[12] = true;
    assert!(cpu.resolve_key_wait());
    assert_eq!(cpu.v[5], 9);
    assert!(!cpu.is_wating);
}

#[test]
fn resolve_key_wait_without_press_keeps_waiting() {
    let mut cpu = cpu_with_rom(&[0xF5, 0x0A]);
    cpu.do_cycle_with_rand(0);
    assert!(!cpu.resolve_key_wait());
    assert!(cpu.is_wating);
    assert_eq!(cpu.v[5], 0);
}

#[test]
fn skip_if_equal_immediate() {
    let mut cpu = cpu_with_rom(&[0x31, 0x07]);
    cpu.v[1] = 7;
    cpu.do_cycle_with_rand(0);
    assert_eq!(cpu.pc, 0x204);
    let mut cpu = cpu_with_rom(&[0x31, 0x08]);
    cpu.v[1] = 7;
    cpu.do_cycle_with_rand(0);
    assert_eq!(cpu.pc, 0x202);
}

#[test]
fn shift_right_keeps_low_bit_in_flag() {
    let mut cpu = cpu_with_rom(&[0x81, 0x06]);
    cpu.v[1] = 0x05;
    cpu.do_cycle_with_rand(0);
    assert_eq!(cpu.v[1], 0x02);
    assert_eq!(cpu.v[15], 1);
}

#[test]
fn shift_left_keeps_high_bit_in_flag() {
    let mut cpu = cpu_with_rom(&[0x81, 0x0E]);
    cpu.v[1] = 0x81;
    cpu.do_cycle_with_rand(0);
    assert_eq!(cpu.v[1], 0x02);
    assert_eq!(cpu.v[15], 1);
}

#[test]
fn store_and_load_register_block() {
    let mut cpu = cpu_with_rom(&[0xF2, 0x55, 0x62, 0x00, 0xF2, 0x65]);
    cpu.v[0] = 1;
    cpu.v[1] = 2;
    cpu.v[2] = 3;
    cpu.i = 0x350;
    cpu.do_cycle_with_rand(0);
    assert_eq!(&cpu.memory[0x350..0x353], &[1, 2, 3]);
    cpu.do_cycle_with_rand(0);
    assert_eq!(cpu.v[2], 0);
    cpu.do_cycle_with_rand(0);
    assert_eq!(cpu.v[2], 3);
}

#[test]
fn font_address_is_five_bytes_per_glyph() {
    let mut cpu = cpu_with_rom(&[0xF1, 0x29]);
    cpu.v[1] = 3;
    cpu.do_cycle_with_rand(0);
    assert_eq!(cpu.i, 15);
}

#[test]
fn jump_with_offset_adds_v0() {
    let mut cpu = cpu_with_rom(&[0xB2, 0x05]);
    cpu.v[0] = 4;
    cpu.do_cycle_with_rand(0);
    assert_eq!(cpu.pc, 0x209);
}

#[test]
fn unknown_opcode_is_a_no_op() {
    let mut cpu = cpu_with_rom(&[0x58, 0x21]);
    cpu.v[8] = 3;
    cpu.do_cycle_with_rand(0);
    assert_eq!(cpu.pc, 0x202);
    assert_eq!(cpu.v[8], 3);
}

#[test]
fn any_low_byte_ee_is_a_return() {
    let mut cpu = cpu_with_rom(&[0x12, 0xEE]);
    cpu.stack[1] = 0x321;
    cpu.stack_pointer = 1;
    cpu.do_cycle_with_rand(0);
    assert_eq!(cpu.pc, 0x321);
    assert_eq!(cpu.stack_pointer, 0);
}
