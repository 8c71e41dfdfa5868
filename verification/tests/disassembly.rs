use chip8_core::decompiler::{get_opcode_structure, translate_opcode, translate_program};

#[test]
fn translate_clear_and_return() {
    assert_eq!(translate_opcode(0x00E0), "CLS");
    assert_eq!(translate_opcode(0x00EE), "RET");
}

#[test]
fn translate_low_byte_ee_is_return() {
    assert_eq!(translate_opcode(0x12EE), "RET");
}

#[test]
fn translate_jump_and_call() {
    assert_eq!(translate_opcode(0x1234), "JP 564");
    assert_eq!(translate_opcode(0x2300), "CALL 768");
    assert_eq!(translate_opcode(0xB205), "JP V0, 517");
}

#[test]
fn translate_register_immediate_forms() {
    assert_eq!(translate_opcode(0x6A0F), "LD V10, 15");
    assert_eq!(translate_opcode(0x7003), "ADD V0, 3");
    assert_eq!(translate_opcode(0x3107), "SE V1, 7");
    assert_eq!(translate_opcode(0xC1FF), "RND V1, 255");
}

#[test]
fn translate_register_register_forms() {
    assert_eq!(translate_opcode(0x8124), "ADD V1, V2");
    assert_eq!(translate_opcode(0x8125), "SUB V1, V2");
    assert_eq!(translate_opcode(0x812E), "SHL V1");
    assert_eq!(translate_opcode(0x9120), "SNE V1, V2");
}

#[test]
fn translate_draw_and_keys() {
    assert_eq!(translate_opcode(0xD125), "DRW V1, V2, 5");
    assert_eq!(translate_opcode(0xE19E), "SKP V1");
    assert_eq!(translate_opcode(0xE1A1), "SKNP V1");
}

#[test]
fn translate_timer_and_memory_forms() {
    assert_eq!(translate_opcode(0xF107), "LD V1, DT");
    assert_eq!(translate_opcode(0xF10A), "LD V1, K");
    assert_eq!(translate_opcode(0xF115), "LD DT, V1");
    assert_eq!(translate_opcode(0xF118), "LD ST, V1");
    assert_eq!(translate_opcode(0xF11E), "ADD I, V1");
    assert_eq!(translate_opcode(0xF129), "LD F, V1");
    assert_eq!(translate_opcode(0xF133), "LD B, V1");
    assert_eq!(translate_opcode(0xF155), "LD [I], V1");
    assert_eq!(translate_opcode(0xF165), "LD V1, [I]");
}

#[test]
fn translate_unknown_is_uppercase_hex() {
    assert_eq!(translate_opcode(0x0123), "123");
    assert_eq!(translate_opcode(0xFFFF), "FFFF");
    assert_eq!(translate_opcode(0x5121), "5121");
}

#[test]
fn structure_keeps_placeholder_letters() {
    assert_eq!(get_opcode_structure(0x8124), "ADD Vx, Vy");
    assert_eq!(get_opcode_structure(0x1234), "JP nnn");
    assert_eq!(get_opcode_structure(0xD125), "DRW Vx, Vy, n");
    assert_eq!(get_opcode_structure(0x00E0), "CLS");
    assert_eq!(get_opcode_structure(0x0123), "123");
}

#[test]
fn translate_program_takes_byte_pairs() {
    let rom = vec![0x00, 0xE0, 0x12, 0x34, 0xAB];
    let lines = translate_program(&rom);
    assert_eq!(lines, vec!["CLS".to_string(), "JP 564".to_string()]);
}

#[test]
fn translate_program_empty() {
    let lines = translate_program(&Vec::new());
    assert!(lines.is_empty());
}
