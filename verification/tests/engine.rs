use rusty_8::Fault;
use rusty_8::Step;
use rusty_8::System;

fn boot(rom: &[u8]) -> System {
    let mut s = System::new(2);
    s.load_rom(rom);
    s
}

#[test]
fn load_literal_sets_register_and_advances_pc() {
    let mut s = boot(&[0x6A, 0x42]);
    assert_eq!(s.execute(), Ok(Step::Normal));
    assert_eq!(s.read_register(0xA), 0x42);
    assert_eq!(s.pc, 0x202);
}

#[test]
fn add_literal_wraps_without_touching_flag() {
    let mut s = boot(&[0x6F, 0x55, 0x60, 0xFF, 0x70, 0x02]);
    assert_eq!(s.execute(), Ok(Step::Normal));
    assert_eq!(s.execute(), Ok(Step::Normal));
    assert_eq!(s.execute(), Ok(Step::Normal));
    assert_eq!(s.read_register(0), 0x01);
    assert_eq!(s.read_register(0xF), 0x55);
    assert_eq!(s.pc, 0x206);
}

#[test]
fn alu_add_sets_carry_iff_sum_exceeds_255() {
    let mut s = boot(&[0x60, 0xC8, 0x61, 0x64, 0x80, 0x14, 0x80, 0x14]);
    s.execute().unwrap();
    s.execute().unwrap();
    assert_eq!(s.execute(), Ok(Step::Normal));
    assert_eq!(s.read_register(0), 0x2C);
    assert_eq!(s.read_register(0xF), 1);
    assert_eq!(s.execute(), Ok(Step::Normal));
    assert_eq!(s.read_register(0), 0x90);
    assert_eq!(s.read_register(0xF), 0);
}

#[test]
fn alu_sub_flag_reflects_no_borrow() {
    let mut s = boot(&[0x60, 0x0A, 0x61, 0x0F, 0x80, 0x15]);
    s.execute().unwrap();
    s.execute().unwrap();
    assert_eq!(s.execute(), Ok(Step::Normal));
    assert_eq!(s.read_register(0), 251);
    assert_eq!(s.read_register(0xF), 0);
}

#[test]
fn alu_sub_no_borrow_sets_flag() {
    let mut s = boot(&[0x62, 0x20, 0x63, 0x10, 0x82, 0x35]);
    s.execute().unwrap();
    s.execute().unwrap();
    assert_eq!(s.execute(), Ok(Step::Normal));
    assert_eq!(s.read_register(2), 0x10);
    assert_eq!(s.read_register(0xF), 1);
}

#[test]
fn alu_subn_uses_reversed_operands() {
    let mut s = boot(&[0x60, 0x05, 0x61, 0x0C, 0x80, 0x17]);
    s.execute().unwrap();
    s.execute().unwrap();
    assert_eq!(s.execute(), Ok(Step::Normal));
    assert_eq!(s.read_register(0), 0x07);
    assert_eq!(s.read_register(0xF), 1);
}

#[test]
fn shr_shifts_and_sets_flag_to_low_bit() {
    let mut s = boot(&[0x6A, 0x05, 0x80, 0xA6]);
    s.execute().unwrap();
    assert_eq!(s.execute(), Ok(Step::Normal));
    assert_eq!(s.read_register(0), 2);
    assert_eq!(s.read_register(0xF), 1);
}

#[test]
fn shr_flag_write_comes_last() {
    // x is the flag register itself: the flag, written last, wins
    let mut s = boot(&[0x6A, 0x05, 0x8F, 0xA6]);
    s.execute().unwrap();
    assert_eq!(s.execute(), Ok(Step::Normal));
    assert_eq!(s.read_register(0xF), 1);
    assert_eq!(s.read_register(0xA), 5);
}

#[test]
fn shr_shifts_the_pre_shift_source() {
    // y is the flag register: the shifted value and the flag both come from
    // its value before either write
    let mut s = boot(&[0x6F, 0x03, 0x80, 0xF6]);
    s.execute().unwrap();
    assert_eq!(s.execute(), Ok(Step::Normal));
    assert_eq!(s.read_register(0), 1);
    assert_eq!(s.read_register(0xF), 1);
}

#[test]
fn shl_sets_flag_to_high_bit() {
    let mut s = boot(&[0x6B, 0x81, 0x8C, 0xBE]);
    s.execute().unwrap();
    assert_eq!(s.execute(), Ok(Step::Normal));
    assert_eq!(s.read_register(0xF), 1);
    assert_eq!(s.read_register(0xC), 0x02);
}

#[test]
fn alu_move_or_and_xor() {
    let mut s = boot(&[
        0x60, 0x0C, 0x61, 0x0A, 0x82, 0x00, 0x82, 0x11, 0x63, 0x06, 0x83, 0x02, 0x64, 0x0C, 0x84,
        0x13,
    ]);
    s.execute().unwrap();
    s.execute().unwrap();
    s.execute().unwrap();
    assert_eq!(s.read_register(2), 0x0C);
    s.execute().unwrap();
    assert_eq!(s.read_register(2), 0x0E);
    s.execute().unwrap();
    s.execute().unwrap();
    assert_eq!(s.read_register(3), 0x06 & 0x0C);
    s.execute().unwrap();
    s.execute().unwrap();
    assert_eq!(s.read_register(4), 0x0C ^ 0x0A);
}

#[test]
fn call_and_return_round_trip() {
    let mut s = boot(&[0x22, 0x04, 0x00, 0x00, 0x00, 0xEE]);
    assert_eq!(s.execute(), Ok(Step::Normal));
    assert_eq!(s.pc, 0x204);
    assert_eq!(s.mem.stack.len(), 1);
    assert_eq!(s.mem.stack[0], 0x202);
    assert_eq!(s.execute(), Ok(Step::Normal));
    assert_eq!(s.pc, 0x202);
    assert!(s.mem.stack.is_empty());
}

#[test]
fn nested_calls_return_in_order() {
    let mut s = boot(&[0x22, 0x04, 0xFF, 0xFF, 0x22, 0x08, 0x00, 0xEE, 0x00, 0xEE]);
    assert_eq!(s.execute(), Ok(Step::Normal));
    assert_eq!(s.pc, 0x204);
    assert_eq!(s.execute(), Ok(Step::Normal));
    assert_eq!(s.pc, 0x208);
    assert_eq!(s.mem.stack.as_slice(), &[0x202, 0x206]);
    assert_eq!(s.execute(), Ok(Step::Normal));
    assert_eq!(s.pc, 0x206);
    assert_eq!(s.mem.stack.as_slice(), &[0x202]);
    assert_eq!(s.execute(), Ok(Step::Normal));
    assert_eq!(s.pc, 0x202);
    assert!(s.mem.stack.is_empty());
}

#[test]
fn clear_then_self_jump_never_halts() {
    let mut s = boot(&[0x00, 0xE0, 0x12, 0x00]);
    assert_eq!(s.execute(), Ok(Step::DisplayUpdated));
    assert!(s.mem.display.iter().all(|&p| p == 0));
    assert_eq!(s.execute(), Ok(Step::Normal));
    assert_eq!(s.pc, 0x200);
    for _ in 0..10 {
        s.execute().unwrap();
        assert!(!s.halted);
    }
}

#[test]
fn return_with_empty_stack_is_fatal() {
    let mut s = boot(&[0x00, 0xEE]);
    assert_eq!(
        s.execute(),
        Err(Fault::StackUnderflow { pc: 0x200, raw: 0x00EE })
    );
    assert!(s.halted);
}

#[test]
fn font_glyph_address_for_a() {
    let mut s = boot(&[0x6A, 0x0A, 0xFA, 0x29]);
    s.execute().unwrap();
    assert_eq!(s.execute(), Ok(Step::Normal));
    assert_eq!(s.ir, 50);
    assert_eq!(
        &s.mem.ram[50..55],
        &[0xF0, 0x90, 0xF0, 0x90, 0x90]
    );
}

#[test]
fn font_index_uses_low_nibble_only() {
    let mut s = boot(&[0x60, 0xF3, 0xF0, 0x29]);
    s.execute().unwrap();
    s.execute().unwrap();
    assert_eq!(s.ir, 15);
}

#[test]
fn unknown_opcode_is_fatal() {
    let mut s = boot(&[0x50, 0x01]);
    assert_eq!(
        s.execute(),
        Err(Fault::UnknownOpcode { pc: 0x200, raw: 0x5001 })
    );
    assert!(s.halted);
}

#[test]
fn fetch_past_address_space_is_fatal() {
    let mut s = boot(&[0x1F, 0xFF]);
    assert_eq!(s.execute(), Ok(Step::Normal));
    assert_eq!(s.pc, 0xFFF);
    assert_eq!(s.execute(), Err(Fault::FetchOutOfRange { pc: 0xFFF }));
    assert!(s.halted);
}

#[test]
fn bcd_past_address_space_is_fatal() {
    let mut s = boot(&[0xAF, 0xFF, 0xF0, 0x33]);
    s.execute().unwrap();
    assert_eq!(
        s.execute(),
        Err(Fault::AddressOutOfRange { pc: 0x202, raw: 0xF033 })
    );
    assert!(s.halted);
}

#[test]
fn bcd_stores_decimal_digits() {
    let mut s = boot(&[0x60, 0xFE, 0xA3, 0x00, 0xF0, 0x33]);
    s.execute().unwrap();
    s.execute().unwrap();
    assert_eq!(s.execute(), Ok(Step::Normal));
    assert_eq!(s.mem.ram[0x300], 2);
    assert_eq!(s.mem.ram[0x301], 5);
    assert_eq!(s.mem.ram[0x302], 4);
}

#[test]
fn block_store_and_load_advance_index() {
    let mut s = boot(&[
        0x60, 0x11, 0x61, 0x22, 0xA3, 0x00, 0xF1, 0x55, 0x60, 0x00, 0x61, 0x00, 0xA3, 0x00, 0xF1,
        0x65,
    ]);
    for _ in 0..4 {
        s.execute().unwrap();
    }
    assert_eq!(s.mem.ram[0x300], 0x11);
    assert_eq!(s.mem.ram[0x301], 0x22);
    assert_eq!(s.ir, 0x302);
    for _ in 0..4 {
        s.execute().unwrap();
    }
    assert_eq!(s.read_register(0), 0x11);
    assert_eq!(s.read_register(1), 0x22);
    assert_eq!(s.ir, 0x302);
}

#[test]
fn skip_opcodes_take_and_fall_through() {
    let mut s = boot(&[0x60, 0x05, 0x30, 0x05]);
    s.execute().unwrap();
    s.execute().unwrap();
    assert_eq!(s.pc, 0x206);

    let mut s = boot(&[0x60, 0x05, 0x30, 0x06]);
    s.execute().unwrap();
    s.execute().unwrap();
    assert_eq!(s.pc, 0x204);

    let mut s = boot(&[0x60, 0x05, 0x40, 0x06]);
    s.execute().unwrap();
    s.execute().unwrap();
    assert_eq!(s.pc, 0x206);

    let mut s = boot(&[0x60, 0x05, 0x61, 0x05, 0x50, 0x10]);
    s.execute().unwrap();
    s.execute().unwrap();
    s.execute().unwrap();
    assert_eq!(s.pc, 0x208);

    let mut s = boot(&[0x60, 0x05, 0x61, 0x06, 0x90, 0x10]);
    s.execute().unwrap();
    s.execute().unwrap();
    s.execute().unwrap();
    assert_eq!(s.pc, 0x208);
}

#[test]
fn jump_and_offset_jump() {
    let mut s = boot(&[0x13, 0x45]);
    s.execute().unwrap();
    assert_eq!(s.pc, 0x345);

    let mut s = boot(&[0x60, 0x10, 0xB3, 0x00]);
    s.execute().unwrap();
    s.execute().unwrap();
    assert_eq!(s.pc, 0x310);
}

#[test]
fn random_opcode_is_a_documented_placeholder() {
    let mut s = boot(&[0xC0, 0x12]);
    assert_eq!(s.execute(), Ok(Step::Normal));
    assert_eq!(s.read_register(0), 255);
}

#[test]
fn index_register_load_and_add() {
    let mut s = boot(&[0xA1, 0x23, 0x60, 0xFF, 0xF0, 0x1E]);
    s.execute().unwrap();
    assert_eq!(s.ir, 0x123);
    s.execute().unwrap();
    s.execute().unwrap();
    assert_eq!(s.ir, 0x222);
}

#[test]
fn system_call_and_breakpoint_halt() {
    let mut s = boot(&[0x01, 0x23]);
    assert_eq!(s.execute(), Ok(Step::Halted));
    assert!(s.halted);

    let mut s = boot(&[0xFF, 0xFF]);
    assert_eq!(s.execute(), Ok(Step::Halted));
    assert!(s.halted);
}

#[test]
fn key_scan_request_and_resolution() {
    let mut s = boot(&[0x60, 0x07, 0xE0, 0x9E, 0x00, 0x00, 0xE0, 0xA1]);
    s.execute().unwrap();
    assert_eq!(
        s.execute(),
        Ok(Step::KeyScan { code: 7, expect_pressed: true })
    );
    assert_eq!(s.pc, 0x204);
    s.resolve_key_scan(true, true);
    assert_eq!(s.pc, 0x206);
    assert_eq!(
        s.execute(),
        Ok(Step::KeyScan { code: 7, expect_pressed: false })
    );
    assert_eq!(s.pc, 0x208);
    s.resolve_key_scan(true, false);
    assert_eq!(s.pc, 0x208);
}

#[test]
fn key_wait_request_then_stored_key() {
    let mut s = boot(&[0xF5, 0x0A]);
    assert_eq!(s.execute(), Ok(Step::KeyWait { x: 5 }));
    assert_eq!(s.pc, 0x202);
    s.write_register(5, 0xB);
    assert_eq!(s.read_register(5), 0xB);
}

#[test]
fn timer_opcodes_set_and_read_back() {
    let mut s = boot(&[0x60, 0x0A, 0xF0, 0x15, 0xF1, 0x07, 0x62, 0x30, 0xF2, 0x18]);
    s.execute().unwrap();
    assert_eq!(s.execute(), Ok(Step::Normal));
    assert_eq!(s.execute(), Ok(Step::Normal));
    assert_eq!(s.read_register(1), 10);
    s.execute().unwrap();
    assert_eq!(s.execute(), Ok(Step::Normal));
    assert_eq!(s.st, 0x30);
}

#[test]
fn draw_sets_pixels_and_collision_flag() {
    let mut s = boot(&[
        0x60, 0x00, 0x61, 0x00, 0xA2, 0x0B, 0xD0, 0x11, 0xD0, 0x11, 0x00, 0x80,
    ]);
    s.execute().unwrap();
    s.execute().unwrap();
    s.execute().unwrap();
    assert_eq!(s.execute(), Ok(Step::DisplayUpdated));
    assert_eq!(s.mem.display[0], 1);
    assert_eq!(s.read_register(0xF), 0);
    assert_eq!(s.execute(), Ok(Step::DisplayUpdated));
    assert_eq!(s.mem.display[0], 0);
    assert_eq!(s.read_register(0xF), 1);
}

#[test]
fn draw_reads_sprite_rows_at_index_register() {
    // the sprite byte 0xA5 is fetched from RAM through the index register
    let mut s = boot(&[0xA2, 0x06, 0xD0, 0x01, 0xFF, 0xFF, 0xA5, 0x00]);
    s.execute().unwrap();
    assert_eq!(s.execute(), Ok(Step::DisplayUpdated));
    let row: Vec<u8> = s.mem.display[0..8].to_vec();
    assert_eq!(row, vec![1, 0, 1, 0, 0, 1, 0, 1]);
}

#[test]
fn draw_past_address_space_is_fatal() {
    let mut s = boot(&[0xAF, 0xFF, 0xD0, 0x02]);
    s.execute().unwrap();
    assert_eq!(
        s.execute(),
        Err(Fault::AddressOutOfRange { pc: 0x202, raw: 0xD002 })
    );
}

#[test]
fn read_decode_splits_nibbles_and_operands() {
    let s = boot(&[0xD1, 0x2F]);
    let (raw, decoded, helper) = s.read_decode();
    assert_eq!(raw, 0xD12F);
    assert_eq!(decoded, (0xD, 0x1, 0x2, 0xF));
    assert_eq!(helper.nnn, 0x12F);
    assert_eq!(helper.nn, 0x2F);
    assert_eq!(helper.x, 1);
    assert_eq!(helper.y, 2);
}

#[test]
fn load_rom_resets_machine_state() {
    let mut s = boot(&[0x60, 0x42, 0xA3, 0x00, 0x22, 0x08]);
    s.execute().unwrap();
    s.execute().unwrap();
    s.execute().unwrap();
    assert_ne!(s.pc, 0x200);
    s.halt();
    s.load_rom(&[0x6A, 0x01]);
    assert_eq!(s.pc, 0x200);
    assert_eq!(s.ir, 0);
    assert_eq!(s.read_register(0), 0);
    assert!(s.mem.stack.is_empty());
    assert_eq!(s.mem.ram[0x200], 0x6A);
    assert_eq!(s.mem.ram[0x201], 0x01);
    assert_eq!(s.mem.ram[0x202], 0);
    assert_eq!(s.mem.ram[0], 0xF0);
    assert!(!s.halted);
}

#[test]
fn halt_is_terminal_for_the_run_loop() {
    let mut s = boot(&[0x6A, 0x42]);
    assert!(!s.halted);
    s.halt();
    assert!(s.halted);
}
