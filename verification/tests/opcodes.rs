use chip8_core::Chip8State;
use chip8_core::state::ErrorKind;
use chip8_core::state::StepOutcome;

fn loaded(rom: &[u8]) -> Chip8State {
    let mut m = Chip8State::new();
    m.load_rom(&rom.to_vec()).unwrap();
    m
}

#[test]
fn mvi_sets_register_and_advances_pc() {
    let mut m = loaded(&[0x6A, 0xFF]);
    let out = m.step_with_random(0);
    assert_eq!(out, StepOutcome::Continuing);
    assert_eq!(m.v[0xA], 0xFF);
    assert_eq!(m.pc, 0x202);
}

#[test]
fn set_index_loads_address() {
    let mut m = loaded(&[0xA2, 0x28]);
    let out = m.step_with_random(0);
    assert_eq!(out, StepOutcome::Continuing);
    assert_eq!(m.i, 0x228);
    assert_eq!(m.pc, 0x202);
}

#[test]
fn call_then_ret_restores_pc_and_stack() {
    let mut m = loaded(&[0x22, 0x04, 0x00, 0x00, 0x00, 0xEE]);
    assert_eq!(m.step_with_random(0), StepOutcome::Continuing);
    assert_eq!(m.pc, 0x204);
    assert_eq!(m.stack.len(), 1);
    assert_eq!(m.stack[0], 0x202);
    assert_eq!(m.step_with_random(0), StepOutcome::Continuing);
    assert_eq!(m.pc, 0x202);
    assert_eq!(m.stack.len(), 0);
}

#[test]
fn add_overflow_sets_carry_and_wraps() {
    let mut m = loaded(&[0x81, 0x24]);
    m.v[1] = 0xFF;
    m.v[2] = 0x01;
    assert_eq!(m.step_with_random(0), StepOutcome::Continuing);
    assert_eq!(m.v[1], 0x00);
    assert_eq!(m.v[0xF], 1);
}

#[test]
fn add_without_overflow_clears_carry() {
    let mut m = loaded(&[0x81, 0x24]);
    m.v[1] = 0x10;
    m.v[2] = 0x20;
    m.v[0xF] = 1;
    m.step_with_random(0);
    assert_eq!(m.v[1], 0x30);
    assert_eq!(m.v[0xF], 0);
}

#[test]
fn add_flag_survives_vf_destination() {
    let mut m = loaded(&[0x8F, 0xF4]);
    m.v[0xF] = 200;
    m.step_with_random(0);
    assert_eq!(m.v[0xF], 1);
}

#[test]
fn store_then_load_restores_registers() {
    let mut m = loaded(&[0xF3, 0x55, 0xF3, 0x65]);
    m.v[0] = 1;
    m.v[1] = 2;
    m.v[2] = 3;
    m.v[3] = 4;
    m.i = 0x300;
    assert_eq!(m.step_with_random(0), StepOutcome::Continuing);
    assert_eq!(m.i, 0x304);
    m.v[0] = 0;
    m.v[1] = 0;
    m.v[2] = 0;
    m.v[3] = 0;
    m.i = 0x300;
    assert_eq!(m.step_with_random(0), StepOutcome::Continuing);
    assert_eq!(&m.v[0..4], &[1, 2, 3, 4]);
    assert_eq!(m.i, 0x304);
}

#[test]
fn bulk_transfer_without_advance_quirk_keeps_index() {
    let mut m = loaded(&[0xF1, 0x55]);
    m.bulk_advances_i = false;
    m.i = 0x300;
    m.v[0] = 9;
    m.v[1] = 8;
    m.step_with_random(0);
    assert_eq!(m.i, 0x300);
    assert_eq!(m.memory[0x300], 9);
    assert_eq!(m.memory[0x301], 8);
}

#[test]
fn bcd_of_255_writes_2_5_5() {
    let mut m = loaded(&[0xF0, 0x33]);
    m.v[0] = 255;
    m.i = 0x300;
    assert_eq!(m.step_with_random(0), StepOutcome::Continuing);
    assert_eq!(m.memory[0x300], 2);
    assert_eq!(m.memory[0x301], 5);
    assert_eq!(m.memory[0x302], 5);
}

#[test]
fn bcd_of_single_digit() {
    let mut m = loaded(&[0xF4, 0x33]);
    m.v[4] = 7;
    m.i = 0x250;
    m.step_with_random(0);
    assert_eq!(m.memory[0x250], 0);
    assert_eq!(m.memory[0x251], 0);
    assert_eq!(m.memory[0x252], 7);
}

#[test]
fn sub_sets_no_borrow_flag_iff_vx_ge_vy() {
    let mut m = loaded(&[0x81, 0x25, 0x83, 0x45]);
    m.v[1] = 5;
    m.v[2] = 5;
    m.v[3] = 4;
    m.v[4] = 6;
    m.step_with_random(0);
    assert_eq!(m.v[1], 0);
    assert_eq!(m.v[0xF], 1);
    m.step_with_random(0);
    assert_eq!(m.v[3], 0xFE);
    assert_eq!(m.v[0xF], 0);
}

#[test]
fn subn_sets_no_borrow_flag_iff_vy_ge_vx() {
    let mut m = loaded(&[0x81, 0x27, 0x83, 0x47]);
    m.v[1] = 5;
    m.v[2] = 7;
    m.v[3] = 9;
    m.v[4] = 6;
    m.step_with_random(0);
    assert_eq!(m.v[1], 2);
    assert_eq!(m.v[0xF], 1);
    m.step_with_random(0);
    assert_eq!(m.v[3], 0xFD);
    assert_eq!(m.v[0xF], 0);
}

#[test]
fn shr_flag_is_shifted_out_bit_not_result_bit() {
    let mut m = loaded(&[0x82, 0x36]);
    m.v[2] = 0b0000_0101;
    m.step_with_random(0);
    assert_eq!(m.v[2], 0b0000_0010);
    assert_eq!(m.v[2] & 1, 0);
    assert_eq!(m.v[0xF], 1);
}

#[test]
fn shl_flag_is_shifted_out_bit_not_result_bit() {
    let mut m = loaded(&[0x82, 0x3E]);
    m.v[2] = 0x81;
    m.step_with_random(0);
    assert_eq!(m.v[2], 0x02);
    assert_eq!(m.v[2] >> 7, 0);
    assert_eq!(m.v[0xF], 1);
}

#[test]
fn shift_quirk_reads_vy() {
    let mut m = loaded(&[0x82, 0x36]);
    m.shift_from_vy = true;
    m.v[2] = 1;
    m.v[3] = 4;
    m.step_with_random(0);
    assert_eq!(m.v[2], 2);
    assert_eq!(m.v[0xF], 0);
}

#[test]
fn bitwise_ops_clear_flag() {
    let mut m = loaded(&[0x81, 0x21, 0x83, 0x42, 0x85, 0x63]);
    m.v[1] = 0b1010;
    m.v[2] = 0b0110;
    m.v[3] = 0b1010;
    m.v[4] = 0b0110;
    m.v[5] = 0b1010;
    m.v[6] = 0b0110;
    m.v[0xF] = 1;
    m.step_with_random(0);
    assert_eq!(m.v[1], 0b1110);
    assert_eq!(m.v[0xF], 0);
    m.v[0xF] = 1;
    m.step_with_random(0);
    assert_eq!(m.v[3], 0b0010);
    assert_eq!(m.v[0xF], 0);
    m.v[0xF] = 1;
    m.step_with_random(0);
    assert_eq!(m.v[5], 0b1100);
    assert_eq!(m.v[0xF], 0);
}

#[test]
fn add_immediate_wraps_and_keeps_flag() {
    let mut m = loaded(&[0x71, 0x05]);
    m.v[1] = 0xFE;
    m.v[0xF] = 7;
    m.step_with_random(0);
    assert_eq!(m.v[1], 0x03);
    assert_eq!(m.v[0xF], 7);
}

#[test]
fn mov_copies_register() {
    let mut m = loaded(&[0x81, 0x20]);
    m.v[2] = 0x42;
    m.step_with_random(0);
    assert_eq!(m.v[1], 0x42);
}

#[test]
fn skips_on_immediate_compare() {
    let mut m = loaded(&[0x31, 0x42]);
    m.v[1] = 0x42;
    m.step_with_random(0);
    assert_eq!(m.pc, 0x204);
    let mut m2 = loaded(&[0x31, 0x42]);
    m2.v[1] = 0x41;
    m2.step_with_random(0);
    assert_eq!(m2.pc, 0x202);
    let mut m3 = loaded(&[0x41, 0x42]);
    m3.v[1] = 0x41;
    m3.step_with_random(0);
    assert_eq!(m3.pc, 0x204);
}

#[test]
fn skips_on_register_compare() {
    let mut m = loaded(&[0x51, 0x20]);
    m.v[1] = 3;
    m.v[2] = 3;
    m.step_with_random(0);
    assert_eq!(m.pc, 0x204);
    let mut m2 = loaded(&[0x91, 0x20]);
    m2.v[1] = 3;
    m2.v[2] = 4;
    m2.step_with_random(0);
    assert_eq!(m2.pc, 0x204);
}

#[test]
fn jump_sets_pc() {
    let mut m = loaded(&[0x12, 0x40]);
    m.step_with_random(0);
    assert_eq!(m.pc, 0x240);
}

#[test]
fn jump_plus_v0_adds_register() {
    let mut m = loaded(&[0xB2, 0x40]);
    m.v[0] = 4;
    m.step_with_random(0);
    assert_eq!(m.pc, 0x244);
}

#[test]
fn jump_plus_v0_out_of_range_halts() {
    let mut m = loaded(&[0xBF, 0xFF]);
    m.v[0] = 1;
    let out = m.step_with_random(0);
    match out {
        StepOutcome::Halted(f) => {
            assert_eq!(f.kind, ErrorKind::AddressOutOfRange);
            assert_eq!(f.opcode, 0xBFFF);
            assert_eq!(f.addr, 0x200);
        }
        _ => panic!("expected a halt"),
    }
    assert_eq!(m.pc, 0x200);
}

#[test]
fn random_mask_keeps_only_masked_bits() {
    let mut m = loaded(&[0xC1, 0x0F]);
    m.step_with_random(0xAB);
    assert_eq!(m.v[1], 0x0B);
}

#[test]
fn random_mask_zero_gives_zero_through_real_generator() {
    let mut m = loaded(&[0xC5, 0x00]);
    let out = m.step();
    assert_eq!(out, StepOutcome::Continuing);
    assert_eq!(m.v[5], 0);
}

#[test]
fn wait_key_blocks_then_supply_resumes() {
    let mut m = loaded(&[0xF5, 0x0A]);
    let out = m.step_with_random(0);
    assert_eq!(out, StepOutcome::BlockedOnKey(5));
    assert_eq!(m.pc, 0x202);
    m.supply_key(5, 0xB);
    assert_eq!(m.v[5], 0xB);
}

#[test]
fn skip_if_key_pressed() {
    let mut m = loaded(&[0xE3, 0x9E]);
    m.v[3] = 0x7;
    m.set_key(0x7, true);
    m.step_with_random(0);
    assert_eq!(m.pc, 0x204);
}

#[test]
fn skip_if_key_not_pressed() {
    let mut m = loaded(&[0xE3, 0xA1]);
    m.v[3] = 0x7;
    m.set_key(0x7, true);
    m.step_with_random(0);
    assert_eq!(m.pc, 0x202);
    let mut m2 = loaded(&[0xE3, 0xA1]);
    m2.v[3] = 0x7;
    m2.step_with_random(0);
    assert_eq!(m2.pc, 0x204);
}

#[test]
fn delay_timer_write_and_read() {
    let mut m = loaded(&[0xF1, 0x15, 0xF2, 0x07]);
    m.v[1] = 9;
    m.step_with_random(0);
    assert_eq!(m.delay, 9);
    m.step_with_random(0);
    assert_eq!(m.v[2], 9);
}

#[test]
fn sound_timer_write_activates_audio() {
    let mut m = loaded(&[0xF1, 0x18]);
    m.v[1] = 3;
    assert!(!m.sound_active());
    m.step_with_random(0);
    assert_eq!(m.sound, 3);
    assert!(m.sound_active());
}

#[test]
fn add_index_accumulates() {
    let mut m = loaded(&[0xF1, 0x1E]);
    m.i = 0x100;
    m.v[1] = 0x20;
    m.step_with_random(0);
    assert_eq!(m.i, 0x120);
}

#[test]
fn add_index_out_of_range_halts() {
    let mut m = loaded(&[0xF0, 0x1E]);
    m.i = 0xFFF;
    m.v[0] = 1;
    let out = m.step_with_random(0);
    match out {
        StepOutcome::Halted(f) => assert_eq!(f.kind, ErrorKind::AddressOutOfRange),
        _ => panic!("expected a halt"),
    }
    assert_eq!(m.i, 0xFFF);
}

#[test]
fn glyph_addr_points_into_font_table() {
    let mut m = loaded(&[0xF1, 0x29]);
    m.v[1] = 0xA;
    m.step_with_random(0);
    assert_eq!(m.i, 50);
    assert_eq!(m.memory[50], 0xF0);
    assert_eq!(m.memory[51], 0x90);
    assert_eq!(m.memory[54], 0x90);
}

#[test]
fn invalid_opcode_halts_with_word_and_address() {
    let mut m = loaded(&[0xFF, 0xFF]);
    let out = m.step_with_random(0);
    match out {
        StepOutcome::Halted(f) => {
            assert_eq!(f.kind, ErrorKind::InvalidOpcode);
            assert_eq!(f.opcode, 0xFFFF);
            assert_eq!(f.addr, 0x200);
        }
        _ => panic!("expected a halt"),
    }
}

#[test]
fn ret_on_empty_stack_underflows() {
    let mut m = loaded(&[0x00, 0xEE]);
    let out = m.step_with_random(0);
    match out {
        StepOutcome::Halted(f) => assert_eq!(f.kind, ErrorKind::StackUnderflow),
        _ => panic!("expected a halt"),
    }
}

#[test]
fn seventeenth_nested_call_overflows() {
    let mut m = loaded(&[0x22, 0x00]);
    for depth in 1..=16 {
        assert_eq!(m.step_with_random(0), StepOutcome::Continuing);
        assert_eq!(m.stack.len(), depth);
        m.pc = 0x200;
    }
    let out = m.step_with_random(0);
    match out {
        StepOutcome::Halted(f) => assert_eq!(f.kind, ErrorKind::StackOverflow),
        _ => panic!("expected a halt"),
    }
    assert_eq!(m.stack.len(), 16);
}

#[test]
fn pc_past_memory_end_halts() {
    let mut m = Chip8State::new();
    m.pc = 4095;
    let out = m.step_with_random(0);
    match out {
        StepOutcome::Halted(f) => {
            assert_eq!(f.kind, ErrorKind::AddressOutOfRange);
            assert_eq!(f.opcode, 0);
            assert_eq!(f.addr, 4095);
        }
        _ => panic!("expected a halt"),
    }
}

#[test]
fn bcd_near_memory_end_halts() {
    let mut m = loaded(&[0xF0, 0x33]);
    m.i = 4094;
    let out = m.step_with_random(0);
    match out {
        StepOutcome::Halted(f) => assert_eq!(f.kind, ErrorKind::AddressOutOfRange),
        _ => panic!("expected a halt"),
    }
}

#[test]
fn bulk_store_past_memory_end_halts() {
    let mut m = loaded(&[0xF7, 0x55]);
    m.i = 4090;
    let out = m.step_with_random(0);
    match out {
        StepOutcome::Halted(f) => assert_eq!(f.kind, ErrorKind::AddressOutOfRange),
        _ => panic!("expected a halt"),
    }
}

#[test]
fn zero_group_word_outside_instruction_set_halts() {
    let mut m = loaded(&[0x00, 0x23]);
    let out = m.step_with_random(0);
    match out {
        StepOutcome::Halted(f) => {
            assert_eq!(f.kind, ErrorKind::InvalidOpcode);
            assert_eq!(f.opcode, 0x0023);
        }
        _ => panic!("expected a halt"),
    }
}

#[test]
fn skip_if_key_uses_low_nibble_of_register() {
    let mut m = loaded(&[0xE3, 0x9E]);
    m.v[3] = 0x17;
    m.set_key(0x7, true);
    m.step_with_random(0);
    assert_eq!(m.pc, 0x204);
}

#[test]
fn blocked_machine_resumes_and_uses_supplied_key() {
    let mut m = loaded(&[0xF5, 0x0A, 0x85, 0x50]);
    assert_eq!(m.step_with_random(0), StepOutcome::BlockedOnKey(5));
    m.supply_key(5, 0xC);
    assert_eq!(m.step_with_random(0), StepOutcome::Continuing);
    assert_eq!(m.v[5], 0xC);
    assert_eq!(m.pc, 0x204);
}
