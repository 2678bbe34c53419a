//! Per-instruction behavior: arithmetic wraparound and flag polarity,
//! shifts under both quirk selections, skips, jumps, subroutines, BCD
//! conversion, register dump/load round-trips, and anomaly handling.

use machine::{Drivers, Machine, NoopAudio, NoopInput, Quirks, RomError, MEMORY_SIZE, PROGRAM_START};

fn boot(rom: &[u8]) -> Machine<NoopAudio, NoopInput> {
    Machine::from_rom(rom, Quirks::modern_chip8(), Drivers::noop()).unwrap()
}

fn boot_with(rom: &[u8], quirks: Quirks) -> Machine<NoopAudio, NoopInput> {
    Machine::from_rom(rom, quirks, Drivers::noop()).unwrap()
}

#[test]
fn add_wraps_with_carry() {
    // V0 = 0xFF; V1 = 1; V0 += V1 with carry
    let mut m = boot(&[0x60, 0xFF, 0x61, 0x01, 0x80, 0x14]);
    m.cycle();
    m.cycle();
    m.cycle();
    assert_eq!(m.registers[0x0], 0x00);
    assert_eq!(m.registers[0xF], 1);
}

#[test]
fn add_without_overflow_clears_carry() {
    let mut m = boot(&[0x60, 0x20, 0x61, 0x22, 0x80, 0x14]);
    m.registers[0xF] = 1;
    for _ in 0..3 {
        m.cycle();
    }
    assert_eq!(m.registers[0x0], 0x42);
    assert_eq!(m.registers[0xF], 0);
}

#[test]
fn sub_wraps_with_borrow_flag_zero() {
    // V0 = 0; V1 = 1; V0 -= V1: wraps to 0xFF, flag 0 (a borrow occurred)
    let mut m = boot(&[0x60, 0x00, 0x61, 0x01, 0x80, 0x15]);
    for _ in 0..3 {
        m.cycle();
    }
    assert_eq!(m.registers[0x0], 0xFF);
    assert_eq!(m.registers[0xF], 0);
}

#[test]
fn sub_without_borrow_sets_flag() {
    let mut m = boot(&[0x60, 0x05, 0x61, 0x03, 0x80, 0x15]);
    for _ in 0..3 {
        m.cycle();
    }
    assert_eq!(m.registers[0x0], 0x02);
    assert_eq!(m.registers[0xF], 1);
}

#[test]
fn reverse_sub_flag_polarity() {
    // V0 = 7; V1 = 3; V0 = V1 - V0: wraps, flag 0
    let mut m = boot(&[0x60, 0x07, 0x61, 0x03, 0x80, 0x17]);
    for _ in 0..3 {
        m.cycle();
    }
    assert_eq!(m.registers[0x0], 0xFC);
    assert_eq!(m.registers[0xF], 0);
}

#[test]
fn add_immediate_wraps_without_flag() {
    // V0 = 0xF0; V0 += 0x20 wraps silently, flag untouched
    let mut m = boot(&[0x60, 0xF0, 0x70, 0x20]);
    m.registers[0xF] = 7;
    m.cycle();
    m.cycle();
    assert_eq!(m.registers[0x0], 0x10);
    assert_eq!(m.registers[0xF], 7);
}

#[test]
fn bitwise_ops() {
    // V0 = 0b1100; V1 = 0b1010; OR, then re-load and AND, then XOR
    let mut m = boot(&[
        0x60, 0x0C, 0x61, 0x0A, 0x80, 0x11, // V0 |= V1
        0x60, 0x0C, 0x80, 0x12, // V0 = 0b1100; V0 &= V1
        0x60, 0x0C, 0x80, 0x13, // V0 = 0b1100; V0 ^= V1
    ]);
    for _ in 0..3 {
        m.cycle();
    }
    assert_eq!(m.registers[0x0], 0b1110);
    m.cycle();
    m.cycle();
    assert_eq!(m.registers[0x0], 0b1000);
    m.cycle();
    m.cycle();
    assert_eq!(m.registers[0x0], 0b0110);
}

#[test]
fn shift_right_with_copy_quirk() {
    // With the quirk, VX is first overwritten with VY
    let mut m = boot(&[0x60, 0x00, 0x61, 0x05, 0x80, 0x16]);
    for _ in 0..3 {
        m.cycle();
    }
    assert_eq!(m.registers[0x0], 0x02);
    assert_eq!(m.registers[0xF], 1);
}

#[test]
fn shift_right_without_copy_quirk() {
    let mut quirks = Quirks::modern_chip8();
    quirks.set_vx_to_vy = false;
    let mut m = boot_with(&[0x60, 0x04, 0x61, 0x05, 0x80, 0x16], quirks);
    for _ in 0..3 {
        m.cycle();
    }
    assert_eq!(m.registers[0x0], 0x02);
    assert_eq!(m.registers[0xF], 0);
}

#[test]
fn shift_left_reports_high_bit() {
    let mut m = boot(&[0x60, 0x00, 0x61, 0x81, 0x80, 0x1E]);
    for _ in 0..3 {
        m.cycle();
    }
    assert_eq!(m.registers[0x0], 0x02);
    assert_eq!(m.registers[0xF], 1);
}

#[test]
fn skip_if_equal_immediate() {
    // V0 = 3; skip if V0 == 3 lands past the next instruction
    let mut m = boot(&[0x60, 0x03, 0x30, 0x03, 0x61, 0x07, 0x62, 0x09]);
    for _ in 0..3 {
        m.cycle();
    }
    assert_eq!(m.registers[0x1], 0); // skipped
    assert_eq!(m.registers[0x2], 9);
}

#[test]
fn skip_if_not_equal_immediate_falls_through() {
    let mut m = boot(&[0x60, 0x03, 0x40, 0x03, 0x61, 0x07]);
    for _ in 0..3 {
        m.cycle();
    }
    assert_eq!(m.registers[0x1], 7); // not skipped
}

#[test]
fn skip_if_registers_equal() {
    let mut m = boot(&[0x60, 0x04, 0x61, 0x04, 0x50, 0x10, 0x62, 0x01, 0x63, 0x02]);
    for _ in 0..4 {
        m.cycle();
    }
    assert_eq!(m.registers[0x2], 0);
    assert_eq!(m.registers[0x3], 2);
}

#[test]
fn skip_if_registers_not_equal() {
    let mut m = boot(&[0x60, 0x04, 0x61, 0x05, 0x90, 0x10, 0x62, 0x01, 0x63, 0x02]);
    for _ in 0..4 {
        m.cycle();
    }
    assert_eq!(m.registers[0x2], 0);
    assert_eq!(m.registers[0x3], 2);
}

#[test]
fn jump_sets_pc() {
    let mut m = boot(&[0x12, 0x34]);
    m.cycle();
    assert_eq!(m.pc, 0x234);
}

#[test]
fn jump_with_offset_uses_v0_by_default() {
    let mut m = boot(&[0x60, 0x05, 0xB3, 0x00]);
    m.cycle();
    m.cycle();
    assert_eq!(m.pc, 0x305);
}

#[test]
fn jump_with_offset_quirk_uses_vx() {
    let mut quirks = Quirks::modern_chip8();
    quirks.bxnn = true;
    // V3 = 7; jump to 0x300 + V3 under the quirk
    let mut m = boot_with(&[0x63, 0x07, 0xB3, 0x00], quirks);
    m.cycle();
    m.cycle();
    assert_eq!(m.pc, 0x307);
}

#[test]
fn call_then_return_resumes_after_call() {
    // call 0x206; the subroutine immediately returns
    let mut m = boot(&[0x22, 0x06, 0x00, 0x00, 0x00, 0x00, 0x00, 0xEE]);
    m.cycle();
    assert_eq!(m.pc, 0x206);
    assert_eq!(m.stack, vec![0x202]);
    m.cycle();
    assert_eq!(m.pc, 0x202);
    assert!(m.stack.is_empty());
}

#[test]
fn return_with_empty_stack_is_ignored() {
    let mut m = boot(&[0x00, 0xEE]);
    m.cycle();
    assert_eq!(m.pc, 0x202);
    assert!(m.stack.is_empty());
}

#[test]
fn load_index_register() {
    let mut m = boot(&[0xA1, 0x23]);
    m.cycle();
    assert_eq!(m.index, 0x123);
}

#[test]
fn index_add_wraps_and_sets_flag_under_quirk() {
    // The historical overflow condition is tautological: with the quirk on,
    // the flag is set even without 16-bit wraparound.
    let mut m = boot(&[0x60, 0x05, 0xF0, 0x1E]);
    m.index = 0x0FFE;
    m.cycle();
    m.cycle();
    assert_eq!(m.index, 0x1003);
    assert_eq!(m.registers[0xF], 1);
}

#[test]
fn index_add_without_quirk_leaves_flag() {
    let mut quirks = Quirks::modern_chip8();
    quirks.set_vf_on_fx1e_overflow = false;
    let mut m = boot_with(&[0x60, 0x05, 0xF0, 0x1E], quirks);
    m.cycle();
    m.cycle();
    assert_eq!(m.index, 0x0005);
    assert_eq!(m.registers[0xF], 0);
}

#[test]
fn bcd_of_156() {
    let mut m = boot(&[0xF0, 0x33]);
    m.registers[0x0] = 156;
    m.index = 0x300;
    m.cycle();
    assert_eq!(&m.memory[0x300..0x303], &[1, 5, 6]);
}

#[test]
fn bcd_of_0() {
    let mut m = boot(&[0xF0, 0x33]);
    m.registers[0x0] = 0;
    m.index = 0x300;
    m.cycle();
    assert_eq!(&m.memory[0x300..0x303], &[0, 0, 0]);
}

#[test]
fn bcd_of_255() {
    let mut m = boot(&[0xF0, 0x33]);
    m.registers[0x0] = 255;
    m.index = 0x300;
    m.cycle();
    assert_eq!(&m.memory[0x300..0x303], &[2, 5, 5]);
}

#[test]
fn dump_load_round_trip_without_index_quirk() {
    let values = [0x11u8, 0x22, 0x33, 0x44, 0x55, 0x66];
    let mut m = boot(&[0xF5, 0x55, 0xF5, 0x65]);
    m.registers[..6].copy_from_slice(&values);
    m.index = 0x300;
    m.cycle(); // dump V0..=V5 to the consecutive cells at the index
    assert_eq!(&m.memory[0x300..0x306], &values);
    assert_eq!(m.index, 0x300);
    for r in m.registers.iter_mut().take(6) {
        *r = 0;
    }
    m.cycle(); // load V0..=V5 through the same region
    assert_eq!(&m.registers[..6], &values);
}

#[test]
fn dump_load_round_trip_with_index_quirk() {
    let mut quirks = Quirks::modern_chip8();
    quirks.fx_incr_index = true;
    let values = [0x11u8, 0x22, 0x33, 0x44, 0x55, 0x66];
    let mut m = boot_with(&[0xF5, 0x55, 0xF5, 0x65], quirks);
    m.registers[..6].copy_from_slice(&values);
    m.index = 0x300;
    m.cycle(); // dump V0..=V5: the same consecutive cells, and the index moves
    assert_eq!(&m.memory[0x300..0x306], &values);
    assert_eq!(m.index, 0x306);
    for r in m.registers.iter_mut().take(6) {
        *r = 0;
    }
    m.index = 0x300; // the load walks the same region from the same start
    m.cycle();
    assert_eq!(&m.registers[..6], &values);
    assert_eq!(m.index, 0x306);
}

#[test]
fn timer_read_and_write() {
    let mut m = boot(&[0x60, 0x09, 0xF0, 0x15, 0xF0, 0x18, 0x61, 0x00, 0xF1, 0x07]);
    for _ in 0..5 {
        m.cycle();
    }
    assert_eq!(m.dt, 9);
    assert_eq!(m.st, 9);
    assert_eq!(m.registers[0x1], 9);
}

#[test]
fn unknown_instruction_is_ignored() {
    let mut m = boot(&[0x8A, 0xB8, 0x60, 0x07]);
    m.cycle();
    assert_eq!(m.pc, 0x202);
    assert_eq!(m.registers, [0u8; 16]);
    m.cycle();
    assert_eq!(m.registers[0x0], 7);
}

#[test]
fn out_of_range_block_ops_are_ignored() {
    // BCD and dump with the index register near the end of memory: the
    // instructions are ignored rather than running past the end
    let mut m = boot(&[0xF0, 0x33, 0xF5, 0x55]);
    m.registers[0x0] = 42;
    m.index = (MEMORY_SIZE - 2) as u16;
    let before = m.memory.clone();
    m.cycle();
    m.cycle();
    assert_eq!(m.memory, before);
    assert_eq!(m.pc, 0x204);
}

#[test]
fn from_rom_rejects_oversized_image() {
    let too_large = vec![0u8; MEMORY_SIZE - PROGRAM_START as usize + 1];
    let r = Machine::from_rom(&too_large, Quirks::modern_chip8(), Drivers::noop());
    assert_eq!(r.err(), Some(RomError::TooLarge));

    let largest = vec![0u8; MEMORY_SIZE - PROGRAM_START as usize];
    assert!(Machine::from_rom(&largest, Quirks::modern_chip8(), Drivers::noop()).is_ok());
}
