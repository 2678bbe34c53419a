//! Display behavior: XOR sprite drawing, collision reporting, edge
//! clipping, clearing, and the dirty flag.

use machine::{Drivers, Machine, NoopAudio, NoopInput, Quirks, DISPLAY_HEIGHT, DISPLAY_WIDTH};

fn boot(rom: &[u8]) -> Machine<NoopAudio, NoopInput> {
    Machine::from_rom(rom, Quirks::modern_chip8(), Drivers::noop()).unwrap()
}

fn lit_pixels(m: &Machine<NoopAudio, NoopInput>) -> Vec<(usize, usize)> {
    let mut lit = Vec::new();
    for x in 0..DISPLAY_WIDTH {
        for y in 0..DISPLAY_HEIGHT {
            if m.pixel(x, y) {
                lit.push((x, y));
            }
        }
    }
    lit
}

#[test]
fn draw_sets_pixels_from_sprite_rows() {
    // Draw one row, 0b10100000, at (3, 5)
    let mut m = boot(&[0x60, 0x03, 0x61, 0x05, 0xA3, 0x00, 0xD0, 0x11]);
    m.memory[0x300] = 0b1010_0000;
    for _ in 0..4 {
        m.cycle();
    }
    assert_eq!(lit_pixels(&m), vec![(3, 5), (5, 5)]);
    assert_eq!(m.registers[0xF], 0);
    assert!(m.is_dirty);
}

#[test]
fn draw_marks_dirty_even_when_nothing_changes() {
    // A sprite of all-zero rows changes no pixel but still marks the
    // display dirty
    let mut m = boot(&[0xA3, 0x00, 0xD0, 0x12]);
    m.cycle();
    m.is_dirty = false;
    m.cycle();
    assert!(m.is_dirty);
    assert_eq!(lit_pixels(&m), vec![]);
}

#[test]
fn draw_twice_clears_and_reports_collision() {
    // The same sprite drawn twice at the same position: XOR restores every
    // pixel and the second draw reports a collision
    let mut m = boot(&[
        0x60, 0x0A, 0x61, 0x05, 0xA0, 0x50, 0xD0, 0x15, 0xD0, 0x15,
    ]);
    for _ in 0..4 {
        m.cycle();
    }
    assert!(!lit_pixels(&m).is_empty());
    assert_eq!(m.registers[0xF], 0);
    m.cycle();
    assert_eq!(lit_pixels(&m), vec![]);
    assert_eq!(m.registers[0xF], 1);
}

#[test]
fn draw_wraps_start_coordinates() {
    // Coordinates are taken modulo the display size: (64 + 3, 32 + 5)
    // starts at (3, 5)
    let mut m = boot(&[0x60, 0x43, 0x61, 0x25, 0xA3, 0x00, 0xD0, 0x11]);
    m.memory[0x300] = 0b1000_0000;
    for _ in 0..4 {
        m.cycle();
    }
    assert_eq!(lit_pixels(&m), vec![(3, 5)]);
}

#[test]
fn draw_clips_at_right_edge() {
    // A full row drawn at x = 62 lights only columns 62 and 63
    let mut m = boot(&[0x60, 0x3E, 0x61, 0x00, 0xA3, 0x00, 0xD0, 0x11]);
    m.memory[0x300] = 0xFF;
    for _ in 0..4 {
        m.cycle();
    }
    assert_eq!(lit_pixels(&m), vec![(62, 0), (63, 0)]);
}

#[test]
fn draw_clips_at_bottom_edge() {
    // Three rows drawn at y = 30 light only rows 30 and 31
    let mut m = boot(&[0x60, 0x00, 0x61, 0x1E, 0xA3, 0x00, 0xD0, 0x13]);
    m.memory[0x300] = 0x80;
    m.memory[0x301] = 0x80;
    m.memory[0x302] = 0x80;
    for _ in 0..4 {
        m.cycle();
    }
    assert_eq!(lit_pixels(&m), vec![(0, 30), (0, 31)]);
}

#[test]
fn clear_display_clears_cells_and_raises_dirty() {
    // Draw the font glyph for 0, reset the dirty flag as a host would, then
    // clear the screen
    let mut m = boot(&[0xA0, 0x50, 0xD0, 0x15, 0x00, 0xE0]);
    m.cycle();
    m.cycle();
    assert!(!lit_pixels(&m).is_empty());
    m.is_dirty = false;
    m.cycle();
    assert_eq!(lit_pixels(&m), vec![]);
    assert!(m.is_dirty);
}

#[test]
fn collision_only_for_overlapping_set_bits() {
    // A partially overlapping second draw collides on the shared columns,
    // clears them by XOR, and sets the fresh ones
    let mut m = boot(&[
        0xA3, 0x00, 0x60, 0x00, 0xD0, 0x11, // row 0b11110000 at (0, 0)
        0x60, 0x02, 0xD0, 0x11, // the same row at (2, 0): columns 2 and 3 overlap
    ]);
    m.memory[0x300] = 0b1111_0000;
    for _ in 0..3 {
        m.cycle();
    }
    assert_eq!(m.registers[0xF], 0);
    m.cycle();
    m.cycle();
    assert_eq!(m.registers[0xF], 1);
    assert_eq!(lit_pixels(&m), vec![(0, 0), (1, 0), (4, 0), (5, 0)]);
}

#[test]
fn draw_with_sprite_rows_past_memory_end_is_ignored() {
    let mut m = boot(&[0x60, 0x00, 0xD0, 0x02]);
    m.index = 0x0FFF;
    m.cycle();
    m.cycle();
    assert_eq!(lit_pixels(&m), vec![]);
    assert!(!m.is_dirty);
    assert_eq!(m.pc, 0x204);
}
