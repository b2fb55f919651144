use chip8_core::Chip8State;
use chip8_core::state::StepOutcome;

fn loaded(rom: &[u8]) -> Chip8State {
    let mut m = Chip8State::new();
    m.load_rom(&rom.to_vec()).unwrap();
    m
}

#[test]
fn draw_sets_pixels_and_reports_no_collision_on_blank() {
    let mut m = Chip8State::new();
    let collided = m.draw_sprite(0, 0, &vec![0b1010_0000]);
    assert!(!collided);
    assert!(m.get_pixel(0, 0));
    assert!(!m.get_pixel(1, 0));
    assert!(m.get_pixel(2, 0));
    assert!(!m.get_pixel(3, 0));
    assert!(m.fb_dirty);
}

#[test]
fn draw_twice_restores_blank_framebuffer() {
    let mut m = Chip8State::new();
    let sprite = vec![0xF0, 0x90, 0x90, 0x90, 0xF0];
    let first = m.draw_sprite(10, 5, &sprite);
    assert!(!first);
    let second = m.draw_sprite(10, 5, &sprite);
    assert!(second);
    for x in 0..64 {
        for y in 0..32 {
            assert!(!m.get_pixel(x, y));
        }
    }
}

#[test]
fn second_draw_collides_iff_first_turned_a_pixel_on() {
    let mut m = Chip8State::new();
    m.fb[0] = true;
    let first = m.draw_sprite(0, 0, &vec![0x80]);
    assert!(first);
    assert!(!m.get_pixel(0, 0));
    let second = m.draw_sprite(0, 0, &vec![0x80]);
    assert!(!second);
    assert!(m.get_pixel(0, 0));
}

#[test]
fn sprite_clips_at_right_edge_by_default() {
    let mut m = Chip8State::new();
    m.draw_sprite(60, 0, &vec![0xFF]);
    assert!(m.get_pixel(60, 0));
    assert!(m.get_pixel(63, 0));
    assert!(!m.get_pixel(0, 0));
    assert!(!m.get_pixel(3, 0));
}

#[test]
fn sprite_wraps_at_right_edge_under_quirk() {
    let mut m = Chip8State::new();
    m.sprite_wrap = true;
    m.draw_sprite(60, 0, &vec![0xFF]);
    assert!(m.get_pixel(60, 0));
    assert!(m.get_pixel(63, 0));
    assert!(m.get_pixel(0, 0));
    assert!(m.get_pixel(3, 0));
}

#[test]
fn sprite_clips_at_bottom_edge_by_default() {
    let mut m = Chip8State::new();
    m.draw_sprite(0, 31, &vec![0x80, 0x80]);
    assert!(m.get_pixel(0, 31));
    assert!(!m.get_pixel(0, 0));
}

#[test]
fn sprite_wraps_at_bottom_edge_under_quirk() {
    let mut m = Chip8State::new();
    m.sprite_wrap = true;
    m.draw_sprite(0, 31, &vec![0x80, 0x80]);
    assert!(m.get_pixel(0, 31));
    assert!(m.get_pixel(0, 0));
}

#[test]
fn entry_coordinates_wrap_modulo_screen() {
    let mut m = Chip8State::new();
    m.draw_sprite(64, 32, &vec![0x80]);
    assert!(m.get_pixel(0, 0));
}

#[test]
fn sprite_opcode_draws_from_memory_and_sets_flag() {
    let mut m = loaded(&[0xD0, 0x11, 0xD0, 0x11]);
    m.i = 0x300;
    m.memory[0x300] = 0xFF;
    assert_eq!(m.step_with_random(0), StepOutcome::Continuing);
    assert_eq!(m.v[0xF], 0);
    for x in 0..8 {
        assert!(m.get_pixel(x, 0));
    }
    assert_eq!(m.step_with_random(0), StepOutcome::Continuing);
    assert_eq!(m.v[0xF], 1);
    for x in 0..8 {
        assert!(!m.get_pixel(x, 0));
    }
}

#[test]
fn sprite_opcode_reads_rows_at_register_coordinates() {
    let mut m = loaded(&[0xD2, 0x32]);
    m.i = 0x300;
    m.memory[0x300] = 0x80;
    m.memory[0x301] = 0x40;
    m.v[2] = 5;
    m.v[3] = 6;
    m.step_with_random(0);
    assert!(m.get_pixel(5, 6));
    assert!(m.get_pixel(6, 7));
    assert!(!m.get_pixel(5, 7));
    assert!(!m.get_pixel(6, 6));
}

#[test]
fn sprite_opcode_with_index_past_memory_end_halts() {
    let mut m = loaded(&[0xD0, 0x12]);
    m.i = 0xFFF;
    let out = m.step_with_random(0);
    assert!(matches!(out, StepOutcome::Halted(_)));
}

#[test]
fn cls_clears_framebuffer_and_marks_dirty() {
    let mut m = loaded(&[0x00, 0xE0]);
    m.fb[100] = true;
    m.fb_dirty = false;
    assert_eq!(m.step_with_random(0), StepOutcome::Continuing);
    assert!(m.fb_dirty);
    for p in 0..(64 * 32) {
        assert!(!m.fb[p]);
    }
    assert_eq!(m.pc, 0x202);
}

#[test]
fn drawn_glyph_matches_font_table() {
    let mut m = loaded(&[0xF1, 0x29, 0xD2, 0x35]);
    m.v[1] = 0x0;
    m.v[2] = 0;
    m.v[3] = 0;
    m.step_with_random(0);
    m.step_with_random(0);
    assert!(m.get_pixel(0, 0));
    assert!(m.get_pixel(3, 0));
    assert!(m.get_pixel(0, 1));
    assert!(!m.get_pixel(1, 1));
    assert!(m.get_pixel(3, 1));
    assert!(m.get_pixel(0, 4));
    assert!(m.get_pixel(3, 4));
}
