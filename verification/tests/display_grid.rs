use chip8::display::{Display, Pixel};

#[test]
fn it_gets_zero_index() {
    let test_disp = Display::new(6, 6, None);
    assert_eq!(test_disp.get_index(0, 0), 0);
}

#[test]
fn it_gets_column() {
    let test_disp = Display::new(6, 6, None);
    assert_eq!(test_disp.get_index(0, 5), 5)
}

#[test]
fn new_empty_is_64_by_32_and_clear() {
    let disp = Display::new_empty();
    assert_eq!(disp.width(), 64);
    assert_eq!(disp.height(), 32);
    assert_eq!(disp.pixels().len(), 64 * 32);
    for i in 0..(64 * 32) {
        assert_eq!(disp.get_pixel(i), Pixel::Off);
    }
}

#[test]
fn toggle_pixel_is_an_xor() {
    let mut disp = Display::new_empty();
    disp.toggle_pixel(70);
    assert_eq!(disp.get_pixel(70), Pixel::On);
    disp.toggle_pixel(70);
    assert_eq!(disp.get_pixel(70), Pixel::Off);
}

#[test]
fn cls_turns_every_cell_off() {
    let mut disp = Display::new_empty();
    disp.toggle_pixel(0);
    disp.toggle_pixel(2047);
    disp.cls();
    assert_eq!(disp.get_pixel(0), Pixel::Off);
    assert_eq!(disp.get_pixel(2047), Pixel::Off);
}

#[test]
fn draw_plots_bits_most_significant_leftmost() {
    let mut disp = Display::new_empty();
    let collision = disp.draw_bytes(0, 0, &vec![0b1010_0000]);
    assert!(!collision);
    assert_eq!(disp.get_pixel(0), Pixel::On);
    assert_eq!(disp.get_pixel(1), Pixel::Off);
    assert_eq!(disp.get_pixel(2), Pixel::On);
    assert_eq!(disp.get_pixel(3), Pixel::Off);
}

// Drawing at x = width-1 wraps columns back to 0 rather than going out of
// bounds.
#[test]
fn draw_at_right_edge_wraps_columns() {
    let mut disp = Display::new_empty();
    let collision = disp.draw_bytes(63, 0, &vec![0b1100_0000]);
    assert!(!collision);
    // bit 0 of the sprite row lands on column 63, bit 1 wraps to column 0
    assert_eq!(disp.get_pixel(63), Pixel::On);
    assert_eq!(disp.get_pixel(0), Pixel::On);
    assert_eq!(disp.get_pixel(1), Pixel::Off);
    assert_eq!(disp.get_pixel(62), Pixel::Off);
}

#[test]
fn draw_at_bottom_edge_wraps_rows() {
    let mut disp = Display::new_empty();
    let collision = disp.draw_bytes(0, 31, &vec![0b1000_0000, 0b1000_0000]);
    assert!(!collision);
    // row 0 of the sprite lands on display row 31, row 1 wraps to row 0
    assert_eq!(disp.get_pixel(31 * 64), Pixel::On);
    assert_eq!(disp.get_pixel(0), Pixel::On);
}

// Drawing the same sprite at the same location twice restores the prior
// pixel state and reports a collision on the second draw.
#[test]
fn draw_twice_restores_and_collides() {
    let mut disp = Display::new_empty();
    let sprite = vec![0xF0u8, 0x90, 0x90, 0x90, 0xF0];
    let first = disp.draw_bytes(10, 5, &sprite);
    assert!(!first);
    let second = disp.draw_bytes(10, 5, &sprite);
    assert!(second);
    for i in 0..(64 * 32) {
        assert_eq!(disp.get_pixel(i), Pixel::Off);
    }
}

#[test]
fn draw_of_empty_sprite_changes_nothing() {
    let mut disp = Display::new_empty();
    let collision = disp.draw_bytes(3, 3, &Vec::new());
    assert!(!collision);
    for i in 0..(64 * 32) {
        assert_eq!(disp.get_pixel(i), Pixel::Off);
    }
}

#[test]
fn render_draws_rows_of_squares() {
    let mut disp = Display::new(2, 2, None);
    disp.toggle_pixel(1);
    disp.toggle_pixel(2);
    assert_eq!(disp.render(), "\u{25FB}\u{25FC}\n\u{25FC}\u{25FB}\n");
}
