use reel::sharp_lcd::{clear_command, status_screen_pixels, SharpBus, SharpDisplay, FRAMEBUFFER_SIZE};

fn is_dark(display: &SharpDisplay, x: usize, y: usize) -> bool {
    let line = display.frame_line(y);
    (line[1 + x / 8] >> (x % 8)) & 1 == 0
}

#[test]
fn new_display_is_white_and_unsent() {
    let mut display = SharpDisplay::new();
    assert_eq!(display.size(), (160, 68));
    for y in 0..68 {
        let line = display.frame_line(y);
        assert_eq!(line[0], (y + 1) as u8);
        assert!(line[1..21].iter().all(|&b| b == 0xff));
        assert_eq!(line[21], 0);
    }
    // the first flush is always sent, an unchanged frame afterwards is not
    assert!(display.begin_flush());
    assert!(!display.begin_flush());
}

#[test]
fn drawing_a_pixel_clears_exactly_its_bit() {
    let mut display = SharpDisplay::new();
    display.draw_pixel(13, 2, true);
    let line = display.frame_line(2);
    assert_eq!(line[1 + 1], 0xff & !(1 << 5));
    assert!(is_dark(&display, 13, 2));
    assert!(!is_dark(&display, 12, 2));
    assert!(!is_dark(&display, 13, 1));
    display.draw_pixel(13, 2, false);
    assert!(!is_dark(&display, 13, 2));
}

#[test]
fn pixels_outside_the_panel_are_ignored() {
    let mut display = SharpDisplay::new();
    display.begin_flush();
    display.draw_pixels(&[(-1, 0, true), (0, -1, true), (160, 0, true), (0, 68, true)]);
    assert!(!display.begin_flush());
    display.draw_pixels(&[(159, 67, true)]);
    assert!(is_dark(&display, 159, 67));
    assert!(display.begin_flush());
}

#[test]
fn clear_fills_every_byte() {
    let mut display = SharpDisplay::new();
    display.clear(true);
    for y in 0..68 {
        assert!(display.frame_line(y)[1..21].iter().all(|&b| b == 0x00));
    }
    display.clear(false);
    for y in 0..68 {
        assert!(display.frame_line(y)[1..21].iter().all(|&b| b == 0xff));
    }
}

#[test]
fn flush_is_skipped_only_for_an_unchanged_frame() {
    let mut display = SharpDisplay::new();
    assert!(display.begin_flush());
    display.draw_pixel(5, 5, true);
    assert!(display.begin_flush());
    assert!(!display.begin_flush());
    display.draw_pixel(5, 5, false);
    display.draw_pixel(5, 5, true);
    assert!(!display.begin_flush());
}

#[test]
fn vcom_alternates_between_commands() {
    let mut bus = SharpBus::new();
    assert_eq!(bus.write_command(), 0x03);
    assert_eq!(bus.invert_vcom_command(), [0x00, 0x00]);
    assert_eq!(bus.toggle_vcom(), 0x02);
    assert_eq!(bus.write_command(), 0x01);
    assert_eq!(clear_command(), [0x04, 0x00]);
    assert_eq!(FRAMEBUFFER_SIZE, 20 * 68);
}

#[test]
fn status_screen_draws_battery() {
    let pixels = status_screen_pixels();
    // outline ring 84 x 40 minus 76 x 32, terminal 10 x 14, charge bar 32 x 20
    assert_eq!(pixels.len(), 84 * 40 - 76 * 32 + 10 * 14 + 32 * 20);
    assert!(pixels.iter().all(|p| p.2));

    let mut display = SharpDisplay::new();
    display.clear(true);
    display.render_status();
    assert!(is_dark(&display, 32, 14));
    assert!(is_dark(&display, 35, 17));
    assert!(!is_dark(&display, 36, 18));
    assert!(is_dark(&display, 115, 53));
    assert!(!is_dark(&display, 116, 53));
    assert!(is_dark(&display, 120, 30));
    assert!(is_dark(&display, 50, 30));
    assert!(!is_dark(&display, 40, 30));
    assert!(!is_dark(&display, 0, 0));
    assert!(!is_dark(&display, 159, 67));
}
