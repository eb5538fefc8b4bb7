use font8x8::UnicodeFonts;
use rpi_mini_os::framebuffer::{Color, FrameBuffer};
use rpi_mini_os::graphics::{
    display_cursor, draw_char, draw_cursor, draw_glyph, draw_string, draw_string_centered,
    erase_char, erase_cursor, set_cursor, cell_fits_check, char_fits_check, glyph_fits_check,
    string_fits_check, try_draw_string_centered, GraphicsConsole,
};

const BG: u32 = 7;

fn fb(width: u32, height: u32) -> Option<FrameBuffer> {
    Some(FrameBuffer { width, height, pitch: width * 4, ptr: 0, pixels: vec![BG; (width * height) as usize] })
}

fn px(fb: &Option<FrameBuffer>, x: u32, y: u32) -> u32 {
    let f = fb.as_ref().unwrap();
    f.pixels[(y * (f.pitch / 4) + x) as usize]
}

fn expected_glyph(fb: &Option<FrameBuffer>, ch: char, x0: u32, y0: u32, v: u32) {
    let glyph = font8x8::BASIC_FONTS.get(ch).unwrap();
    for r in 0..8u32 {
        for c in 0..8u32 {
            let on = glyph[r as usize] & (1 << c) != 0;
            assert_eq!(px(fb, x0 + c, y0 + r), if on { v } else { BG }, "{} at {},{}", ch, c, r);
        }
    }
}

#[test]
fn draws_font_glyph() {
    let mut screen = fb(32, 24);
    let white = Color::new(255, 255, 255);
    draw_char(&mut screen, 8, 8, 'A', &white);
    expected_glyph(&screen, 'A', 8, 8, 0xFFFF_FFFF);
    // 'A' has set pixels: the wrapper hands back a glyph, not nothing
    assert!(screen.as_ref().unwrap().pixels.iter().any(|p| *p == 0xFFFF_FFFF));
    let lit = screen.as_ref().unwrap().pixels.iter().filter(|p| **p != BG).count();
    let expected: u32 = font8x8::BASIC_FONTS.get('A').unwrap().iter().map(|r| r.count_ones()).sum();
    assert_eq!(lit as u32, expected);
}

#[test]
fn space_and_non_basic_chars_draw_nothing() {
    let mut screen = fb(32, 24);
    draw_char(&mut screen, 0, 0, ' ', &Color::new(1, 2, 3));
    draw_char(&mut screen, 8, 0, '\u{e9}', &Color::new(1, 2, 3));
    draw_char(&mut screen, 16, 0, '\r', &Color::new(1, 2, 3));
    assert!(screen.unwrap().pixels.iter().all(|p| *p == BG));
}

#[test]
fn glyph_bits_are_columns_from_the_left() {
    let mut screen = fb(16, 16);
    let glyph = [0b0000_0001, 0b1000_0000, 0, 0, 0, 0, 0, 0];
    draw_glyph(&mut screen, 2, 3, &glyph, &Color::new(0, 0, 1));
    assert_eq!(px(&screen, 2, 3), 0xFF01_0000);
    assert_eq!(px(&screen, 9, 4), 0xFF01_0000);
    assert_eq!(screen.unwrap().pixels.iter().filter(|p| **p != BG).count(), 2);
}

#[test]
fn erase_fills_cell() {
    let mut screen = fb(32, 24);
    erase_char(&mut screen, 4, 5, &Color::new(0, 0, 255));
    for y in 0..24 {
        for x in 0..32 {
            let inside = (4..12).contains(&x) && (5..13).contains(&y);
            assert_eq!(px(&screen, x, y), if inside { 0xFFFF_0000 } else { BG });
        }
    }
}

#[test]
fn cursor_is_bottom_two_rows() {
    let mut screen = fb(32, 24);
    let white = Color::new(255, 255, 255);
    let blue = Color::new(0, 0, 255);
    display_cursor(&mut screen, 8, 0, &white, &blue, true);
    for y in 0..8 {
        for x in 8..16 {
            assert_eq!(px(&screen, x, y), if y >= 6 { 0xFFFF_FFFF } else { BG });
        }
    }
    display_cursor(&mut screen, 8, 0, &white, &blue, false);
    assert_eq!(px(&screen, 8, 6), 0xFFFF_0000);
    assert_eq!(px(&screen, 15, 7), 0xFFFF_0000);
}

#[test]
fn erase_hides_cursor() {
    let gc = GraphicsConsole::init(8, 8, Color::new(255, 255, 255), 8, 16, 8).unwrap();
    let mut a = fb(32, 24);
    draw_cursor(&gc, &mut a);
    erase_cursor(&gc, &mut a);
    let mut b = fb(32, 24);
    erase_cursor(&gc, &mut b);
    assert_eq!(a.unwrap().pixels, b.unwrap().pixels);
}

#[test]
fn console_init_and_set_cursor() {
    let white = Color::new(255, 255, 255);
    let mut gc = GraphicsConsole::init(8, 8, white, 8, 16, 8).unwrap();
    assert_eq!((gc.x, gc.y, gc.x_spacing, gc.y_spacing, gc.x_margin), (8, 8, 8, 16, 8));
    assert_eq!(gc.fg_color, white);
    set_cursor(&mut gc, 100, 200);
    assert_eq!((gc.x, gc.y), (100, 200));
}

#[test]
fn write_str_newlines_and_wrapping() {
    let white = Color::new(255, 255, 255);
    let mut gc = GraphicsConsole::init(8, 8, white, 8, 16, 8).unwrap();
    let mut screen = fb(64, 80);
    gc.write_str(&mut screen, "ab");
    assert_eq!((gc.x, gc.y), (24, 8));
    expected_glyph(&screen, 'a', 8, 8, 0xFFFF_FFFF);
    expected_glyph(&screen, 'b', 16, 8, 0xFFFF_FFFF);
    gc.write_str(&mut screen, "\n");
    assert_eq!((gc.x, gc.y), (8, 24));
    // wrap limit is 64 - 8 = 56: characters at 8..48 fit, the next wraps
    gc.write_str(&mut screen, "012345");
    assert_eq!((gc.x, gc.y), (56, 24));
    gc.write_str(&mut screen, "6");
    assert_eq!((gc.x, gc.y), (16, 40));
    expected_glyph(&screen, '6', 8, 40, 0xFFFF_FFFF);
}

#[test]
fn write_str_without_framebuffer_wraps_at_1024() {
    let mut gc = GraphicsConsole::init(1016, 0, Color::new(1, 1, 1), 8, 16, 8).unwrap();
    let mut none: Option<FrameBuffer> = None;
    gc.write_str(&mut none, "x");
    assert_eq!((gc.x, gc.y), (16, 16));
    gc.write_str(&mut none, "");
    assert_eq!((gc.x, gc.y), (16, 16));
}

#[test]
fn write_in_two_parts_is_write_in_one() {
    let c = Color::new(9, 9, 9);
    let mut gc1 = GraphicsConsole::init(8, 8, c, 8, 16, 8).unwrap();
    let mut gc2 = gc1;
    let mut s1 = fb(64, 80);
    let mut s2 = fb(64, 80);
    gc1.write_str(&mut s1, "hello\nwor");
    gc1.write_str(&mut s1, "ld!");
    gc2.write_str(&mut s2, "hello\nworld!");
    assert_eq!(gc1, gc2);
    assert_eq!(s1.unwrap().pixels, s2.unwrap().pixels);
}

#[test]
fn draw_string_steps_eight_pixels() {
    let mut screen = fb(64, 16);
    draw_string(&mut screen, 4, 2, "Hi", &Color::new(0, 255, 0));
    expected_glyph(&screen, 'H', 4, 2, 0xFF00_FF00);
    expected_glyph(&screen, 'i', 12, 2, 0xFF00_FF00);
}

#[test]
fn centered_string() {
    let mut a = fb(64, 16);
    draw_string_centered(&mut a, 0, "ab", &Color::new(0, 255, 0));
    let mut b = fb(64, 16);
    draw_string(&mut b, 24, 0, "ab", &Color::new(0, 255, 0));
    assert_eq!(a.unwrap().pixels, b.unwrap().pixels);
    // a text wider than the screen starts at column 0
    let mut c = fb(64, 16);
    draw_string_centered(&mut c, 0, "abcdefghijk", &Color::new(0, 255, 0));
    let mut d = fb(64, 16);
    draw_string(&mut d, 0, 0, "abcdefghijk", &Color::new(0, 255, 0));
    assert_eq!(c.unwrap().pixels, d.unwrap().pixels);
}

#[test]
fn position_checks() {
    let c = Color::new(1, 1, 1);
    let gc = GraphicsConsole::init(8, 8, c, 8, 16, 8).unwrap();
    let screen = fb(64, 80);
    let after = gc.position_after(&screen, "012345\n6").unwrap();
    assert_eq!((after.x, after.y), (16, 24));
    assert!(gc.can_write_char(&screen, 'a'));
    let next = gc.advanced(&screen, 'a');
    assert_eq!((next.x, next.y), (16, 8));
    // the advance is wider than the screen: the wrap limit would be negative
    let wide = GraphicsConsole::init(8, 8, c, 100, 16, 8).unwrap();
    assert!(!wide.can_write_char(&screen, 'a'));
    assert!(wide.can_write_char(&screen, '\n'));
    assert!(wide.position_after(&screen, "a").is_none());
    assert!(wide.position_after(&screen, "\n").is_some());
    let bottom = GraphicsConsole::init(8, u32::MAX - 10, c, 8, 16, 8).unwrap();
    assert!(bottom.position_after(&None, "\n").is_none());
    assert!(cell_fits_check(&None, u32::MAX - 7, u32::MAX - 7));
    assert!(!cell_fits_check(&None, u32::MAX - 6, 0));
    assert!(!cell_fits_check(&screen, 0, u32::MAX / 16));
    assert!(cell_fits_check(&screen, 56, 72));
}

#[test]
fn well_formed_geometry() {
    assert!(fb(64, 80).unwrap().is_well_formed());
    let odd = FrameBuffer { width: 20, height: 2, pitch: 64, ptr: 0, pixels: vec![0; 32] };
    assert!(!odd.is_well_formed());
    let short = FrameBuffer { width: 16, height: 2, pitch: 64, ptr: 0, pixels: vec![0; 31] };
    assert!(!short.is_well_formed());
}

#[test]
fn test_println() {
    let mut m = rpi_mini_os::framebuffer::MailboxMessage::framebuffer_request();
    m.buffer[1] = 0x8000_0000;
    let mut screen = Some(FrameBuffer::init(&m).ok().unwrap());
    let mut gc = GraphicsConsole::init(8, 8, Color::new(255, 255, 255), 8, 16, 8).unwrap();
    assert!(gc.position_after(&screen, "Test succesful\n").is_some());
    gc.write_str(&mut screen, "Test succesful");
    gc.write_str(&mut screen, "\n");
    assert_eq!((gc.x, gc.y), (8, 24));
    let f = screen.as_ref().unwrap();
    let glyph = font8x8::BASIC_FONTS.get('T').unwrap();
    for r in 0..8usize {
        for c in 0..8usize {
            let on = glyph[r] & (1 << c) != 0;
            assert_eq!(f.pixels[(8 + r) * 1024 + 8 + c], if on { 0xFFFF_FFFF } else { 0 });
        }
    }
}

#[test]
fn fit_checks_follow_the_glyph() {
    let none: Option<FrameBuffer> = None;
    // a blank glyph draws nothing, so nothing can overflow
    assert!(char_fits_check(&none, u32::MAX, u32::MAX, ' '));
    assert!(char_fits_check(&none, u32::MAX, u32::MAX, '\u{e9}'));
    assert!(!cell_fits_check(&none, u32::MAX, u32::MAX));
    // 'A' has pixels in columns 0..=6 and rows 0..=6
    assert!(!char_fits_check(&none, u32::MAX - 3, 0, 'A'));
    assert!(char_fits_check(&none, u32::MAX - 7, u32::MAX - 7, 'A'));
    let corner = [1u8, 0, 0, 0, 0, 0, 0, 0];
    assert!(glyph_fits_check(&none, u32::MAX, u32::MAX - 7, &corner));
    assert!(!glyph_fits_check(&none, u32::MAX, u32::MAX - 7, &[2u8, 0, 0, 0, 0, 0, 0, 0]));
    let screen = fb(64, 80);
    assert!(glyph_fits_check(&screen, 0, 0, &[0xFF; 8]));
    assert!(string_fits_check(&screen, 0, 0, "hello"));
    // the position after the last character must fit too
    assert!(string_fits_check(&none, u32::MAX - 16, 0, "  "));
    assert!(!string_fits_check(&none, u32::MAX - 15, 0, "  "));
    assert!(string_fits_check(&none, u32::MAX - 16, u32::MAX, "  "));
    assert!(!string_fits_check(&none, u32::MAX - 16, u32::MAX, " A"));
}

#[test]
fn try_centered_string() {
    let mut a = fb(64, 16);
    assert!(try_draw_string_centered(&mut a, 0, "ab", &Color::new(0, 255, 0)));
    let mut b = fb(64, 16);
    draw_string_centered(&mut b, 0, "ab", &Color::new(0, 255, 0));
    assert_eq!(a.unwrap().pixels, b.unwrap().pixels);
    let mut c = fb(64, 16);
    assert!(!try_draw_string_centered(&mut c, u32::MAX - 2, "ab", &Color::new(0, 255, 0)));
    assert!(c.unwrap().pixels.iter().all(|p| *p == BG));
}

#[test]
fn erase_after_char_is_erase_alone() {
    let blue = Color::new(0, 0, 255);
    let mut a = fb(32, 24);
    draw_char(&mut a, 8, 8, 'W', &Color::new(200, 100, 50));
    erase_char(&mut a, 8, 8, &blue);
    let mut b = fb(32, 24);
    erase_char(&mut b, 8, 8, &blue);
    assert_eq!(a.unwrap().pixels, b.unwrap().pixels);
    let mut c = fb(32, 24);
    display_cursor(&mut c, 3, 4, &Color::new(1, 2, 3), &Color::new(4, 5, 6), false);
    erase_char(&mut c, 3, 4, &blue);
    let mut d = fb(32, 24);
    erase_char(&mut d, 3, 4, &blue);
    assert_eq!(c.unwrap().pixels, d.unwrap().pixels);
}

#[test]
fn draw_string_in_two_parts() {
    let green = Color::new(0, 255, 0);
    let mut a = fb(64, 16);
    draw_string(&mut a, 4, 2, "abc", &green);
    draw_string(&mut a, 4 + 3 * 8, 2, "de", &green);
    let mut b = fb(64, 16);
    draw_string(&mut b, 4, 2, "abcde", &green);
    assert_eq!(a.unwrap().pixels, b.unwrap().pixels);
}
