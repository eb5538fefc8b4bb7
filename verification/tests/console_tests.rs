use rpi_mini_os::console::{is_clear_line, str_equals, Console, LineBuffer, MAX_LINE_LEN};
use rpi_mini_os::framebuffer::{Color, FrameBuffer, MailboxMessage};
use rpi_mini_os::graphics::{draw_cursor, GraphicsConsole};

fn screen() -> (GraphicsConsole, Option<FrameBuffer>) {
    let mut m = MailboxMessage::framebuffer_request();
    m.buffer[1] = 0x8000_0000;
    let fb = FrameBuffer::init(&m).ok().unwrap();
    let gc = GraphicsConsole::init(8, 8, Color::new(255, 255, 255), 8, 16, 8).unwrap();
    (gc, Some(fb))
}

#[test]
fn line_buffer_push_pop_clear() {
    let mut b = LineBuffer::new();
    assert_eq!(b.as_str().ok(), Some(""));
    for byte in b"hello" {
        assert!(b.push(*byte).is_ok());
    }
    assert_eq!(b.as_str().ok(), Some("hello"));
    b.pop();
    assert_eq!(b.as_str().ok(), Some("hell"));
    b.clear();
    assert_eq!(b.as_str().ok(), Some(""));
    b.pop();
    assert_eq!(b.as_str().ok(), Some(""));
}

#[test]
fn line_buffer_is_bounded() {
    let mut b = LineBuffer::new();
    for _ in 0..MAX_LINE_LEN {
        assert!(b.push(b'a').is_ok());
    }
    assert_eq!(b.push(b'b'), Err("Buffer is Full"));
    assert_eq!(b.as_str().ok().map(|s| s.len()), Some(126));
    b.pop();
    assert!(b.push(b'b').is_ok());
    assert!(b.as_str().ok().unwrap().ends_with('b'));
}

#[test]
fn line_buffer_utf8() {
    let mut b = LineBuffer::new();
    b.push(0xC3).unwrap();
    assert!(b.as_str().is_err());
    b.push(0xA9).unwrap();
    assert_eq!(b.as_str().ok(), Some("\u{e9}"));
    b.push(0xFF).unwrap();
    assert!(b.as_str().is_err());
}

#[test]
fn string_equality() {
    assert!(str_equals("clear", "clear"));
    assert!(!str_equals("clear", "cls"));
    assert!(!str_equals("clear", "clea"));
    assert!(str_equals("", ""));
}

#[test]
fn typing_echoes_and_backspace_erases() {
    let (mut gc, mut fb) = screen();
    let mut console = Console::new();
    assert_eq!(console.receive_input(&mut gc, &mut fb, b'a'), None);
    assert_eq!((gc.x, gc.y), (16, 8));
    assert_eq!(console.receive_input(&mut gc, &mut fb, b'b'), None);
    assert_eq!((gc.x, gc.y), (24, 8));
    assert_eq!(console.receive_input(&mut gc, &mut fb, 127), None);
    assert_eq!((gc.x, gc.y), (16, 8));
    assert_eq!(console.receive_input(&mut gc, &mut fb, 8), None);
    assert_eq!((gc.x, gc.y), (8, 8));
    // nothing left to erase: nothing moves
    assert_eq!(console.receive_input(&mut gc, &mut fb, 8), None);
    assert_eq!((gc.x, gc.y), (8, 8));
    // the cells are blank again, and the cursor is drawn at (8, 8)
    let f = fb.as_ref().unwrap();
    for x in 8..24 {
        for y in 8..14 {
            assert_eq!(f.pixels[y * 1024 + x], 0xFFFF_0000);
        }
    }
    assert_eq!(f.pixels[14 * 1024 + 8], 0xFFFF_FFFF);
}

#[test]
fn arrow_keys_leave_notes() {
    let (mut gc, mut fb) = screen();
    let mut console = Console::new();
    let before = fb.as_ref().unwrap().pixels.clone();
    assert_eq!(console.receive_input(&mut gc, &mut fb, 37), Some("Flecha izq"));
    assert_eq!(console.receive_input(&mut gc, &mut fb, 39), Some("Flecha der"));
    assert_eq!((gc.x, gc.y), (8, 8));
    assert_eq!(fb.unwrap().pixels, before);
}

#[test]
fn enter_runs_clear() {
    let (mut gc, mut fb) = screen();
    let mut console = Console::new();
    for byte in b"  clear " {
        console.receive_input(&mut gc, &mut fb, *byte);
    }
    assert_eq!(console.receive_input(&mut gc, &mut fb, b'\r'), None);
    // cleared to blue, cursor back at (8, 8), then the prompt "input>"
    assert_eq!((gc.x, gc.y), (8 + 6 * 8, 8));
    let f = fb.as_ref().unwrap();
    assert_eq!(f.pixels[700 * 1024 + 900], 0xFFFF_0000);
    assert_eq!(f.pixels[0], 0xFFFF_0000);
    // the cursor is drawn after the prompt
    assert_eq!(f.pixels[(8 + 7) * 1024 + 56], 0xFFFF_FFFF);
}

#[test]
fn enter_runs_cls_and_other_lines_do_nothing() {
    let (mut gc, mut fb) = screen();
    let mut console = Console::new();
    for byte in b"cls\n" {
        console.receive_input(&mut gc, &mut fb, *byte);
    }
    assert_eq!((gc.x, gc.y), (56, 8));
    for byte in b"ls\n" {
        console.receive_input(&mut gc, &mut fb, *byte);
    }
    // "ls" echoed after the prompt, then a new line with the prompt
    assert_eq!((gc.x, gc.y), (56, 24));
    // the line was not a clear: "ls" stays on the screen
    let f = fb.as_ref().unwrap();
    assert!((8..16).any(|y| (56..72).any(|x| f.pixels[y * 1024 + x] == 0xFFFF_FFFF)));
}

#[test]
fn console_new_prompt() {
    let (mut gc, mut fb) = screen();
    let mut console = Console::new();
    console.receive_input(&mut gc, &mut fb, b'\n');
    assert_eq!((gc.x, gc.y), (8 + 6 * 8, 24));
    let mut gc2 = GraphicsConsole::init(8, 24, Color::new(255, 255, 255), 8, 16, 8).unwrap();
    let mut fb2 = screen().1;
    gc2.write_str(&mut fb2, "input>");
    draw_cursor(&gc2, &mut fb2);
    assert_eq!(gc, gc2);
}

#[test]
fn full_line_ignores_more_input() {
    let (mut gc, mut fb) = screen();
    let mut console = Console::new();
    for _ in 0..MAX_LINE_LEN {
        console.receive_input(&mut gc, &mut fb, b'x');
    }
    let at = (gc.x, gc.y);
    console.receive_input(&mut gc, &mut fb, b'y');
    assert_eq!((gc.x, gc.y), at);
}

#[test]
fn clear_lines() {
    assert!(is_clear_line("clear"));
    assert!(is_clear_line("  cls\r"));
    assert!(is_clear_line("\tclear\n"));
    assert!(is_clear_line("clear\u{3000}"));
    assert!(!is_clear_line("clear screen"));
    assert!(!is_clear_line("CLS"));
    assert!(!is_clear_line(""));
}

#[test]
fn input_checks() {
    let (gc, fb) = screen();
    let mut console = Console::new();
    assert!(console.input_fits(&gc, &fb, b'a'));
    assert!(console.input_fits(&gc, &fb, b'\n'));
    assert!(console.input_fits(&gc, &fb, 8));
    assert!(console.input_fits(&gc, &fb, 37));
    // a line that is not UTF-8 cannot be ended
    let mut gc2 = gc;
    let mut fb2 = fb;
    assert!(console.input_fits(&gc2, &fb2, 0xFF));
    console.receive_input(&mut gc2, &mut fb2, 0xFF);
    assert!(!console.input_fits(&gc2, &fb2, b'\r'));
    assert!(console.input_fits(&gc2, &fb2, 127));
    // far down the screen the position no longer fits in 32 bits
    let low = GraphicsConsole::init(8, u32::MAX - 20, Color::new(1, 1, 1), 8, 16, 8).unwrap();
    let none: Option<FrameBuffer> = None;
    let fresh = Console::new();
    assert!(!fresh.input_fits(&low, &none, b'\n'));
    assert!(fresh.input_fits(&low, &none, b'a'));
}

#[test]
fn try_receive_input_checks_first() {
    let (mut gc, mut fb) = screen();
    let mut console = Console::new();
    assert_eq!(console.try_receive_input(&mut gc, &mut fb, b'a'), Some(None));
    assert_eq!(console.try_receive_input(&mut gc, &mut fb, 37), Some(Some("Flecha izq")));
    assert_eq!(console.try_receive_input(&mut gc, &mut fb, 0xC3), Some(None));
    let at = (gc.x, gc.y);
    let pixels = fb.as_ref().unwrap().pixels.clone();
    assert_eq!(console.try_receive_input(&mut gc, &mut fb, b'\r'), None);
    assert_eq!((gc.x, gc.y), at);
    assert_eq!(fb.as_ref().unwrap().pixels, pixels);
    assert_eq!(console.try_receive_input(&mut gc, &mut fb, 8), Some(None));
    assert_eq!(console.try_receive_input(&mut gc, &mut fb, b'\r'), Some(None));
}
