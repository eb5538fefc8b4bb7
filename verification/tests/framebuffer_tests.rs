use rpi_mini_os::framebuffer::{
    draw_pixel, fill_screen, Color, FrameBuffer, LineBuffer, MailboxMessage, PROPERTY_CHANNEL,
};

fn small_fb() -> FrameBuffer {
    FrameBuffer { width: 16, height: 12, pitch: 64, ptr: 0, pixels: vec![7; 16 * 12] }
}

#[test]
fn color_words() {
    assert_eq!(Color::new(0, 0, 255).to_u32(), 0xFFFF_0000);
    assert_eq!(Color::new(255, 255, 255).to_u32(), 0xFFFF_FFFF);
    assert_eq!(Color::new(1, 2, 3).to_u32(), 0xFF03_0201);
    assert_eq!(Color::default(), Color::new(0, 0, 0));
    assert_eq!(Color::default().to_u32(), 0xFF00_0000);
}

#[test]
fn color_words_are_distinct() {
    let a = Color::new(10, 20, 30).to_u32();
    let b = Color::new(30, 20, 10).to_u32();
    assert_ne!(a, b);
    assert_eq!((a >> 16) & 0xFF, 30);
    assert_eq!((a >> 8) & 0xFF, 20);
    assert_eq!(a & 0xFF, 10);
}

#[test]
fn request_message() {
    let m = MailboxMessage::framebuffer_request();
    let head = [144u32, 0, 0x48003, 8, 8, 1024, 768, 0x48005, 4, 4, 32, 0x40001, 8, 8, 16, 0, 0];
    assert_eq!(&m.buffer[..17], &head[..]);
    assert!(m.buffer[17..].iter().all(|w| *w == 0));
}

#[test]
fn init_success_and_failure() {
    let mut m = MailboxMessage::framebuffer_request();
    assert_eq!(FrameBuffer::init(&m).err(), Some("GPU Error."));
    m.buffer[1] = 0x8000_0000;
    m.buffer[14] = 0xC012_3450;
    let fb = FrameBuffer::init(&m).ok().unwrap();
    assert_eq!((fb.width, fb.height, fb.pitch, fb.ptr), (1024, 768, 4096, 0x0012_3450));
    assert_eq!(fb.pixels.len(), 1024 * 768);
    assert!(fb.pixels.iter().all(|p| *p == 0));
    m.buffer[1] = 0x8000_0001;
    assert!(FrameBuffer::init(&m).is_err());
}

#[test]
fn mailbox_words() {
    assert_eq!(FrameBuffer::mailbox_message(PROPERTY_CHANNEL, 0x1234_5670), 0x1234_5678);
    assert_eq!(FrameBuffer::mailbox_message(8, 0x1234_567F), 0x1234_5678);
    assert_eq!(FrameBuffer::mailbox_message(0x18, 0x100), 0x108);
    assert_eq!(FrameBuffer::mailbox_reply(8, 0x1234_5678), Some(0x1234_5670));
    assert_eq!(FrameBuffer::mailbox_reply(9, 0x1234_5678), None);
    let w = FrameBuffer::mailbox_message(8, 0xABCD_EF00);
    assert_eq!(FrameBuffer::mailbox_reply(8, w), Some(0xABCD_EF00));
    assert!(FrameBuffer::mailbox_can_write(0x7FFF_FFFF));
    assert!(!FrameBuffer::mailbox_can_write(0x8000_0000));
    assert!(FrameBuffer::mailbox_has_mail(0x8000_0000));
    assert!(!FrameBuffer::mailbox_has_mail(0x4000_0000));
    assert!(!FrameBuffer::mailbox_has_mail(0xC000_0000));
}

#[test]
fn pixel_reads_back() {
    let mut fb = Some(small_fb());
    let red = Color::new(255, 0, 0);
    draw_pixel(&mut fb, 3, 2, &red);
    let f = fb.as_ref().unwrap();
    assert_eq!(f.pixels[2 * 16 + 3], 0xFF00_00FF);
    assert_eq!(f.pixels.iter().filter(|p| **p == 7).count(), 16 * 12 - 1);
}

#[test]
fn pixel_outside_memory_is_dropped() {
    let mut fb = Some(small_fb());
    draw_pixel(&mut fb, 0, 12, &Color::new(1, 1, 1));
    draw_pixel(&mut fb, 1000, 1000, &Color::new(1, 1, 1));
    assert!(fb.unwrap().pixels.iter().all(|p| *p == 7));
    let mut none: Option<FrameBuffer> = None;
    draw_pixel(&mut none, 1, 1, &Color::new(1, 1, 1));
    assert!(none.is_none());
}

#[test]
fn fill_paints_visible_columns() {
    let mut fb = Some(FrameBuffer { width: 10, height: 4, pitch: 48, ptr: 0, pixels: vec![7; 12 * 4] });
    fill_screen(&mut fb, &Color::new(0, 0, 255));
    let f = fb.as_ref().unwrap();
    for y in 0..4 {
        for x in 0..12 {
            let expected = if x < 10 { 0xFFFF_0000 } else { 7 };
            assert_eq!(f.pixels[y * 12 + x], expected);
        }
    }
    let before = f.pixels.clone();
    fill_screen(&mut fb, &Color::new(0, 0, 255));
    assert_eq!(fb.unwrap().pixels, before);
}

#[test]
fn line_buffer_reexported() {
    let mut b = LineBuffer::new();
    assert!(b.push(b'x').is_ok());
    assert_eq!(b.as_str().ok(), Some("x"));
}
