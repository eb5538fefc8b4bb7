//! Colours, the GPU mailbox protocol and the pixel memory of the framebuffer.
use vstd::prelude::*;

/// The line buffer of the console, also offered here.
pub use crate::console::LineBuffer;

verus! {

/// An RGB colour, eight bits per channel.
#[derive(Clone, Copy, Debug, PartialEq, Eq, Structural)]
pub struct Color {
    pub r: u8,
    pub g: u8,
    pub b: u8,
}

impl Color {
    /// The 32-bit pixel word of this colour: opaque alpha in the top byte,
    /// then blue, green and red, red in the lowest byte.
    pub open spec fn argb(self) -> u32 {
        (0xFF00_0000 + self.b as int * 0x1_0000 + self.g as int * 0x100 + self.r as int) as u32
    }

    pub fn new(r: u8, g: u8, b: u8) -> (c: Color)
        ensures
            c == (Color { r, g, b }),
    {
        Color { r, g, b }
    }

    pub fn to_u32(&self) -> (v: u32)
        ensures
            v == self.argb(),
            v == 0xFF00_0000 + self.b as int * 0x1_0000 + self.g as int * 0x100 + self.r as int,
    {
        let r = self.r;
        let g = self.g;
        let b = self.b;
        let v = 0xFF00_0000u32 | (b as u32) << 16 | (g as u32) << 8 | (r as u32);
        assert(v == 0xFF00_0000 + b as int * 0x1_0000 + g as int * 0x100 + r as int) by (bit_vector)
            requires
                v == 0xFF00_0000u32 | (b as u32) << 16 | (g as u32) << 8 | (r as u32),
        ;
        v
    }
}

impl Default for Color {
    fn default() -> (c: Color)
        ensures
            c == (Color { r: 0, g: 0, b: 0 }),
    {
        Color { r: 0, g: 0, b: 0 }
    }
}


/// Bit 31 of the mailbox status register: no room to write.
pub const MAIL_FULL: u32 = 0x8000_0000;

/// Bit 30 of the mailbox status register: nothing to read.
pub const MAIL_EMPTY: u32 = 0x4000_0000;

/// The mailbox channel of the property interface the GPU answers on.
pub const PROPERTY_CHANNEL: u8 = 8;

/// The code the GPU leaves in word 1 of a message it has answered in full.
pub const RESPONSE_SUCCESS: u32 = 0x8000_0000;

/// The screen size and colour depth that the kernel asks the GPU for.
pub const SCREEN_WIDTH: u32 = 1024;
pub const SCREEN_HEIGHT: u32 = 768;
pub const SCREEN_DEPTH: u32 = 32;

/// A property-interface message: 36 words exchanged with the GPU.
pub struct MailboxMessage {
    pub buffer: [u32; 36],
}

/// The words of the request for a 1024x768, 32-bit framebuffer: the size of
/// the message, the request code, then the tags "set physical display",
/// "set depth" and "allocate buffer" (16-byte alignment), the end tag, and
/// zeros.
pub open spec fn framebuffer_request_words() -> Seq<u32> {
    seq![
        144u32, 0, 0x48003, 8, 8, 1024, 768, 0x48005, 4, 4, 32, 0x40001, 8, 8, 16, 0, 0,
    ] + Seq::new(19, |i: int| 0u32)
}

impl MailboxMessage {
    /// The request that asks the GPU for the framebuffer.
    pub fn framebuffer_request() -> (m: MailboxMessage)
        ensures
            m.buffer@ == framebuffer_request_words(),
    {
        let mut buffer = [0u32; 36];
        buffer[0] = 36 * 4;
        buffer[1] = 0;
        buffer[2] = 0x48003;
        buffer[3] = 8;
        buffer[4] = 8;
        buffer[5] = SCREEN_WIDTH;
        buffer[6] = SCREEN_HEIGHT;
        buffer[7] = 0x48005;
        buffer[8] = 4;
        buffer[9] = 4;
        buffer[10] = SCREEN_DEPTH;
        buffer[11] = 0x40001;
        buffer[12] = 8;
        buffer[13] = 8;
        buffer[14] = 16;
        buffer[15] = 0;
        buffer[16] = 0;
        assert(buffer@ =~= framebuffer_request_words());
        MailboxMessage { buffer }
    }
}

/// The mailbox word that sends `data` on `channel`: the data with its low
/// four bits replaced by the channel's.
pub open spec fn mailbox_word(channel: u8, data: u32) -> u32 {
    (data - data % 16 + channel % 16) as u32
}

/// The data carried by mailbox word `mail` if it answers on `channel`.
pub open spec fn mailbox_payload(channel: u8, mail: u32) -> Option<u32> {
    if mail % 16 == channel {
        Some((mail - mail % 16) as u32)
    } else {
        None
    }
}

/// A word sent on a channel below 16 is recognised as an answer on that
/// channel and gives back the data, aligned down to 16 bytes; it is not an
/// answer on any other channel.
pub proof fn lemma_mailbox_round_trip(channel: u8, other: u8, data: u32)
    requires
        channel < 16,
        other != channel,
    ensures
        mailbox_payload(channel, mailbox_word(channel, data)) == Some((data - data % 16) as u32),
        mailbox_payload(other, mailbox_word(channel, data)) is None,
{
    let w = data - data % 16 + channel % 16;
    assert(w % 16 == channel) by (nonlinear_arith)
        requires
            w == data - data % 16 + channel % 16,
            channel < 16,
            data >= 0,
    ;
    assert(w - w % 16 == data - data % 16);
}

/// The colour words of two colours are equal only if the colours are: the
/// word keeps each channel in a byte of its own, under an opaque alpha.
pub proof fn lemma_argb_channels(c: Color, d: Color)
    ensures
        c.argb() / 0x100_0000 == 0xFF,
        c.argb() / 0x1_0000 % 0x100 == c.b,
        c.argb() / 0x100 % 0x100 == c.g,
        c.argb() % 0x100 == c.r,
        c.argb() == d.argb() ==> c == d,
{
    let (r, g, b) = (c.r as int, c.g as int, c.b as int);
    let w = 0xFF00_0000 + b * 0x1_0000 + g * 0x100 + r;
    assert(w / 0x100_0000 == 0xFF && w / 0x1_0000 % 0x100 == b && w / 0x100 % 0x100 == g && w
        % 0x100 == r) by (nonlinear_arith)
        requires
            w == 0xFF00_0000 + b * 0x1_0000 + g * 0x100 + r,
            0 <= r < 256,
            0 <= g < 256,
            0 <= b < 256,
    ;
    let (r2, g2, b2) = (d.r as int, d.g as int, d.b as int);
    let w2 = 0xFF00_0000 + b2 * 0x1_0000 + g2 * 0x100 + r2;
    assert(w2 / 0x1_0000 % 0x100 == b2 && w2 / 0x100 % 0x100 == g2 && w2 % 0x100 == r2) by (
    nonlinear_arith)
        requires
            w2 == 0xFF00_0000 + b2 * 0x1_0000 + g2 * 0x100 + r2,
            0 <= r2 < 256,
            0 <= g2 < 256,
            0 <= b2 < 256,
    ;
}

/// What the pixel memory of a framebuffer holds, with its geometry.
#[verifier::ext_equal]
pub struct FrameBufferView {
    pub width: u32,
    pub height: u32,
    pub pitch: u32,
    pub ptr: u32,
    pub pixels: Seq<u32>,
}

/// The row of pixel index `o` in rows of `stride` words.
pub open spec fn row_of(stride: int, o: int) -> int {
    o / stride
}

/// The index of pixel `(x, y)` in a pixel memory of rows of `stride` words.
pub open spec fn pixel_index(stride: int, x: int, y: int) -> int {
    y * stride + x
}

impl FrameBufferView {
    /// The number of 32-bit pixels from one row to the next.
    pub open spec fn stride(self) -> int {
        self.pitch as int / 4
    }

    /// The rows are at least as wide as the visible width, the memory holds
    /// exactly `height` rows, and every index fits in 32 bits.
    pub open spec fn wf(self) -> bool {
        &&& self.width as int <= self.stride()
        &&& self.pixels.len() == self.height as int * self.stride()
        &&& self.pixels.len() <= 0x1_0000_0000
    }

    pub open spec fn offset(self, x: int, y: int) -> int {
        pixel_index(self.stride(), x, y)
    }

    pub open spec fn with_pixels(self, pixels: Seq<u32>) -> FrameBufferView {
        FrameBufferView {
            width: self.width,
            height: self.height,
            pitch: self.pitch,
            ptr: self.ptr,
            pixels,
        }
    }

    /// Pixel `(x, y)` set to `v`; a write that falls outside the pixel
    /// memory leaves it unchanged.
    pub open spec fn put(self, x: int, y: int, v: u32) -> FrameBufferView {
        let o = self.offset(x, y);
        if 0 <= o < self.pixels.len() {
            self.with_pixels(self.pixels.update(o, v))
        } else {
            self
        }
    }

    /// Every visible pixel (column below `width` in every row) set to `v`.
    pub open spec fn filled(self, v: u32) -> FrameBufferView {
        self.with_pixels(
            Seq::new(
                self.pixels.len(),
                |o: int|
                    if o % self.stride() < self.width {
                        v
                    } else {
                        self.pixels[o]
                    },
            ),
        )
    }
}

/// The optional framebuffer, as the kernel keeps it, seen through its view.
pub open spec fn screen(fb: Option<FrameBuffer>) -> Option<FrameBufferView> {
    match fb {
        Some(f) => Some(f@),
        None => None,
    }
}

pub open spec fn screen_wf(s: Option<FrameBufferView>) -> bool {
    s matches Some(f) ==> f.wf()
}

pub open spec fn screen_put(s: Option<FrameBufferView>, x: int, y: int, v: u32) -> Option<
    FrameBufferView,
> {
    match s {
        Some(f) => Some(f.put(x, y, v)),
        None => None,
    }
}

pub open spec fn screen_filled(s: Option<FrameBufferView>, v: u32) -> Option<FrameBufferView> {
    match s {
        Some(f) => Some(f.filled(v)),
        None => None,
    }
}

/// A framebuffer that the GPU handed out: its geometry, the bus address of
/// its memory, and the contents of that memory.
pub struct FrameBuffer {
    pub width: u32,
    pub height: u32,
    pub pitch: u32,
    pub ptr: u32,
    pub pixels: Vec<u32>,
}

impl View for FrameBuffer {
    type V = FrameBufferView;

    open spec fn view(&self) -> FrameBufferView {
        FrameBufferView {
            width: self.width,
            height: self.height,
            pitch: self.pitch,
            ptr: self.ptr,
            pixels: self.pixels@,
        }
    }
}

/// Pixel `(x, y)` with `x` inside a row of `stride` words lies in row `y`,
/// column `x` of the memory.
pub proof fn lemma_row_major(stride: int, x: int, y: int)
    requires
        stride > 0,
        0 <= x < stride,
    ensures
        pixel_index(stride, x, y) / stride == y,
        pixel_index(stride, x, y) % stride == x,
{
    vstd::arithmetic::div_mod::lemma_fundamental_div_mod_converse(
        pixel_index(stride, x, y),
        stride,
        y,
        x,
    );
}

proof fn lemma_row_major_unique(stride: int, x: int, y: int)
    requires
        stride > 0,
        0 <= x < stride,
    ensures
        forall|o: int|
            #![trigger row_of(stride, o)]
            (row_of(stride, o) == y && o % stride == x) ==> o == pixel_index(stride, x, y),
{
    assert forall|o: int| (#[trigger] row_of(stride, o) == y && o % stride == x) implies o
        == pixel_index(stride, x, y) by {
        vstd::arithmetic::div_mod::lemma_fundamental_div_mod(o, stride);
        assert(o == pixel_index(stride, x, y)) by (nonlinear_arith)
            requires
                o == stride * (o / stride) + o % stride,
                o / stride == y,
                o % stride == x,
        ;
    }
}

proof fn lemma_row_major_bound(stride: int, height: int, x: int, y: int)
    requires
        0 <= x < stride,
        0 <= y < height,
    ensures
        0 <= pixel_index(stride, x, y) < height * stride,
{
    assert(0 <= y * stride + x < height * stride) by (nonlinear_arith)
        requires
            0 <= x < stride,
            0 <= y < height,
    ;
}

impl FrameBuffer {
    /// The framebuffer described by the GPU's answer to
    /// `MailboxMessage::framebuffer_request`: on success, a 1024x768 screen
    /// of 4096-byte rows whose memory starts at the bus address in word 14
    /// (upper two bits cleared), with cleared pixels.
    pub fn init(response: &MailboxMessage) -> (r: Result<FrameBuffer, &'static str>)
        ensures
            r is Ok <==> response.buffer@[1] == RESPONSE_SUCCESS,
            r matches Ok(f) ==> {
                &&& f.width == SCREEN_WIDTH
                &&& f.height == SCREEN_HEIGHT
                &&& f.pitch == 4096
                &&& f.ptr == response.buffer@[14] % 0x4000_0000
                &&& f@.pixels == Seq::new(1024 * 768, |i: int| 0u32)
                &&& f@.wf()
            },
            r matches Err(e) ==> e@ == "GPU Error."@,
    {
        if response.buffer[1] == RESPONSE_SUCCESS {
            let word = response.buffer[14];
            let pointer_fb = word & 0x3FFF_FFFF;
            assert(word & 0x3FFF_FFFF == word % 0x4000_0000) by (bit_vector);
            let pitch_fb: u32 = SCREEN_WIDTH * 4;
            let count: usize = 1024 * 768;
            let mut pixels: Vec<u32> = Vec::with_capacity(count);
            let mut i: usize = 0;
            while i < count
                invariant
                    i <= count,
                    count == 1024 * 768,
                    pixels@ == Seq::new(i as nat, |j: int| 0u32),
                decreases count - i,
            {
                pixels.push(0);
                i += 1;
                assert(pixels@ =~= Seq::new(i as nat, |j: int| 0u32));
            }
            let f = FrameBuffer {
                width: SCREEN_WIDTH,
                height: SCREEN_HEIGHT,
                pitch: pitch_fb,
                ptr: pointer_fb,
                pixels,
            };
            Ok(f)
        } else {
            Err("GPU Error.")
        }
    }

    /// The word written to the mailbox to send `data` (a 16-byte aligned
    /// address) on `channel`: the low four bits carry the channel.
    pub fn mailbox_message(channel: u8, data: u32) -> (w: u32)
        ensures
            w == mailbox_word(channel, data),
    {
        let w = (data & !0xFu32) | (channel as u32 & 0xF);
        assert(w == data - data % 16 + channel % 16) by (bit_vector)
            requires
                w == (data & !0xFu32) | (channel as u32 & 0xF),
        ;
        w
    }

    /// Whether a word read from the mailbox answers on `channel`, and if so
    /// the data it carries (the word with its channel bits cleared).
    pub fn mailbox_reply(channel: u8, mail: u32) -> (r: Option<u32>)
        ensures
            r == mailbox_payload(channel, mail),
    {
        assert(mail & 0xF == mail % 16) by (bit_vector);
        assert(mail & !0xFu32 == mail - mail % 16) by (bit_vector);
        if (mail & 0xF) == channel as u32 {
            Some(mail & !0xF)
        } else {
            None
        }
    }

    /// Whether the status word says there is room to write a message.
    pub fn mailbox_can_write(status: u32) -> (b: bool)
        ensures
            b == (status < 0x8000_0000),
    {
        assert((status & MAIL_FULL == 0) == (status < 0x8000_0000)) by (bit_vector);
        (status & MAIL_FULL) == 0
    }

    /// Whether the status word says there is a message to read.
    pub fn mailbox_has_mail(status: u32) -> (b: bool)
        ensures
            b == (status / 0x4000_0000 % 2 == 0),
    {
        assert((status & MAIL_EMPTY == 0) == (status / 0x4000_0000 % 2 == 0)) by (bit_vector);
        (status & MAIL_EMPTY) == 0
    }

    /// Whether the geometry of this framebuffer is well formed.
    pub fn is_well_formed(&self) -> (r: bool)
        ensures
            r == self@.wf(),
    {
        let stride = (self.pitch / 4) as u64;
        let height = self.height as u64;
        assert(height * stride <= 0x1_0000_0000 * 0x4000_0000) by (nonlinear_arith)
            requires
                height <= u32::MAX,
                stride <= 0x4000_0000,
        ;
        let rows = height * stride;
        self.width as u64 <= stride && self.pixels.len() as u64 == rows && rows <= 0x1_0000_0000
    }

    /// Writes the pixel word `v` at `(x, y)`; a pixel outside the memory is
    /// dropped.
    pub fn write_pixel(&mut self, x: u32, y: u32, v: u32)
        requires
            old(self)@.offset(x as int, y as int) <= u32::MAX,
        ensures
            final(self)@ == old(self)@.put(x as int, y as int, v),
    {
        let offset = (y * (self.pitch / 4) + x) as usize;
        if offset < self.pixels.len() {
            self.pixels.set(offset, v);
        }
    }

    /// Sets every visible pixel to `v`, row by row.
    pub fn fill(&mut self, v: u32)
        requires
            old(self)@.wf(),
        ensures
            final(self)@ == old(self)@.filled(v),
    {
        let ghost old_view = self@;
        let ghost stride = old_view.stride();
        let ghost target = old_view.filled(v);
        let mut y: u32 = 0;
        while y < self.height
            invariant
                old_view.wf(),
                stride == old_view.stride(),
                target == old_view.filled(v),
                y <= self.height,
                self@ == old_view.with_pixels(self@.pixels),
                self@.pixels.len() == old_view.pixels.len(),
                forall|o: int|
                    0 <= o < old_view.pixels.len() ==> #[trigger] self@.pixels[o] == if row_of(stride, o) < y {
                        target.pixels[o]
                    } else {
                        old_view.pixels[o]
                    },
            decreases self.height - y,
        {
            let mut x: u32 = 0;
            while x < self.width
                invariant
                    old_view.wf(),
                    stride == old_view.stride(),
                    target == old_view.filled(v),
                    y < self.height,
                    x <= self.width,
                    self@ == old_view.with_pixels(self@.pixels),
                    self@.pixels.len() == old_view.pixels.len(),
                    forall|o: int|
                        0 <= o < old_view.pixels.len() ==> #[trigger] self@.pixels[o] == if row_of(stride, o) < y || (
                            row_of(stride, o) == y && o % stride < x) {
                            target.pixels[o]
                        } else {
                            old_view.pixels[o]
                        },
                decreases self.width - x,
            {
                proof {
                    lemma_row_major_bound(stride, self.height as int, x as int, y as int);
                    lemma_row_major(stride, x as int, y as int);
                    lemma_row_major_unique(stride, x as int, y as int);
                }
                self.write_pixel(x, y, v);
                x += 1;
            }
            proof {
                assert forall|o: int|
                    0 <= o < old_view.pixels.len() && row_of(stride, o) == y && o % stride
                        >= self.width implies #[trigger] target.pixels[o] == old_view.pixels[o] by {}
            }
            y += 1;
        }
        proof {
            assert forall|o: int| 0 <= o < old_view.pixels.len() implies #[trigger] row_of(stride, o) < y by {
                vstd::arithmetic::div_mod::lemma_fundamental_div_mod(o, stride);
                vstd::arithmetic::div_mod::lemma_mod_pos_bound(o, stride);
                assert(o / stride < self.height) by (nonlinear_arith)
                    requires
                        o == stride * (o / stride) + o % stride,
                        0 <= o % stride,
                        0 <= o < self.height as int * stride,
                        stride > 0,
                ;
            }
            assert(self@.pixels =~= target.pixels);
        }
    }
}

/// A pixel written inside the pixel memory reads back; every other pixel,
/// and the geometry, are unchanged.
pub proof fn lemma_put_reads_back(f: FrameBufferView, x: int, y: int, v: u32, o: int)
    requires
        0 <= o < f.pixels.len(),
    ensures
        f.put(x, y, v).pixels.len() == f.pixels.len(),
        f.put(x, y, v) == f.with_pixels(f.put(x, y, v).pixels),
        f.put(x, y, v).pixels[o] == if o == f.offset(x, y) {
            v
        } else {
            f.pixels[o]
        },
{
}

/// After filling a well-formed framebuffer with `v`, pixel `(x, y)` of the
/// screen holds `v` if it is visible (`x < width`) and what it held before
/// otherwise; filling twice with the same word is filling once.
pub proof fn lemma_fill_screen(f: FrameBufferView, v: u32, x: int, y: int)
    requires
        f.wf(),
        0 <= x < f.stride(),
        0 <= y < f.height,
    ensures
        f.filled(v).pixels[f.offset(x, y)] == if x < f.width {
            v
        } else {
            f.pixels[f.offset(x, y)]
        },
        f.filled(v).filled(v) == f.filled(v),
{
    lemma_row_major(f.stride(), x, y);
    lemma_row_major_bound(f.stride(), f.height as int, x, y);
    assert(f.filled(v).filled(v).pixels =~= f.filled(v).pixels);
}

/// Writes `color` at pixel `(x, y)` of the framebuffer, if there is one.
pub fn draw_pixel(fb: &mut Option<FrameBuffer>, x: u32, y: u32, color: &Color)
    requires
        screen(*old(fb)) matches Some(f) ==> f.offset(x as int, y as int) <= u32::MAX,
    ensures
        screen(*final(fb)) == screen_put(screen(*old(fb)), x as int, y as int, color.argb()),
{
    match fb {
        Some(f) => {
            let v = color.to_u32();
            f.write_pixel(x, y, v);
        },
        None => {},
    }
}

/// Paints every visible pixel of the framebuffer, if there is one, in `color`.
pub fn fill_screen(fb: &mut Option<FrameBuffer>, color: &Color)
    requires
        screen_wf(screen(*old(fb))),
    ensures
        screen(*final(fb)) == screen_filled(screen(*old(fb)), color.argb()),
{
    match fb {
        Some(f) => {
            let v = color.to_u32();
            f.fill(v);
        },
        None => {},
    }
}

} // verus!
