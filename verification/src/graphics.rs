//! Text rendering on the framebuffer: 8x8 glyphs, the block cursor, and the
//! text console that places characters on the screen.
use vstd::prelude::*;
use crate::framebuffer::{
    Color, FrameBuffer, FrameBufferView, screen, SCREEN_WIDTH, lemma_row_major,
};
use font8x8::UnicodeFonts;

verus! {

/// Whether bit `col` (0 = leftmost pixel) of a glyph row is set.
pub open spec fn glyph_bit(row: u8, col: int) -> bool {
    row & (1u8 << (col as u8)) != 0
}

/// An 8x8 glyph with every pixel set: the shape that erases a character cell.
pub open spec fn solid_glyph() -> Seq<u8> {
    seq![0xFFu8, 0xFF, 0xFF, 0xFF, 0xFF, 0xFF, 0xFF, 0xFF]
}

/// The cursor: an underline of the two bottom rows of the cell.
pub open spec fn cursor_glyph() -> Seq<u8> {
    seq![0u8, 0, 0, 0, 0, 0, 0xFF, 0xFF]
}

impl FrameBufferView {
    /// The first `k` pixels of the glyph, in row-major order, drawn at
    /// `(x, y)` in `v`: pixel `k` is row `k / 8`, column `k % 8`.
    pub open spec fn glyph_upto(self, x: int, y: int, glyph: Seq<u8>, v: u32, k: nat) -> FrameBufferView
        decreases k,
    {
        if k == 0 {
            self
        } else {
            let prev = self.glyph_upto(x, y, glyph, v, (k - 1) as nat);
            let r = (k - 1) / 8;
            let c = (k - 1) % 8;
            if glyph_bit(glyph[r], c) {
                prev.put(x + c, y + r, v)
            } else {
                prev
            }
        }
    }

    /// The glyph drawn with its top-left corner at `(x, y)`: each set bit
    /// becomes a pixel of colour word `v`, clear bits leave the screen as it was.
    pub open spec fn glyph(self, x: int, y: int, glyph: Seq<u8>, v: u32) -> FrameBufferView {
        self.glyph_upto(x, y, glyph, v, 64)
    }
}

pub open spec fn screen_glyph(s: Option<FrameBufferView>, x: int, y: int, glyph: Seq<u8>, v: u32) -> Option<FrameBufferView> {
    match s {
        Some(f) => Some(f.glyph(x, y, glyph, v)),
        None => None,
    }
}

/// Every pixel coordinate of a set bit of the glyph, and its index in the
/// framebuffer if there is one, fits in 32 bits.
pub open spec fn glyph_fits(s: Option<FrameBufferView>, x: int, y: int, glyph: Seq<u8>) -> bool {
    forall|r: int, c: int|
        0 <= r < 8 && 0 <= c < 8 && #[trigger] glyph_bit(glyph[r], c) ==> {
            &&& x + c <= u32::MAX
            &&& y + r <= u32::MAX
            &&& (s matches Some(f) ==> f.offset(x + c, y + r) <= u32::MAX)
        }
}

/// Every pixel of the 8x8 cell at `(x, y)` has coordinates, and an index
/// in the framebuffer if there is one, that fit in 32 bits.
pub open spec fn cell_fits(s: Option<FrameBufferView>, x: int, y: int) -> bool {
    &&& 0 <= x && x + 7 <= u32::MAX
    &&& 0 <= y && y + 7 <= u32::MAX
    &&& (s matches Some(f) ==> f.offset(x + 7, y + 7) <= u32::MAX)
}

proof fn lemma_cell_fits_glyph(s: Option<FrameBufferView>, x: int, y: int, glyph: Seq<u8>)
    requires
        cell_fits(s, x, y),
    ensures
        glyph_fits(s, x, y, glyph),
{
    assert forall|r: int, c: int|
        0 <= r < 8 && 0 <= c < 8 && #[trigger] glyph_bit(glyph[r], c) implies (s matches Some(
        f) ==> f.offset(x + c, y + r) <= u32::MAX) by {
        if let Some(f) = s {
            let st = f.stride();
            assert((y + r) * st + (x + c) <= (y + 7) * st + (x + 7)) by (nonlinear_arith)
                requires
                    0 <= r < 8,
                    0 <= c < 8,
                    st >= 0,
                    y >= 0,
            ;
        }
    }
}

proof fn lemma_glyph_upto_frame(f: FrameBufferView, x: int, y: int, glyph: Seq<u8>, v: u32, k: nat)
    ensures
        f.glyph_upto(x, y, glyph, v, k) == f.with_pixels(f.glyph_upto(x, y, glyph, v, k).pixels),
        f.glyph_upto(x, y, glyph, v, k).pixels.len() == f.pixels.len(),
    decreases k,
{
    if k > 0 {
        lemma_glyph_upto_frame(f, x, y, glyph, v, (k - 1) as nat);
    }
}

impl FrameBuffer {
    /// Draws the glyph at `(x, y)`, row by row, each set bit a pixel of `v`.
    pub fn draw_glyph_pixels(&mut self, x: u32, y: u32, glyph: &[u8; 8], v: u32)
        requires
            glyph_fits(Some(old(self)@), x as int, y as int, glyph@),
        ensures
            final(self)@ == old(self)@.glyph(x as int, y as int, glyph@, v),
    {
        let ghost start = self@;
        let mut row: u32 = 0;
        while row < 8
            invariant
                row <= 8,
                glyph_fits(Some(start), x as int, y as int, glyph@),
                self@ == start.glyph_upto(x as int, y as int, glyph@, v, (row * 8) as nat),
            decreases 8 - row,
        {
            let row_byte = glyph[row as usize];
            let mut col: u8 = 0;
            while col < 8
                invariant
                    row < 8,
                    col <= 8,
                    row_byte == glyph@[row as int],
                    glyph_fits(Some(start), x as int, y as int, glyph@),
                    self@ == start.glyph_upto(x as int, y as int, glyph@, v, (row * 8 + col) as nat),
                decreases 8 - col,
            {
                let ghost k = (row * 8 + col) as nat;
                proof {
                    vstd::arithmetic::div_mod::lemma_fundamental_div_mod_converse(
                        k as int,
                        8,
                        row as int,
                        col as int,
                    );
                    lemma_glyph_upto_frame(start, x as int, y as int, glyph@, v, k);
                }
                if row_byte & (1u8 << col) != 0 {
                    assert(glyph_bit(glyph@[row as int], col as int));
                    self.write_pixel(x + col as u32, y + row, v);
                }
                col += 1;
            }
            row += 1;
        }
    }
}

/// Draws the glyph at `(x, y)` in `color` on the framebuffer, if there is one.
pub fn draw_glyph(fb: &mut Option<FrameBuffer>, x: u32, y: u32, glyph: &[u8; 8], color: &Color)
    requires
        glyph_fits(screen(*old(fb)), x as int, y as int, glyph@),
    ensures
        screen(*final(fb)) == screen_glyph(screen(*old(fb)), x as int, y as int, glyph@, color.argb()),
{
    match fb {
        Some(f) => {
            let v = color.to_u32();
            f.draw_glyph_pixels(x, y, glyph, v);
        },
        None => {},
    }
}


/// The glyph that the Basic Latin table of `font8x8` holds for `ch`.
pub uninterp spec fn basic_font_glyph(ch: char) -> Seq<u8>;

/// Looks `ch` up with `font8x8::BASIC_FONTS.get` (trait `UnicodeFonts`).
/// The table holds one glyph for each of the 128 characters U+0000..=U+007F
/// and none for any other character; those up to U+0020 (the control
/// characters and the space) have the empty glyph. The shapes of the other
/// glyphs are only named, by `basic_font_glyph`.
#[verifier::external_body]
fn basic_font_get(ch: char) -> (r: Option<[u8; 8]>)
    ensures
        r is Some <==> (ch as u32) < 128,
        r matches Some(g) ==> g@ == basic_font_glyph(ch),
        (ch as u32) <= 0x20 ==> (r matches Some(g) ==> g@ == Seq::new(8, |i: int| 0u8)),
{
    font8x8::BASIC_FONTS.get(ch)
}

/// What drawing character `ch` at `(x, y)` in colour word `v` does: its
/// glyph if the font has one, nothing otherwise.
pub open spec fn screen_char(s: Option<FrameBufferView>, x: int, y: int, ch: char, v: u32) -> Option<FrameBufferView> {
    if (ch as u32) < 128 {
        screen_glyph(s, x, y, basic_font_glyph(ch), v)
    } else {
        s
    }
}

/// Drawing `ch` at `(x, y)` keeps every coordinate and index of the pixels
/// of its glyph within 32 bits.
pub open spec fn char_fits(s: Option<FrameBufferView>, x: int, y: int, ch: char) -> bool {
    (ch as u32) < 128 ==> glyph_fits(s, x, y, basic_font_glyph(ch))
}

/// Draws the 8x8 glyph of `ch` with its top-left corner at `(x, y)`;
/// characters outside Basic Latin draw nothing.
pub fn draw_char(fb: &mut Option<FrameBuffer>, x: u32, y: u32, ch: char, color: &Color)
    requires
        char_fits(screen(*old(fb)), x as int, y as int, ch),
    ensures
        screen(*final(fb)) == screen_char(screen(*old(fb)), x as int, y as int, ch, color.argb()),
{
    if let Some(glyph) = basic_font_get(ch) {
        draw_glyph(fb, x, y, &glyph, color);
    }
}

/// Paints the whole 8x8 cell at `(x, y)` in `bg_color`.
pub fn erase_char(fb: &mut Option<FrameBuffer>, x: u32, y: u32, bg_color: &Color)
    requires
        cell_fits(screen(*old(fb)), x as int, y as int),
    ensures
        screen(*final(fb)) == screen_glyph(screen(*old(fb)), x as int, y as int, solid_glyph(), bg_color.argb()),
{
    let solid: [u8; 8] = [0xFF; 8];
    assert(solid@ =~= solid_glyph());
    proof {
        lemma_cell_fits_glyph(screen(*fb), x as int, y as int, solid@);
    }
    draw_glyph(fb, x, y, &solid, bg_color);
}

/// Draws the cursor (the two bottom rows of the cell at `(x, y)`) in
/// `text_color` when `visible`, in `bg_color` otherwise.
pub fn display_cursor(
    fb: &mut Option<FrameBuffer>,
    x: u32,
    y: u32,
    text_color: &Color,
    bg_color: &Color,
    visible: bool,
)
    requires
        cell_fits(screen(*old(fb)), x as int, y as int),
    ensures
        screen(*final(fb)) == screen_glyph(
            screen(*old(fb)),
            x as int,
            y as int,
            cursor_glyph(),
            if visible { text_color.argb() } else { bg_color.argb() },
        ),
{
    let cursor: [u8; 8] = [0, 0, 0, 0, 0, 0, 0xFF, 0xFF];
    assert(cursor@ =~= cursor_glyph());
    proof {
        lemma_cell_fits_glyph(screen(*fb), x as int, y as int, cursor@);
    }
    let color = if visible { text_color } else { bg_color };
    draw_glyph(fb, x, y, &cursor, color);
}

/// The colour of the text and of the cursor.
pub open spec fn text_white() -> Color {
    Color { r: 255, g: 255, b: 255 }
}

/// The colour of the screen background.
pub open spec fn background_blue() -> Color {
    Color { r: 0, g: 0, b: 255 }
}

/// Text written on the framebuffer, with the position where the next
/// character goes.
#[derive(Clone, Copy, Debug, PartialEq, Eq, Structural)]
pub struct GraphicsConsole {
    pub x: u32,
    pub y: u32,
    pub fg_color: Color,
    pub x_spacing: u32,
    pub y_spacing: u32,
    pub x_margin: u32,
}

impl GraphicsConsole {
    /// A text console with its position, colour, character and line
    /// advance, and left margin.
    pub fn init(
        x: u32,
        y: u32,
        fg_color: Color,
        x_spacing: u32,
        y_spacing: u32,
        x_margin: u32,
    ) -> (r: Result<GraphicsConsole, &'static str>)
        ensures
            r == Ok::<GraphicsConsole, &'static str>(
                GraphicsConsole { x, y, fg_color, x_spacing, y_spacing, x_margin },
            ),
    {
        Ok(GraphicsConsole { x, y, fg_color, x_spacing, y_spacing, x_margin })
    }

    pub open spec fn at(self, x: int, y: int) -> GraphicsConsole {
        GraphicsConsole {
            x: x as u32,
            y: y as u32,
            fg_color: self.fg_color,
            x_spacing: self.x_spacing,
            y_spacing: self.y_spacing,
            x_margin: self.x_margin,
        }
    }

    /// The column from which a character no longer fits on the line: the
    /// screen width (1024 without a framebuffer) less one character advance.
    pub open spec fn wrap_limit(self, s: Option<FrameBufferView>) -> int {
        (match s {
            Some(f) => f.width as int,
            None => SCREEN_WIDTH as int,
        }) - self.x_spacing
    }

    pub open spec fn wraps(self, s: Option<FrameBufferView>) -> bool {
        self.x >= self.wrap_limit(s)
    }

    /// Where a printable character goes: here, or at the margin of the next
    /// line if it would pass the wrap limit.
    pub open spec fn origin_x(self, s: Option<FrameBufferView>) -> int {
        if self.wraps(s) {
            self.x_margin as int
        } else {
            self.x as int
        }
    }

    pub open spec fn origin_y(self, s: Option<FrameBufferView>) -> int {
        if self.wraps(s) {
            self.y + self.y_spacing
        } else {
            self.y as int
        }
    }

    /// The console after writing `ch`: a newline goes to the margin of the
    /// next line, any other character advances past where it was drawn.
    pub open spec fn after_char(self, s: Option<FrameBufferView>, ch: char) -> GraphicsConsole {
        if ch == '\n' {
            self.at(self.x_margin as int, self.y + self.y_spacing)
        } else {
            self.at(self.origin_x(s) + self.x_spacing, self.origin_y(s))
        }
    }

    /// The screen after writing `ch`.
    pub open spec fn screen_after_char(self, s: Option<FrameBufferView>, ch: char) -> Option<FrameBufferView> {
        if ch == '\n' {
            s
        } else {
            screen_char(s, self.origin_x(s), self.origin_y(s), ch, self.fg_color.argb())
        }
    }

    /// Writing `ch` keeps every position and pixel index within 32 bits.
    pub open spec fn char_ok(self, s: Option<FrameBufferView>, ch: char) -> bool {
        if ch == '\n' {
            self.y + self.y_spacing <= u32::MAX
        } else {
            &&& self.wrap_limit(s) >= 0
            &&& self.origin_y(s) <= u32::MAX
            &&& char_fits(s, self.origin_x(s), self.origin_y(s), ch)
            &&& self.origin_x(s) + self.x_spacing <= u32::MAX
        }
    }

    /// Writes the characters of `text` in order, as `write_char` does.
    pub fn write_str(&mut self, fb: &mut Option<FrameBuffer>, text: &str)
        requires
            text_ok(*old(self), screen(*old(fb)), text@),
        ensures
            (*final(self), screen(*final(fb))) == typeset(*old(self), screen(*old(fb)), text@),
    {
        let ghost g0 = *self;
        let ghost s0 = screen(*fb);
        for ch in it: text.chars()
            invariant
                it.seq() == text@,
                text_ok(g0, s0, text@),
                (*self, screen(*fb)) == typeset(g0, s0, text@.take(it.index())),
        {
            proof {
                let i = it.index();
                lemma_text_ok_prefix(g0, s0, text@, i + 1);
                assert(text@.take(i + 1).drop_last() =~= text@.take(i));
            }
            self.write_char(fb, ch);
        }
        proof {
            assert(text@.take(text@.len() as int) =~= text@);
        }
    }

    /// Writes one character: a newline moves to the next line; any other
    /// character wraps to the next line if it would pass the wrap limit, is
    /// drawn in the foreground colour, and advances the position.
    pub fn write_char(&mut self, fb: &mut Option<FrameBuffer>, ch: char)
        requires
            old(self).char_ok(screen(*old(fb)), ch),
        ensures
            *final(self) == old(self).after_char(screen(*old(fb)), ch),
            screen(*final(fb)) == old(self).screen_after_char(screen(*old(fb)), ch),
    {
        if ch == '\n' {
            self.y = self.y + self.y_spacing;
            self.x = self.x_margin;
        } else {
            let lim_x = match &*fb {
                Some(f) => f.width - self.x_spacing,
                None => SCREEN_WIDTH - self.x_spacing,
            };
            if self.x >= lim_x {
                self.x = self.x_margin;
                self.y = self.y + self.y_spacing;
            }
            let color = self.fg_color;
            draw_char(fb, self.x, self.y, ch, &color);
            self.x = self.x + self.x_spacing;
        }
    }
}


/// The console and the screen after writing `text` from `gc` on `s`.
pub open spec fn typeset(gc: GraphicsConsole, s: Option<FrameBufferView>, text: Seq<char>) -> (GraphicsConsole, Option<FrameBufferView>)
    decreases text.len(),
{
    if text.len() == 0 {
        (gc, s)
    } else {
        let (g, t) = typeset(gc, s, text.drop_last());
        (g.after_char(t, text.last()), g.screen_after_char(t, text.last()))
    }
}

/// Writing `text` from `gc` on `s` keeps every position and pixel index
/// within 32 bits.
pub open spec fn text_ok(gc: GraphicsConsole, s: Option<FrameBufferView>, text: Seq<char>) -> bool
    decreases text.len(),
{
    text.len() == 0 || {
        let (g, t) = typeset(gc, s, text.drop_last());
        &&& text_ok(gc, s, text.drop_last())
        &&& g.char_ok(t, text.last())
    }
}

proof fn lemma_text_ok_prefix(gc: GraphicsConsole, s: Option<FrameBufferView>, text: Seq<char>, n: int)
    requires
        text_ok(gc, s, text),
        0 <= n <= text.len(),
    ensures
        text_ok(gc, s, text.take(n)),
    decreases text.len(),
{
    if n == text.len() {
        assert(text.take(n) =~= text);
    } else {
        lemma_text_ok_prefix(gc, s, text.drop_last(), n);
        assert(text.drop_last().take(n) =~= text.take(n));
    }
}


/// Both screens are absent, or both present with the same geometry and
/// the same amount of pixel memory.
pub open spec fn same_geometry(a: Option<FrameBufferView>, b: Option<FrameBufferView>) -> bool {
    match (a, b) {
        (None, None) => true,
        (Some(f), Some(g)) => {
            &&& f.width == g.width
            &&& f.height == g.height
            &&& f.pitch == g.pitch
            &&& f.ptr == g.ptr
            &&& f.pixels.len() == g.pixels.len()
        },
        _ => false,
    }
}

pub proof fn lemma_screen_glyph_geometry(s: Option<FrameBufferView>, x: int, y: int, glyph: Seq<u8>, v: u32)
    ensures
        same_geometry(screen_glyph(s, x, y, glyph, v), s),
{
    if let Some(f) = s {
        lemma_glyph_upto_frame(f, x, y, glyph, v, 64);
    }
}

pub proof fn lemma_screen_char_geometry(s: Option<FrameBufferView>, x: int, y: int, ch: char, v: u32)
    ensures
        same_geometry(screen_char(s, x, y, ch, v), s),
{
    lemma_screen_glyph_geometry(s, x, y, basic_font_glyph(ch), v);
}

/// The screen after drawing `text` from `(x, y)`, one character every
/// eight pixels to the right.
pub open spec fn screen_string(s: Option<FrameBufferView>, x: int, y: int, text: Seq<char>, v: u32) -> Option<FrameBufferView>
    decreases text.len(),
{
    if text.len() == 0 {
        s
    } else {
        screen_char(
            screen_string(s, x, y, text.drop_last(), v),
            x + 8 * (text.len() - 1),
            y,
            text.last(),
            v,
        )
    }
}

/// Drawing `n` characters from `(x, y)` keeps every position and pixel
/// index within 32 bits.
pub open spec fn string_fits(s: Option<FrameBufferView>, x: int, y: int, text: Seq<char>) -> bool {
    &&& x + 8 * text.len() <= u32::MAX
    &&& forall|i: int| 0 <= i < text.len() ==> char_fits(s, x + 8 * i, y, #[trigger] text[i])
}

/// Whether a glyph fits at `(x, y)` depends on the screen only through its
/// geometry.
pub proof fn lemma_glyph_fits_geometry(s: Option<FrameBufferView>, s2: Option<FrameBufferView>, x: int, y: int, glyph: Seq<u8>)
    requires
        same_geometry(s, s2),
    ensures
        glyph_fits(s, x, y, glyph) == glyph_fits(s2, x, y, glyph),
        cell_fits(s, x, y) == cell_fits(s2, x, y),
{
}

/// Draws `txt` from `(x, y)`, one 8x8 character after the other.
pub fn draw_string(fb: &mut Option<FrameBuffer>, x: u32, y: u32, txt: &str, color: &Color)
    requires
        string_fits(screen(*old(fb)), x as int, y as int, txt@),
    ensures
        screen(*final(fb)) == screen_string(screen(*old(fb)), x as int, y as int, txt@, color.argb()),
{
    let ghost s0 = screen(*fb);
    let mut pos_x = x;
    for ch in it: txt.chars()
        invariant
            it.seq() == txt@,
            string_fits(s0, x as int, y as int, txt@),
            pos_x == x + 8 * it.index(),
            same_geometry(screen(*fb), s0),
            screen(*fb) == screen_string(s0, x as int, y as int, txt@.take(it.index()), color.argb()),
    {
        proof {
            let i = it.index();
            assert(char_fits(s0, x + 8 * i, y as int, txt@[i]));
            lemma_glyph_fits_geometry(s0, screen(*fb), pos_x as int, y as int, basic_font_glyph(ch));
            assert(txt@.take(i + 1).drop_last() =~= txt@.take(i));
            lemma_screen_char_geometry(screen(*fb), pos_x as int, y as int, ch, color.argb());
        }
        draw_char(fb, pos_x, y, ch, color);
        pos_x = pos_x + 8;
    }
    proof {
        assert(txt@.take(txt@.len() as int) =~= txt@);
    }
}

/// The column from which a text of `n_bytes` bytes is centred: half the
/// screen width (1024 without a framebuffer) less four pixels per byte,
/// and never left of column 0.
pub open spec fn centered_x(s: Option<FrameBufferView>, n_bytes: u32) -> int {
    let width = match s {
        Some(f) => f.width as int,
        None => SCREEN_WIDTH as int,
    };
    let half_text = n_bytes * 8 / 2;
    if width / 2 >= half_text {
        width / 2 - half_text
    } else {
        0
    }
}

/// A text no wider than the screen is centred: it starts as far right of
/// column 0 as its middle is left of the screen's middle. Only a text whose
/// half is wider than half the screen starts at column 0.
pub proof fn lemma_centered_x(s: Option<FrameBufferView>, n_bytes: u32)
    requires
        n_bytes * 8 <= u32::MAX,
    ensures
        ({
            let width = match s {
                Some(f) => f.width as int,
                None => SCREEN_WIDTH as int,
            };
            &&& 0 <= centered_x(s, n_bytes)
            &&& n_bytes * 8 <= width ==> centered_x(s, n_bytes) + n_bytes * 8 / 2 == width / 2
            &&& n_bytes * 8 / 2 > width / 2 ==> centered_x(s, n_bytes) == 0
        }),
{
}

/// Draws `txt` centred horizontally on row `y`.
pub fn draw_string_centered(fb: &mut Option<FrameBuffer>, y: u32, txt: &str, color: &Color)
    requires
        (txt.len() as u32) * 8 <= u32::MAX,
        string_fits(
            screen(*old(fb)),
            centered_x(screen(*old(fb)), txt.len() as u32),
            y as int,
            txt@,
        ),
    ensures
        screen(*final(fb)) == screen_string(
            screen(*old(fb)),
            centered_x(screen(*old(fb)), txt.len() as u32),
            y as int,
            txt@,
            color.argb(),
        ),
{
    let width = match &*fb {
        Some(f) => f.width,
        None => SCREEN_WIDTH,
    };
    let n = txt.len() as u32;
    let centered_x = (width / 2).saturating_sub((n * 8) / 2);
    draw_string(fb, centered_x, y, txt, color);
}

/// The screen with the character cell at the console's position cleared to
/// the background, which removes the cursor.
pub open spec fn erased_at(g: GraphicsConsole, s: Option<FrameBufferView>) -> Option<FrameBufferView> {
    screen_glyph(s, g.x as int, g.y as int, solid_glyph(), background_blue().argb())
}

/// The screen with the cursor drawn at the console's position.
pub open spec fn cursor_at(g: GraphicsConsole, s: Option<FrameBufferView>) -> Option<FrameBufferView> {
    screen_glyph(s, g.x as int, g.y as int, cursor_glyph(), text_white().argb())
}

/// Draws `txt` centred horizontally on row `y` if its length in pixels and
/// every position and pixel index fit in 32 bits, and says whether it did;
/// otherwise the screen is left as it was.
pub fn try_draw_string_centered(fb: &mut Option<FrameBuffer>, y: u32, txt: &str, color: &Color) -> (drawn: bool)
    ensures
        drawn == ((txt.len() as u32) * 8 <= u32::MAX && string_fits(
            screen(*old(fb)),
            centered_x(screen(*old(fb)), txt.len() as u32),
            y as int,
            txt@,
        )),
        drawn ==> screen(*final(fb)) == screen_string(
            screen(*old(fb)),
            centered_x(screen(*old(fb)), txt.len() as u32),
            y as int,
            txt@,
            color.argb(),
        ),
        !drawn ==> *final(fb) == *old(fb),
{
    let n = txt.len() as u32;
    if n as u64 * 8 > u32::MAX as u64 {
        return false;
    }
    let width = match &*fb {
        Some(f) => f.width,
        None => SCREEN_WIDTH,
    };
    let centered_x = (width / 2).saturating_sub((n * 8) / 2);
    if !string_fits_check(fb, centered_x, y, txt) {
        return false;
    }
    draw_string_centered(fb, y, txt, color);
    true
}

/// Moves the console's position to `(x, y)`.
pub fn set_cursor(console: &mut GraphicsConsole, x: u32, y: u32)
    ensures
        *final(console) == old(console).at(x as int, y as int),
{
    console.x = x;
    console.y = y;
}

/// Shows the cursor, in white, at the console's position.
pub fn draw_cursor(gc: &GraphicsConsole, fb: &mut Option<FrameBuffer>)
    requires
        cell_fits(screen(*old(fb)), gc.x as int, gc.y as int),
    ensures
        screen(*final(fb)) == cursor_at(*gc, screen(*old(fb))),
{
    display_cursor(fb, gc.x, gc.y, &Color::new(255, 255, 255), &Color::new(0, 0, 255), true);
}

/// Clears the character cell at the console's position to the blue
/// background, which removes the cursor.
pub fn erase_cursor(gc: &GraphicsConsole, fb: &mut Option<FrameBuffer>)
    requires
        cell_fits(screen(*old(fb)), gc.x as int, gc.y as int),
    ensures
        screen(*final(fb)) == erased_at(*gc, screen(*old(fb))),
{
    erase_char(fb, gc.x, gc.y, &Color::new(0, 0, 255));
}


/// Whether pixel `j` of a glyph (row `j / 8`, column `j % 8`) is set.
pub open spec fn bit_at(glyph: Seq<u8>, j: int) -> bool {
    glyph_bit(glyph[j / 8], j % 8)
}

/// Whether one of the first `k` pixels of the glyph, drawn at `(x, y)`,
/// is set and lands on index `o`.
pub open spec fn covers_upto(f: FrameBufferView, x: int, y: int, glyph: Seq<u8>, k: int, o: int) -> bool {
    exists|j: int| 0 <= j < k && #[trigger] bit_at(glyph, j) && f.offset(x + j % 8, y + j / 8) == o
}

/// Whether a set pixel of the glyph, drawn at `(x, y)`, lands on index `o`.
pub open spec fn glyph_covers(f: FrameBufferView, x: int, y: int, glyph: Seq<u8>, o: int) -> bool {
    exists|r: int, c: int|
        0 <= r < 8 && 0 <= c < 8 && #[trigger] glyph_bit(glyph[r], c) && f.offset(x + c, y + r) == o
}

proof fn lemma_glyph_upto_pixel(f: FrameBufferView, x: int, y: int, glyph: Seq<u8>, v: u32, k: nat, o: int)
    requires
        0 <= o < f.pixels.len(),
    ensures
        f.glyph_upto(x, y, glyph, v, k).pixels[o] == if covers_upto(f, x, y, glyph, k as int, o) {
            v
        } else {
            f.pixels[o]
        },
    decreases k,
{
    if k > 0 {
        let j = k - 1;
        lemma_glyph_upto_pixel(f, x, y, glyph, v, (k - 1) as nat, o);
        lemma_glyph_upto_frame(f, x, y, glyph, v, (k - 1) as nat);
        let hit = f.offset(x + j % 8, y + j / 8);
        if bit_at(glyph, j) && hit == o {
            assert(covers_upto(f, x, y, glyph, k as int, o));
        } else {
            if covers_upto(f, x, y, glyph, k as int, o) {
                let i = choose|i: int|
                    0 <= i < k && #[trigger] bit_at(glyph, i) && f.offset(x + i % 8, y + i / 8) == o;
                assert(i != j);
                assert(covers_upto(f, x, y, glyph, j, o));
            }
        }
    }
}

/// After drawing a glyph, a pixel of the memory holds the colour word `v`
/// if a set pixel of the glyph lands on it, and what it held otherwise.
pub proof fn lemma_glyph_pixel(f: FrameBufferView, x: int, y: int, glyph: Seq<u8>, v: u32, o: int)
    requires
        0 <= o < f.pixels.len(),
    ensures
        f.glyph(x, y, glyph, v).pixels[o] == if glyph_covers(f, x, y, glyph, o) {
            v
        } else {
            f.pixels[o]
        },
        f.glyph(x, y, glyph, v) == f.with_pixels(f.glyph(x, y, glyph, v).pixels),
        f.glyph(x, y, glyph, v).pixels.len() == f.pixels.len(),
{
    lemma_glyph_upto_pixel(f, x, y, glyph, v, 64, o);
    lemma_glyph_upto_frame(f, x, y, glyph, v, 64);
    if covers_upto(f, x, y, glyph, 64, o) {
        let j = choose|j: int|
            0 <= j < 64 && #[trigger] bit_at(glyph, j) && f.offset(x + j % 8, y + j / 8) == o;
        assert(glyph_bit(glyph[j / 8], j % 8));
    }
    if glyph_covers(f, x, y, glyph, o) {
        let (r, c) = choose|r: int, c: int|
            0 <= r < 8 && 0 <= c < 8 && #[trigger] glyph_bit(glyph[r], c) && f.offset(x + c, y + r)
                == o;
        let j = 8 * r + c;
        vstd::arithmetic::div_mod::lemma_fundamental_div_mod_converse(j, 8, r, c);
        assert(bit_at(glyph, j));
    }
}

/// Drawing a glyph whose cell lies within one row of the memory
/// (`x + 7 < stride`) changes exactly the pixels of its set bits: pixel
/// `(x + c, y + r)` of the cell takes the colour word `v` when bit `c` of
/// row `r` is set and keeps its value when it is clear, and every pixel
/// outside the cell keeps its value.
pub proof fn lemma_glyph_cell(f: FrameBufferView, x: int, y: int, glyph: Seq<u8>, v: u32, o: int)
    requires
        0 <= x,
        0 <= y,
        x + 7 < f.stride(),
        0 <= o < f.pixels.len(),
    ensures
        ({
            let row = o / f.stride();
            let col = o % f.stride();
            f.glyph(x, y, glyph, v).pixels[o] == if x <= col < x + 8 && y <= row < y + 8
                && glyph_bit(glyph[row - y], col - x) {
                v
            } else {
                f.pixels[o]
            }
        }),
{
    let st = f.stride();
    let row = o / st;
    let col = o % st;
    lemma_glyph_pixel(f, x, y, glyph, v, o);
    vstd::arithmetic::div_mod::lemma_fundamental_div_mod(o, st);
    if glyph_covers(f, x, y, glyph, o) {
        let (r, c) = choose|r: int, c: int|
            0 <= r < 8 && 0 <= c < 8 && #[trigger] glyph_bit(glyph[r], c) && f.offset(x + c, y + r)
                == o;
        lemma_row_major(st, x + c, y + r);
    }
    if x <= col < x + 8 && y <= row < y + 8 && glyph_bit(glyph[row - y], col - x) {
        let (r, c) = (row - y, col - x);
        assert(f.offset(x + c, y + r) == o) by (nonlinear_arith)
            requires
                o == st * row + col,
                r == row - y,
                c == col - x,
                f.offset(x + c, y + r) == (y + r) * st + (x + c),
        ;
        assert(glyph_covers(f, x, y, glyph, o));
    }
}

/// Every bit of a full row is set.
pub proof fn lemma_full_row_set(c: int)
    requires
        0 <= c < 8,
    ensures
        glyph_bit(0xFF, c),
{
    lemma_full_row(c as u8);
}

proof fn lemma_full_row(c: u8)
    by (bit_vector)
    requires
        c < 8,
    ensures
        0xFFu8 & (1u8 << c) != 0,
{
}

/// Erasing the cell at `(x, y)` paints each of its 64 pixels that lies in
/// the pixel memory with the background word `v`.
pub proof fn lemma_erase_fills_cell(f: FrameBufferView, x: int, y: int, v: u32, r: int, c: int)
    requires
        0 <= r < 8,
        0 <= c < 8,
        0 <= f.offset(x + c, y + r) < f.pixels.len(),
    ensures
        f.glyph(x, y, solid_glyph(), v).pixels[f.offset(x + c, y + r)] == v,
{
    lemma_full_row(c as u8);
    assert(glyph_bit(solid_glyph()[r], c));
    lemma_glyph_pixel(f, x, y, solid_glyph(), v, f.offset(x + c, y + r));
}

/// Erasing the cell at `(x, y)` after drawing any glyph there, in any
/// colour, gives the same screen as erasing it without the glyph: every
/// pixel of a glyph lies in its cell.
pub proof fn lemma_erase_after_glyph(s: Option<FrameBufferView>, x: int, y: int, glyph: Seq<u8>, v: u32, bg: u32)
    ensures
        screen_glyph(screen_glyph(s, x, y, glyph, v), x, y, solid_glyph(), bg) == screen_glyph(
            s,
            x,
            y,
            solid_glyph(),
            bg,
        ),
{
    if let Some(f) = s {
        let f1 = f.glyph(x, y, glyph, v);
        lemma_glyph_upto_frame(f, x, y, glyph, v, 64);
        lemma_glyph_upto_frame(f1, x, y, solid_glyph(), bg, 64);
        lemma_glyph_upto_frame(f, x, y, solid_glyph(), bg, 64);
        assert forall|o: int| 0 <= o < f.pixels.len() implies #[trigger] f1.glyph(
            x,
            y,
            solid_glyph(),
            bg,
        ).pixels[o] == f.glyph(x, y, solid_glyph(), bg).pixels[o] by {
            lemma_glyph_pixel(f, x, y, glyph, v, o);
            lemma_glyph_pixel(f1, x, y, solid_glyph(), bg, o);
            lemma_glyph_pixel(f, x, y, solid_glyph(), bg, o);
            if glyph_covers(f, x, y, glyph, o) {
                let (r, c) = choose|r: int, c: int|
                    0 <= r < 8 && 0 <= c < 8 && #[trigger] glyph_bit(glyph[r], c) && f.offset(
                        x + c,
                        y + r,
                    ) == o;
                lemma_full_row(c as u8);
                assert(glyph_bit(solid_glyph()[r], c));
                assert(glyph_covers(f, x, y, solid_glyph(), o));
            }
            assert(glyph_covers(f1, x, y, solid_glyph(), o) == glyph_covers(f, x, y, solid_glyph(), o));
        }
        assert(f1.glyph(x, y, solid_glyph(), bg).pixels =~= f.glyph(x, y, solid_glyph(), bg).pixels);
    }
}

/// Erasing the cell at `(x, y)` after drawing a character or the cursor
/// there gives the same screen as erasing it alone.
pub proof fn lemma_erase_after_char_or_cursor(s: Option<FrameBufferView>, x: int, y: int, ch: char, v: u32, bg: u32)
    ensures
        screen_glyph(screen_char(s, x, y, ch, v), x, y, solid_glyph(), bg) == screen_glyph(
            s,
            x,
            y,
            solid_glyph(),
            bg,
        ),
        screen_glyph(screen_glyph(s, x, y, cursor_glyph(), v), x, y, solid_glyph(), bg)
            == screen_glyph(s, x, y, solid_glyph(), bg),
{
    lemma_erase_after_glyph(s, x, y, basic_font_glyph(ch), v, bg);
    lemma_erase_after_glyph(s, x, y, cursor_glyph(), v, bg);
}

/// Erasing the cursor's cell after drawing the cursor gives the same screen
/// as erasing it without the cursor: the cursor leaves no trace.
pub proof fn lemma_erase_hides_cursor(g: GraphicsConsole, s: Option<FrameBufferView>)
    ensures
        erased_at(g, cursor_at(g, s)) == erased_at(g, s),
{
    lemma_erase_after_glyph(s, g.x as int, g.y as int, cursor_glyph(), text_white().argb(), background_blue().argb());
}

/// Drawing `a + b` from `(x, y)` is drawing `a` there and then `b` from
/// eight pixels further right per character of `a`.
pub proof fn lemma_screen_string_concat(s: Option<FrameBufferView>, x: int, y: int, a: Seq<char>, b: Seq<char>, v: u32)
    ensures
        screen_string(s, x, y, a + b, v) == screen_string(screen_string(s, x, y, a, v), x + 8 * a.len(), y, b, v),
    decreases b.len(),
{
    if b.len() == 0 {
        assert(a + b =~= a);
    } else {
        lemma_screen_string_concat(s, x, y, a, b.drop_last(), v);
        assert((a + b).drop_last() =~= a + b.drop_last());
        assert((a + b).last() == b.last());
        assert(x + 8 * ((a + b).len() - 1) == x + 8 * a.len() + 8 * (b.len() - 1));
    }
}

/// Writing a printable character draws it in the console's foreground
/// colour: when its cell lies within one row of the memory, pixel
/// `(x + c, y + r)` of the cell at the place where it is drawn takes
/// `fg_color`'s word exactly when bit `c` of row `r` of the character's
/// glyph is set, and every other pixel of the screen keeps its value.
pub proof fn lemma_write_char_pixels(g: GraphicsConsole, f: FrameBufferView, ch: char, o: int)
    requires
        ch != '\n',
        g.origin_x(Some(f)) + 7 < f.stride(),
        0 <= o < f.pixels.len(),
    ensures
        ({
            let (x, y) = (g.origin_x(Some(f)), g.origin_y(Some(f)));
            let row = o / f.stride();
            let col = o % f.stride();
            &&& g.screen_after_char(Some(f), ch) is Some
            &&& g.screen_after_char(Some(f), ch)->0.pixels[o] == if (ch as u32) < 128 && x <= col < x + 8
                && y <= row < y + 8 && glyph_bit(basic_font_glyph(ch)[row - y], col - x) {
                g.fg_color.argb()
            } else {
                f.pixels[o]
            }
        }),
{
    let (x, y) = (g.origin_x(Some(f)), g.origin_y(Some(f)));
    if (ch as u32) < 128 {
        lemma_glyph_cell(f, x, y, basic_font_glyph(ch), g.fg_color.argb(), o);
    }
}

/// Writing `a` and then `b` is writing `a + b`: the console and screen
/// end up the same, and the two writes keep within 32 bits exactly when
/// the single one does.
pub proof fn lemma_typeset_concat(g: GraphicsConsole, s: Option<FrameBufferView>, a: Seq<char>, b: Seq<char>)
    ensures
        typeset(g, s, a + b) == typeset(typeset(g, s, a).0, typeset(g, s, a).1, b),
        text_ok(g, s, a + b) == (text_ok(g, s, a) && text_ok(typeset(g, s, a).0, typeset(g, s, a).1, b)),
    decreases b.len(),
{
    if b.len() == 0 {
        assert(a + b =~= a);
    } else {
        lemma_typeset_concat(g, s, a, b.drop_last());
        assert((a + b).drop_last() =~= a + b.drop_last());
        assert((a + b).last() == b.last());
    }
}

/// A printable character is drawn left of the wrap limit, or at the left
/// margin of the next line; after it the position has advanced by one
/// character from there. A newline goes to the margin of the next line.
pub proof fn lemma_char_placement(g: GraphicsConsole, s: Option<FrameBufferView>, ch: char)
    requires
        g.char_ok(s, ch),
    ensures
        ch == '\n' ==> g.after_char(s, ch).x == g.x_margin && g.after_char(s, ch).y == g.y + g.y_spacing,
        ch != '\n' ==> {
            &&& g.origin_x(s) < g.wrap_limit(s) || g.origin_x(s) == g.x_margin
            &&& g.after_char(s, ch).x == g.origin_x(s) + g.x_spacing
            &&& g.after_char(s, ch).y == g.origin_y(s)
        },
        g.after_char(s, ch).fg_color == g.fg_color,
        g.after_char(s, ch).x_spacing == g.x_spacing,
        g.after_char(s, ch).y_spacing == g.y_spacing,
        g.after_char(s, ch).x_margin == g.x_margin,
{
}


/// Whether a character can be written and where the console stands after
/// it depend on the screen only through its geometry.
pub proof fn lemma_char_geometry(g: GraphicsConsole, s: Option<FrameBufferView>, s2: Option<FrameBufferView>, ch: char)
    requires
        same_geometry(s, s2),
    ensures
        g.char_ok(s, ch) == g.char_ok(s2, ch),
        g.after_char(s, ch) == g.after_char(s2, ch),
        same_geometry(g.screen_after_char(s, ch), s),
{
    if ch != '\n' {
        lemma_screen_char_geometry(s, g.origin_x(s), g.origin_y(s), ch, g.fg_color.argb());
    }
}

/// Whether a text can be written and where the console stands after it
/// depend on the screen only through its geometry, which writing keeps.
pub proof fn lemma_text_geometry(g: GraphicsConsole, s: Option<FrameBufferView>, s2: Option<FrameBufferView>, t: Seq<char>)
    requires
        same_geometry(s, s2),
    ensures
        text_ok(g, s, t) == text_ok(g, s2, t),
        typeset(g, s, t).0 == typeset(g, s2, t).0,
        same_geometry(typeset(g, s, t).1, s),
    decreases t.len(),
{
    if t.len() > 0 {
        lemma_text_geometry(g, s, s2, t.drop_last());
        lemma_text_geometry(g, s2, s, t.drop_last());
        let (a, sa) = typeset(g, s, t.drop_last());
        let (b, sb) = typeset(g, s2, t.drop_last());
        lemma_char_geometry(a, sa, sb, t.last());
        lemma_char_geometry(a, sa, s, t.last());
    }
}

/// Whether every pixel of the 8x8 cell at `(x, y)` has coordinates and an
/// index that fit in 32 bits.
pub fn cell_fits_check(fb: &Option<FrameBuffer>, x: u32, y: u32) -> (r: bool)
    ensures
        r == cell_fits(screen(*fb), x as int, y as int),
{
    if x > u32::MAX - 7 || y > u32::MAX - 7 {
        return false;
    }
    match fb {
        Some(f) => {
            let stride = (f.pitch / 4) as u64;
            let row = y as u64 + 7;
            assert(row * stride <= 0x1_0000_0000 * 0x4000_0000) by (nonlinear_arith)
                requires
                    row <= 0x1_0000_0000,
                    stride <= 0x4000_0000,
            ;
            row * stride + x as u64 + 7 <= u32::MAX as u64
        },
        None => true,
    }
}

/// Whether every set pixel of the glyph at `(x, y)` has coordinates and an
/// index that fit in 32 bits.
pub fn glyph_fits_check(fb: &Option<FrameBuffer>, x: u32, y: u32, glyph: &[u8; 8]) -> (r: bool)
    ensures
        r == glyph_fits(screen(*fb), x as int, y as int, glyph@),
{
    let ghost s = screen(*fb);
    let stride: u64 = match fb {
        Some(f) => (f.pitch / 4) as u64,
        None => 0,
    };
    let mut row: u32 = 0;
    while row < 8
        invariant
            row <= 8,
            s == screen(*fb),
            s matches Some(f) ==> stride == f.stride(),
            forall|r: int, c: int|
                0 <= r < row && 0 <= c < 8 && #[trigger] glyph_bit(glyph@[r], c) ==> {
                    &&& x + c <= u32::MAX
                    &&& y + r <= u32::MAX
                    &&& (s matches Some(f) ==> f.offset(x + c, y + r) <= u32::MAX)
                },
        decreases 8 - row,
    {
        let row_byte = glyph[row as usize];
        let mut col: u8 = 0;
        while col < 8
            invariant
                row < 8,
                col <= 8,
                row_byte == glyph@[row as int],
                s == screen(*fb),
                s matches Some(f) ==> stride == f.stride(),
                forall|r: int, c: int|
                    (0 <= r < row && 0 <= c < 8 || r == row && 0 <= c < col) && #[trigger] glyph_bit(
                        glyph@[r],
                        c,
                    ) ==> {
                        &&& x + c <= u32::MAX
                        &&& y + r <= u32::MAX
                        &&& (s matches Some(f) ==> f.offset(x + c, y + r) <= u32::MAX)
                    },
            decreases 8 - col,
        {
            if row_byte & (1u8 << col) != 0 {
                assert(glyph_bit(glyph@[row as int], col as int));
                let px = x as u64 + col as u64;
                let py = y as u64 + row as u64;
                if px > u32::MAX as u64 || py > u32::MAX as u64 {
                    return false;
                }
                if fb.is_some() {
                    assert(py * stride <= 0x1_0000_0000 * 0x4000_0000) by (nonlinear_arith)
                        requires
                            py <= u32::MAX,
                            stride <= 0x4000_0000,
                    ;
                    if py * stride + px > u32::MAX as u64 {
                        return false;
                    }
                }
            }
            col += 1;
        }
        row += 1;
    }
    true
}

/// Whether drawing `ch` at `(x, y)` keeps every coordinate and index of
/// the pixels of its glyph within 32 bits.
pub fn char_fits_check(fb: &Option<FrameBuffer>, x: u32, y: u32, ch: char) -> (r: bool)
    ensures
        r == char_fits(screen(*fb), x as int, y as int, ch),
{
    match basic_font_get(ch) {
        Some(glyph) => glyph_fits_check(fb, x, y, &glyph),
        None => true,
    }
}

/// Whether drawing `text` from `(x, y)` keeps every position and pixel
/// index within 32 bits.
pub fn string_fits_check(fb: &Option<FrameBuffer>, x: u32, y: u32, text: &str) -> (r: bool)
    ensures
        r == string_fits(screen(*fb), x as int, y as int, text@),
{
    let mut pos: u64 = x as u64;
    for ch in it: text.chars()
        invariant
            it.seq() == text@,
            pos == x + 8 * it.index(),
            forall|i: int| 0 <= i < it.index() ==> char_fits(screen(*fb), x + 8 * i, y as int, #[trigger] text@[i]),
    {
        let ghost i = it.index();
        if pos > u32::MAX as u64 {
            return false;
        }
        if !char_fits_check(fb, pos as u32, y, ch) {
            assert(!char_fits(screen(*fb), x + 8 * i, y as int, text@[i]));
            return false;
        }
        pos = pos + 8;
    }
    pos <= u32::MAX as u64
}

impl GraphicsConsole {
    /// Whether writing `ch` keeps every position and pixel index within
    /// 32 bits.
    pub fn can_write_char(&self, fb: &Option<FrameBuffer>, ch: char) -> (r: bool)
        ensures
            r == self.char_ok(screen(*fb), ch),
    {
        if ch == '\n' {
            return self.y as u64 + self.y_spacing as u64 <= u32::MAX as u64;
        }
        let width = match fb {
            Some(f) => f.width,
            None => SCREEN_WIDTH,
        };
        if self.x_spacing > width {
            return false;
        }
        let lim_x = width - self.x_spacing;
        let (ox, oy): (u64, u64) = if self.x >= lim_x {
            (self.x_margin as u64, self.y as u64 + self.y_spacing as u64)
        } else {
            (self.x as u64, self.y as u64)
        };
        if oy > u32::MAX as u64 {
            return false;
        }
        char_fits_check(fb, ox as u32, oy as u32, ch) && ox + self.x_spacing as u64 <= u32::MAX as u64
    }

    /// The console after writing `ch`, without drawing it.
    pub fn advanced(&self, fb: &Option<FrameBuffer>, ch: char) -> (g: GraphicsConsole)
        requires
            self.char_ok(screen(*fb), ch),
        ensures
            g == self.after_char(screen(*fb), ch),
    {
        let mut g = *self;
        if ch == '\n' {
            g.y = self.y + self.y_spacing;
            g.x = self.x_margin;
        } else {
            let lim_x = match fb {
                Some(f) => f.width - self.x_spacing,
                None => SCREEN_WIDTH - self.x_spacing,
            };
            if g.x >= lim_x {
                g.x = self.x_margin;
                g.y = self.y + self.y_spacing;
            }
            g.x = g.x + self.x_spacing;
        }
        g
    }

    /// Where writing `text` would leave the console, if it keeps every
    /// position and pixel index within 32 bits; nothing is drawn.
    pub fn position_after(&self, fb: &Option<FrameBuffer>, text: &str) -> (r: Option<GraphicsConsole>)
        ensures
            r is Some <==> text_ok(*self, screen(*fb), text@),
            r matches Some(g) ==> g == typeset(*self, screen(*fb), text@).0,
    {
        let ghost s = screen(*fb);
        let mut g = *self;
        for ch in it: text.chars()
            invariant
                it.seq() == text@,
                s == screen(*fb),
                text_ok(*self, s, text@.take(it.index())),
                g == typeset(*self, s, text@.take(it.index())).0,
        {
            let ghost i = it.index();
            proof {
                assert(text@.take(i + 1).drop_last() =~= text@.take(i));
                lemma_text_geometry(*self, s, s, text@.take(i));
                let t = typeset(*self, s, text@.take(i)).1;
                lemma_char_geometry(g, t, s, ch);
            }
            if !g.can_write_char(fb, ch) {
                proof {
                    if text_ok(*self, s, text@) {
                        lemma_text_ok_prefix(*self, s, text@, i + 1);
                    }
                }
                return None;
            }
            g = g.advanced(fb, ch);
        }
        proof {
            assert(text@.take(text@.len() as int) =~= text@);
        }
        Some(g)
    }
}

} // verus!
