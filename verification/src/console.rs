//! The console: a line editor fed byte by byte from the serial port, that
//! echoes what is typed on the screen and runs the commands it is given.
use vstd::prelude::*;
use vstd::string::StringSliceAdditionalSpecFns;
use vstd::utf8::{valid_utf8, decode_utf8, encode_utf8, encode_utf8_decode_utf8};
use crate::framebuffer::{
    FrameBuffer, FrameBufferView, screen, screen_wf, screen_filled, fill_screen, Color, lemma_row_major,
};
use crate::graphics::{
    GraphicsConsole, background_blue, set_cursor, erase_cursor, draw_cursor, erase_char,
    erased_at, cursor_at, solid_glyph, cursor_glyph, text_white, cell_fits, cell_fits_check, same_geometry,
    lemma_text_geometry, lemma_char_geometry, lemma_screen_glyph_geometry, lemma_glyph_cell,
    glyph_bit, basic_font_glyph, lemma_full_row_set, typeset, text_ok,
};

verus! {

/// The longest line the console keeps, in bytes.
pub const MAX_LINE_LEN: usize = 126;

/// The error of `core::str::from_utf8`, carried as an opaque value.
#[verifier::external_type_specification]
#[verifier::external_body]
pub struct ExUtf8Error(core::str::Utf8Error);

/// Calls `core::str::from_utf8`: it succeeds exactly on byte slices that
/// are valid UTF-8, and the string it returns is made of those bytes.
#[verifier::external_body]
fn str_from_utf8(bytes: &[u8]) -> (r: Result<&str, core::str::Utf8Error>)
    ensures
        r is Ok <==> valid_utf8(bytes@),
        r matches Ok(s) ==> s.spec_bytes() == bytes@,
{
    core::str::from_utf8(bytes)
}

/// Whether `c` has the Unicode `White_Space` property.
pub open spec fn is_white_space(c: char) -> bool {
    let u = c as u32;
    ||| 0x09 <= u <= 0x0D
    ||| u == 0x20
    ||| u == 0x85
    ||| u == 0xA0
    ||| u == 0x1680
    ||| 0x2000 <= u <= 0x200A
    ||| u == 0x2028
    ||| u == 0x2029
    ||| u == 0x202F
    ||| u == 0x205F
    ||| u == 0x3000
}

pub open spec fn trim_start_chars(s: Seq<char>) -> Seq<char>
    decreases s.len(),
{
    if s.len() > 0 && is_white_space(s[0]) {
        trim_start_chars(s.drop_first())
    } else {
        s
    }
}

pub open spec fn trim_end_chars(s: Seq<char>) -> Seq<char>
    decreases s.len(),
{
    if s.len() > 0 && is_white_space(s.last()) {
        trim_end_chars(s.drop_last())
    } else {
        s
    }
}

/// `s` without its leading and trailing white space.
pub open spec fn trim_chars(s: Seq<char>) -> Seq<char> {
    trim_end_chars(trim_start_chars(s))
}

/// Calls `str::trim`: the string without the leading and trailing
/// characters that have the Unicode `White_Space` property.
#[verifier::external_body]
fn str_trim(s: &str) -> (r: &str)
    ensures
        r@ == trim_chars(s@),
{
    s.trim()
}

/// Whether the two strings hold the same characters, compared byte by byte.
pub fn str_equals(a: &str, b: &str) -> (r: bool)
    ensures
        r == (a@ == b@),
{
    let x = a.as_bytes();
    let y = b.as_bytes();
    proof {
        encode_utf8_decode_utf8(a@);
        encode_utf8_decode_utf8(b@);
    }
    if x.len() != y.len() {
        return false;
    }
    let mut i: usize = 0;
    while i < x.len()
        invariant
            x@ == encode_utf8(a@),
            y@ == encode_utf8(b@),
            x@.len() == y@.len(),
            i <= x@.len(),
            forall|j: int| 0 <= j < i ==> x@[j] == y@[j],
        decreases x@.len() - i,
    {
        if x[i] != y[i] {
            return false;
        }
        i += 1;
    }
    assert(x@ =~= y@);
    true
}

/// The line after pushing `byte`: one byte longer if it had room.
pub open spec fn pushed_line(line: Seq<u8>, byte: u8) -> Seq<u8> {
    if line.len() < MAX_LINE_LEN {
        line.push(byte)
    } else {
        line
    }
}

/// The line after popping: one byte shorter unless it was empty.
pub open spec fn popped_line(line: Seq<u8>) -> Seq<u8> {
    if line.len() > 0 {
        line.drop_last()
    } else {
        line
    }
}

/// Popping takes back a push that found room, and a line never grows past
/// `MAX_LINE_LEN` bytes.
pub proof fn lemma_pop_undoes_push(line: Seq<u8>, byte: u8)
    ensures
        line.len() < MAX_LINE_LEN ==> popped_line(pushed_line(line, byte)) == line,
        line.len() <= MAX_LINE_LEN ==> pushed_line(line, byte).len() <= MAX_LINE_LEN,
{
    assert(line.push(byte).drop_last() =~= line);
}

/// A line of ASCII bytes is valid UTF-8 and reads as the characters with
/// those codes.
pub proof fn lemma_ascii_line_text(line: Seq<u8>)
    requires
        forall|i: int| 0 <= i < line.len() ==> #[trigger] line[i] < 128,
    ensures
        valid_utf8(line),
        decode_utf8(line) == line.map_values(|b: u8| b as char),
{
    let chars = line.map_values(|b: u8| b as char);
    assert(vstd::utf8::is_ascii_chars(chars));
    vstd::utf8::is_ascii_chars_encode_utf8(chars);
    assert(encode_utf8(chars) =~= line);
    vstd::utf8::encode_utf8_valid_utf8(chars);
    encode_utf8_decode_utf8(chars);
}

/// The bytes of the line being typed, at most `MAX_LINE_LEN` of them.
#[derive(Clone, Copy)]
pub struct LineBuffer {
    buffer: [u8; MAX_LINE_LEN],
    len: usize,
}

impl View for LineBuffer {
    type V = Seq<u8>;

    closed spec fn view(&self) -> Seq<u8> {
        self.buffer@.take(self.len as int)
    }
}

impl LineBuffer {
    #[verifier::type_invariant]
    spec fn within_capacity(self) -> bool {
        self.len <= MAX_LINE_LEN
    }

    /// All `MAX_LINE_LEN` bytes of storage, the line and what lies past it.
    pub closed spec fn stored(&self) -> Seq<u8> {
        self.buffer@
    }

    pub fn new() -> (b: LineBuffer)
        ensures
            b@ == Seq::<u8>::empty(),
            b.stored() == Seq::new(MAX_LINE_LEN as nat, |i: int| 0u8),
    {
        let b = LineBuffer { buffer: [0; MAX_LINE_LEN], len: 0 };
        assert(b.stored() =~= Seq::new(MAX_LINE_LEN as nat, |i: int| 0u8));
        b
    }

    /// Appends `byte`, unless the line already holds `MAX_LINE_LEN` bytes.
    pub fn push(&mut self, byte: u8) -> (r: Result<(), &'static str>)
        ensures
            r is Ok <==> old(self)@.len() < MAX_LINE_LEN,
            final(self)@ == pushed_line(old(self)@, byte),
            r is Ok ==> final(self).stored() == old(self).stored().update(old(self)@.len() as int, byte),
            r matches Err(e) ==> e@ == "Buffer is Full"@ && *final(self) == *old(self),
    {
        proof {
            use_type_invariant(&*self);
        }
        if self.len < MAX_LINE_LEN {
            let ghost before = self@;
            self.buffer[self.len] = byte;
            self.len += 1;
            assert(self@ =~= before.push(byte));
            Ok(())
        } else {
            Err("Buffer is Full")
        }
    }

    /// Removes the last byte, if there is one.
    pub fn pop(&mut self)
        ensures
            final(self)@ == popped_line(old(self)@),
            final(self).stored() == old(self).stored(),
    {
        proof {
            use_type_invariant(&*self);
        }
        if self.len > 0 {
            let ghost before = self@;
            self.len -= 1;
            assert(self@ =~= before.drop_last());
        }
    }

    /// The line as text, if its bytes are valid UTF-8.
    pub fn as_str(&self) -> (r: Result<&str, core::str::Utf8Error>)
        ensures
            r is Ok <==> valid_utf8(self@),
            r matches Ok(s) ==> s@ == decode_utf8(self@),
    {
        proof {
            use_type_invariant(self);
        }
        let bytes = vstd::slice::slice_subrange(self.buffer.as_slice(), 0, self.len);
        assert(bytes@ =~= self@);
        let r = str_from_utf8(bytes);
        proof {
            if let Ok(s) = r {
                encode_utf8_decode_utf8(s@);
            }
        }
        r
    }

    /// Empties the line.
    pub fn clear(&mut self)
        ensures
            final(self)@ == Seq::<u8>::empty(),
            final(self).stored() == old(self).stored(),
    {
        self.len = 0;
        assert(self@ =~= Seq::<u8>::empty());
    }
}

/// Whether a line, once trimmed, is one of the commands that clear the
/// screen: `clear` or `cls`.
pub open spec fn is_clear_command(line: Seq<char>) -> bool {
    ||| trim_chars(line) == seq!['c', 'l', 'e', 'a', 'r']
    ||| trim_chars(line) == seq!['c', 'l', 's']
}

/// Whether `line`, once trimmed, is `clear` or `cls`.
pub fn is_clear_line(line: &str) -> (r: bool)
    ensures
        r == is_clear_command(line@),
{
    let cmd = str_trim(line);
    proof {
        reveal_strlit("clear");
        reveal_strlit("cls");
        assert("clear"@ =~= seq!['c', 'l', 'e', 'a', 'r']);
        assert("cls"@ =~= seq!['c', 'l', 's']);
    }
    str_equals(cmd, "clear") || str_equals(cmd, "cls")
}

/// Whether every character of `s` is white space.
pub open spec fn all_white_space(s: Seq<char>) -> bool {
    forall|i: int| 0 <= i < s.len() ==> is_white_space(#[trigger] s[i])
}

proof fn lemma_trim_start_skips(pre: Seq<char>, rest: Seq<char>)
    requires
        all_white_space(pre),
        rest.len() == 0 || !is_white_space(rest[0]),
    ensures
        trim_start_chars(pre + rest) == rest,
    decreases pre.len(),
{
    if pre.len() == 0 {
        assert(pre + rest =~= rest);
    } else {
        assert((pre + rest)[0] == pre[0]);
        assert((pre + rest).drop_first() =~= pre.drop_first() + rest);
        lemma_trim_start_skips(pre.drop_first(), rest);
    }
}

proof fn lemma_trim_end_skips(rest: Seq<char>, post: Seq<char>)
    requires
        all_white_space(post),
        rest.len() == 0 || !is_white_space(rest.last()),
    ensures
        trim_end_chars(rest + post) == rest,
    decreases post.len(),
{
    if post.len() == 0 {
        assert(rest + post =~= rest);
    } else {
        assert((rest + post).last() == post.last());
        assert((rest + post).drop_last() =~= rest + post.drop_last());
        lemma_trim_end_skips(rest, post.drop_last());
    }
}

proof fn lemma_trim_start_split(line: Seq<char>)
    ensures
        exists|pre: Seq<char>| all_white_space(pre) && line == pre + trim_start_chars(line),
    decreases line.len(),
{
    if line.len() > 0 && is_white_space(line[0]) {
        lemma_trim_start_split(line.drop_first());
        let pre = choose|pre: Seq<char>|
            all_white_space(pre) && line.drop_first() == pre + trim_start_chars(line.drop_first());
        let p2 = seq![line[0]] + pre;
        assert(trim_start_chars(line) == trim_start_chars(line.drop_first()));
        assert(line =~= seq![line[0]] + line.drop_first());
        assert(line =~= p2 + trim_start_chars(line));
        assert(all_white_space(p2));
    } else {
        assert(line =~= Seq::<char>::empty() + line);
        assert(all_white_space(Seq::<char>::empty()));
    }
}

proof fn lemma_trim_end_split(line: Seq<char>)
    ensures
        exists|post: Seq<char>| all_white_space(post) && line == trim_end_chars(line) + post,
    decreases line.len(),
{
    if line.len() > 0 && is_white_space(line.last()) {
        lemma_trim_end_split(line.drop_last());
        let post = choose|post: Seq<char>|
            all_white_space(post) && line.drop_last() == trim_end_chars(line.drop_last()) + post;
        let p2 = post + seq![line.last()];
        assert(trim_end_chars(line) == trim_end_chars(line.drop_last()));
        assert(line =~= line.drop_last() + seq![line.last()]);
        assert(line =~= trim_end_chars(line) + p2);
        assert(all_white_space(p2));
    } else {
        assert(line =~= line + Seq::<char>::empty());
        assert(all_white_space(Seq::<char>::empty()));
    }
}

/// `line` is `clear` or `cls` with `pre` before it and `post` after it,
/// both white space only.
pub open spec fn padded_command(line: Seq<char>, pre: Seq<char>, post: Seq<char>) -> bool {
    &&& all_white_space(pre)
    &&& all_white_space(post)
    &&& (line == pre + seq!['c', 'l', 'e', 'a', 'r'] + post || line == pre + seq!['c', 'l', 's'] + post)
}

/// A line is a clear command exactly when it is `clear` or `cls` with only
/// white space before and after it: `help`, `clear all` or `CLS` are not.
pub proof fn lemma_clear_command_shape(line: Seq<char>)
    ensures
        is_clear_command(line) <==> exists|pre: Seq<char>, post: Seq<char>|
            #[trigger] padded_command(line, pre, post),
{
    if is_clear_command(line) {
        lemma_trim_start_split(line);
        let pre = choose|pre: Seq<char>| all_white_space(pre) && line == pre + trim_start_chars(line);
        let t = trim_start_chars(line);
        lemma_trim_end_split(t);
        let post = choose|post: Seq<char>| all_white_space(post) && t == trim_end_chars(t) + post;
        assert(line =~= pre + trim_chars(line) + post);
        assert(padded_command(line, pre, post));
    }
    assert forall|pre: Seq<char>, post: Seq<char>| #[trigger]
        padded_command(line, pre, post) implies is_clear_command(line) by {
        let w = if line == pre + seq!['c', 'l', 'e', 'a', 'r'] + post {
            seq!['c', 'l', 'e', 'a', 'r']
        } else {
            seq!['c', 'l', 's']
        };
        assert(line =~= pre + (w + post));
        assert((w + post)[0] == 'c');
        lemma_trim_start_skips(pre, w + post);
        assert(w.last() == 'r' || w.last() == 's');
        lemma_trim_end_skips(w, post);
    }
}

/// The console and the screen after clearing: the whole screen blue and the
/// position back at (8, 8).
pub open spec fn cleared(gc: GraphicsConsole, s: Option<FrameBufferView>) -> (GraphicsConsole, Option<FrameBufferView>) {
    (gc.at(8, 8), screen_filled(s, background_blue().argb()))
}

/// Line feed and carriage return end the line.
pub open spec fn is_enter_key(b: u8) -> bool {
    b == 10 || b == 13
}

/// Backspace and delete remove the last character.
pub open spec fn is_backspace_key(b: u8) -> bool {
    b == 8 || b == 127
}

/// The line that `b` ends: the pending bytes with `b` itself appended when
/// there is room for it.
pub open spec fn line_with(pending: Seq<u8>, b: u8) -> Seq<u8> {
    if pending.len() < MAX_LINE_LEN {
        pending.push(b)
    } else {
        pending
    }
}

/// The steps that ending a line takes on the screen: remove the cursor,
/// go to the next line, run the line as a command, show the prompt, show
/// the cursor. Each step is the console and the screen after it.
pub open spec fn enter_steps(prompt: Seq<char>, pending: Seq<u8>, b: u8, g: GraphicsConsole, s: Option<FrameBufferView>) -> (
    Option<FrameBufferView>,
    (GraphicsConsole, Option<FrameBufferView>),
    (GraphicsConsole, Option<FrameBufferView>),
    (GraphicsConsole, Option<FrameBufferView>),
) {
    let s1 = erased_at(g, s);
    let a2 = typeset(g, s1, seq!['\n']);
    let a3 = if is_clear_command(decode_utf8(line_with(pending, b))) {
        cleared(a2.0, a2.1)
    } else {
        a2
    };
    let a4 = typeset(a3.0, a3.1, prompt);
    (s1, a2, a3, a4)
}

/// Ending a line runs without overflow or a line that is not UTF-8.
pub open spec fn enter_ok(prompt: Seq<char>, pending: Seq<u8>, b: u8, g: GraphicsConsole, s: Option<FrameBufferView>) -> bool {
    let (s1, a2, a3, a4) = enter_steps(prompt, pending, b, g, s);
    &&& valid_utf8(line_with(pending, b))
    &&& cell_fits(s, g.x as int, g.y as int)
    &&& text_ok(g, s1, seq!['\n'])
    &&& is_clear_command(decode_utf8(line_with(pending, b))) ==> screen_wf(a2.1)
    &&& text_ok(a3.0, a3.1, prompt)
    &&& cell_fits(a4.1, a4.0.x as int, a4.0.y as int)
}

/// The position one character back, if it is not at the left edge.
pub open spec fn back_one(g: GraphicsConsole) -> GraphicsConsole {
    if g.x >= 8 {
        g.at(g.x - 8, g.y as int)
    } else {
        g
    }
}

/// Echoing the typed byte `b`: remove the cursor, write `b` as a character,
/// show the cursor.
pub open spec fn echo_steps(b: u8, g: GraphicsConsole, s: Option<FrameBufferView>) -> (
    Option<FrameBufferView>,
    GraphicsConsole,
    Option<FrameBufferView>,
) {
    let s1 = erased_at(g, s);
    (s1, g.after_char(s1, b as char), g.screen_after_char(s1, b as char))
}

/// Handling the input byte `b` runs without overflow or a line that is not
/// UTF-8.
pub open spec fn input_ok(prompt: Seq<char>, pending: Seq<u8>, b: u8, g: GraphicsConsole, s: Option<FrameBufferView>) -> bool {
    if is_enter_key(b) {
        enter_ok(prompt, pending, b, g, s)
    } else if is_backspace_key(b) {
        pending.len() > 0 ==> cell_fits(s, g.x as int, g.y as int)
    } else if b == 37 || b == 39 {
        true
    } else {
        pending.len() < MAX_LINE_LEN ==> {
            let (s1, g2, s2) = echo_steps(b, g, s);
            &&& cell_fits(s, g.x as int, g.y as int)
            &&& g.char_ok(s1, b as char)
            &&& cell_fits(s2, g2.x as int, g2.y as int)
        }
    }
}

/// The pending line, the console and the screen after handling input `b`.
pub open spec fn after_input(prompt: Seq<char>, pending: Seq<u8>, b: u8, g: GraphicsConsole, s: Option<FrameBufferView>) -> (
    Seq<u8>,
    GraphicsConsole,
    Option<FrameBufferView>,
) {
    if is_enter_key(b) {
        let (s1, a2, a3, a4) = enter_steps(prompt, pending, b, g, s);
        (Seq::empty(), a4.0, cursor_at(a4.0, a4.1))
    } else if is_backspace_key(b) {
        if pending.len() > 0 {
            let g1 = back_one(g);
            (pending.drop_last(), g1, cursor_at(g1, erased_at(g1, erased_at(g, s))))
        } else {
            (pending, g, s)
        }
    } else if b == 37 || b == 39 {
        (pending, g, s)
    } else if pending.len() < MAX_LINE_LEN {
        let (s1, g2, s2) = echo_steps(b, g, s);
        (pending.push(b), g2, cursor_at(g2, s2))
    } else {
        (pending, g, s)
    }
}

/// Typing a byte that is echoed and then backspace leaves the pending line
/// as it was.
pub proof fn lemma_backspace_undoes_typing(
    prompt: Seq<char>,
    pending: Seq<u8>,
    b: u8,
    erase: u8,
    g: GraphicsConsole,
    s: Option<FrameBufferView>,
    g2: GraphicsConsole,
    s2: Option<FrameBufferView>,
)
    requires
        pending.len() < MAX_LINE_LEN,
        !is_enter_key(b) && !is_backspace_key(b) && b != 37 && b != 39,
        is_backspace_key(erase),
    ensures
        after_input(prompt, after_input(prompt, pending, b, g, s).0, erase, g2, s2).0 == pending,
{
    assert(pending.push(b).drop_last() =~= pending);
}

/// Ending a line leaves no pending input, whatever the line held.
pub proof fn lemma_enter_clears_line(
    prompt: Seq<char>,
    pending: Seq<u8>,
    b: u8,
    g: GraphicsConsole,
    s: Option<FrameBufferView>,
)
    requires
        is_enter_key(b),
    ensures
        after_input(prompt, pending, b, g, s).0 == Seq::<u8>::empty(),
{
}

/// The storage of the line buffer after input `b`: a byte that is appended
/// (an ended line's end, or a typed byte) is written at the end of the
/// pending line; backspace only shortens the line, and nothing else changes
/// the storage.
pub open spec fn stored_after_input(stored: Seq<u8>, pending: Seq<u8>, b: u8) -> Seq<u8> {
    if is_backspace_key(b) || b == 37 || b == 39 || pending.len() >= MAX_LINE_LEN {
        stored
    } else {
        stored.update(pending.len() as int, b)
    }
}

/// Input `b` leaves the console itself exactly as it was: backspace on an
/// empty line, an arrow key, or a typed byte that finds the line full.
pub open spec fn leaves_line(pending: Seq<u8>, b: u8) -> bool {
    ||| is_backspace_key(b) && pending.len() == 0
    ||| b == 37
    ||| b == 39
    ||| !is_enter_key(b) && !is_backspace_key(b) && pending.len() >= MAX_LINE_LEN
}

/// Echoing a typed byte leaves in the cell where it was drawn only its
/// glyph on the blue background: when the character does not wrap, the
/// advance is at least a cell, and the cell and the next one lie within one
/// row of the memory, pixel `(x + c, y + r)` of the cell at the console's
/// position holds the console's foreground colour where bit `c` of row `r`
/// of the glyph is set and blue everywhere else, whatever the screen held
/// there before (the old cursor leaves no trace, and the new cursor is drawn
/// in the next cell).
pub proof fn lemma_echo_cell(
    prompt: Seq<char>,
    pending: Seq<u8>,
    b: u8,
    g: GraphicsConsole,
    f: FrameBufferView,
    r: int,
    c: int,
)
    requires
        !is_enter_key(b) && !is_backspace_key(b) && b != 37 && b != 39,
        pending.len() < MAX_LINE_LEN,
        !g.wraps(Some(f)),
        g.x_spacing >= 8,
        g.x + g.x_spacing + 7 < f.stride(),
        0 <= r < 8,
        0 <= c < 8,
        f.offset(g.x + c, g.y + r) < f.pixels.len(),
    ensures
        after_input(prompt, pending, b, g, Some(f)).2 matches Some(f2) && f2.pixels[f.offset(
            g.x + c,
            g.y + r,
        )] == if b < 128 && glyph_bit(basic_font_glyph(b as char)[r], c) {
            g.fg_color.argb()
        } else {
            background_blue().argb()
        },
{
    let s = Some(f);
    let ch = b as char;
    let (x, y) = (g.x as int, g.y as int);
    let o = f.offset(x + c, y + r);
    let st = f.stride();
    lemma_row_major(st, x + c, y + r);
    let blue = background_blue().argb();
    let s1 = erased_at(g, s);
    lemma_screen_glyph_geometry(s, x, y, solid_glyph(), blue);
    let f1 = s1->0;
    lemma_glyph_cell(f, x, y, solid_glyph(), blue, o);
    lemma_full_row_set(c);
    assert(f1.pixels[o] == blue);
    assert(g.origin_x(s1) == x && g.origin_y(s1) == y);
    let s2 = g.screen_after_char(s1, ch);
    let fg = g.fg_color.argb();
    assert((ch as u32) == b);
    if b < 128 {
        lemma_glyph_cell(f1, x, y, basic_font_glyph(ch), fg, o);
        lemma_screen_glyph_geometry(s1, x, y, basic_font_glyph(ch), fg);
    }
    let f2 = s2->0;
    let g2 = g.after_char(s1, ch);
    assert(g2.x == x + g.x_spacing && g2.y == y);
    lemma_glyph_cell(f2, g2.x as int, g2.y as int, cursor_glyph(), text_white().argb(), o);
}

/// The line being typed and the prompt shown before each line.
pub struct Console {
    input_buffer: LineBuffer,
    pre_text: &'static str,
}

impl Console {
    /// The bytes typed on the current line so far.
    pub closed spec fn pending(&self) -> Seq<u8> {
        self.input_buffer@
    }

    /// The whole storage of the line buffer.
    pub closed spec fn stored(&self) -> Seq<u8> {
        self.input_buffer.stored()
    }

    /// The prompt.
    pub closed spec fn prompt(&self) -> Seq<char> {
        self.pre_text@
    }

    pub fn new() -> (c: Console)
        ensures
            c.pending() == Seq::<u8>::empty(),
            c.stored() == Seq::new(MAX_LINE_LEN as nat, |i: int| 0u8),
            c.prompt() == "input>"@,
    {
        Console { input_buffer: LineBuffer::new(), pre_text: "input>" }
    }

    /// Handles one byte from the serial port. Line feed or carriage return
    /// ends the line: it is appended if there is room, the line is run as a
    /// command on a new screen line, and the prompt is shown. Backspace or
    /// delete removes the last byte and steps the position back one cell.
    /// Bytes 37 and 39 (the arrow keys of the terminal) leave a note for the
    /// serial port, which is returned. Any other byte is appended and echoed
    /// if the line has room for it. The cursor is redrawn after each change.
    pub fn receive_input(&mut self, gc: &mut GraphicsConsole, fb: &mut Option<FrameBuffer>, input: u8) -> (note: Option<&'static str>)
        requires
            input_ok(old(self).prompt(), old(self).pending(), input, *old(gc), screen(*old(fb))),
        ensures
            (final(self).pending(), *final(gc), screen(*final(fb))) == after_input(
                old(self).prompt(),
                old(self).pending(),
                input,
                *old(gc),
                screen(*old(fb)),
            ),
            final(self).prompt() == old(self).prompt(),
            final(self).stored() == stored_after_input(old(self).stored(), old(self).pending(), input),
            leaves_line(old(self).pending(), input) ==> *final(self) == *old(self),
            note is Some <==> (input == 37 || input == 39),
            input == 37 ==> (note matches Some(m) && m@ == "Flecha izq"@),
            input == 39 ==> (note matches Some(m) && m@ == "Flecha der"@),
    {
        proof {
            use_type_invariant(&self.input_buffer);
        }
        match input {
            10 | 13 => {
                let _ = self.input_buffer.push(input);
                let line = self.input_buffer;
                self.input_buffer.clear();
                erase_cursor(gc, fb);
                proof {
                    reveal_strlit("\n");
                    assert("\n"@ =~= seq!['\n']);
                }
                gc.write_str(fb, "\n");
                let text = line.as_str().unwrap();
                self.process_command(text, gc, fb);
                gc.write_str(fb, self.pre_text);
                draw_cursor(gc, fb);
                None
            },
            8 | 127 => {
                if self.input_buffer.len > 0 {
                    erase_cursor(gc, fb);
                    self.input_buffer.pop();
                    if gc.x >= 8 {
                        gc.x = gc.x - 8;
                    }
                    proof {
                        lemma_screen_glyph_geometry(screen(*old(fb)), old(gc).x as int, old(gc).y as int, solid_glyph(), background_blue().argb());
                    }
                    erase_char(fb, gc.x, gc.y, &Color::new(0, 0, 255));
                    proof {
                        lemma_screen_glyph_geometry(erased_at(*old(gc), screen(*old(fb))), gc.x as int, gc.y as int, solid_glyph(), background_blue().argb());
                    }
                    draw_cursor(gc, fb);
                }
                None
            },
            37 => Some("Flecha izq"),
            39 => Some("Flecha der"),
            _ => {
                if self.input_buffer.push(input).is_ok() {
                    erase_cursor(gc, fb);
                    gc.write_char(fb, input as char);
                    draw_cursor(gc, fb);
                }
                None
            },
        }
    }

    /// Handles `input` as `receive_input` does if it can be handled (see
    /// `input_fits`), and gives back the note for the serial port;
    /// otherwise nothing changes and the result is `None`.
    pub fn try_receive_input(&mut self, gc: &mut GraphicsConsole, fb: &mut Option<FrameBuffer>, input: u8) -> (r: Option<Option<&'static str>>)
        ensures
            r is Some <==> input_ok(old(self).prompt(), old(self).pending(), input, *old(gc), screen(*old(fb))),
            r is Some ==> (final(self).pending(), *final(gc), screen(*final(fb))) == after_input(
                old(self).prompt(),
                old(self).pending(),
                input,
                *old(gc),
                screen(*old(fb)),
            ),
            r is Some ==> final(self).stored() == stored_after_input(old(self).stored(), old(self).pending(), input),
            r is Some && leaves_line(old(self).pending(), input) ==> *final(self) == *old(self),
            r is None ==> *final(self) == *old(self) && *final(gc) == *old(gc) && *final(fb) == *old(fb),
            final(self).prompt() == old(self).prompt(),
            r matches Some(note) ==> (note is Some <==> (input == 37 || input == 39)),
            input == 37 && r is Some ==> (r matches Some(Some(m)) && m@ == "Flecha izq"@),
            input == 39 && r is Some ==> (r matches Some(Some(m)) && m@ == "Flecha der"@),
    {
        if self.input_fits(gc, fb, input) {
            Some(self.receive_input(gc, fb, input))
        } else {
            None
        }
    }

    /// Whether `receive_input` can handle `input` in this state: the line it
    /// would end is valid UTF-8, and every position and pixel index stays
    /// within 32 bits.
    pub fn input_fits(&self, gc: &GraphicsConsole, fb: &Option<FrameBuffer>, input: u8) -> (r: bool)
        ensures
            r == input_ok(self.prompt(), self.pending(), input, *gc, screen(*fb)),
    {
        proof {
            use_type_invariant(&self.input_buffer);
        }
        let ghost s = screen(*fb);
        if input == 10 || input == 13 {
            let mut line = self.input_buffer;
            let _ = line.push(input);
            let text = match line.as_str() {
                Ok(t) => t,
                Err(_) => return false,
            };
            if !cell_fits_check(fb, gc.x, gc.y) {
                return false;
            }
            proof {
                reveal_strlit("\n");
                assert("\n"@ =~= seq!['\n']);
                lemma_screen_glyph_geometry(s, gc.x as int, gc.y as int, solid_glyph(), background_blue().argb());
                lemma_text_geometry(*gc, erased_at(*gc, s), s, seq!['\n']);
                lemma_text_geometry(*gc, s, erased_at(*gc, s), seq!['\n']);
            }
            let g2 = match gc.position_after(fb, "\n") {
                Some(g) => g,
                None => return false,
            };
            let ghost (s1, a2, a3, a4) = enter_steps(self.prompt(), self.pending(), input, *gc, s);
            let clear = is_clear_line(text);
            let mut g3 = g2;
            if clear {
                let well_formed = match fb {
                    Some(f) => f.is_well_formed(),
                    None => true,
                };
                if !well_formed {
                    return false;
                }
                g3.x = 8;
                g3.y = 8;
            }
            assert(g3 == a3.0);
            assert(same_geometry(a3.1, s));
            proof {
                lemma_text_geometry(a3.0, a3.1, s, self.prompt());
                lemma_text_geometry(a3.0, s, a3.1, self.prompt());
            }
            let g4 = match g3.position_after(fb, self.pre_text) {
                Some(g) => g,
                None => return false,
            };
            cell_fits_check(fb, g4.x, g4.y)
        } else if input == 8 || input == 127 {
            self.input_buffer.len == 0 || cell_fits_check(fb, gc.x, gc.y)
        } else if input == 37 || input == 39 {
            true
        } else if self.input_buffer.len >= MAX_LINE_LEN {
            true
        } else {
            let c = input as char;
            if !cell_fits_check(fb, gc.x, gc.y) {
                return false;
            }
            proof {
                lemma_screen_glyph_geometry(s, gc.x as int, gc.y as int, solid_glyph(), background_blue().argb());
                lemma_char_geometry(*gc, erased_at(*gc, s), s, c);
                lemma_char_geometry(*gc, s, erased_at(*gc, s), c);
            }
            if !gc.can_write_char(fb, c) {
                return false;
            }
            let g2 = gc.advanced(fb, c);
            cell_fits_check(fb, g2.x, g2.y)
        }
    }

    /// Runs the command on `input`: `clear` or `cls`, with any white space
    /// around it, clears the screen; anything else does nothing.
    pub fn process_command(&mut self, input: &str, gc: &mut GraphicsConsole, fb: &mut Option<FrameBuffer>)
        requires
            is_clear_command(input@) ==> screen_wf(screen(*old(fb))),
        ensures
            *final(self) == *old(self),
            (*final(gc), screen(*final(fb))) == if is_clear_command(input@) {
                cleared(*old(gc), screen(*old(fb)))
            } else {
                (*old(gc), screen(*old(fb)))
            },
    {
        if is_clear_line(input) {
            self.clear_screen(gc, fb);
        }
    }

    /// Paints the screen blue and moves the position to (8, 8).
    pub fn clear_screen(&self, gc: &mut GraphicsConsole, fb: &mut Option<FrameBuffer>)
        requires
            screen_wf(screen(*old(fb))),
        ensures
            (*final(gc), screen(*final(fb))) == cleared(*old(gc), screen(*old(fb))),
    {
        fill_screen(fb, &Color::new(0, 0, 255));
        set_cursor(gc, 8, 8);
    }
}

} // verus!
