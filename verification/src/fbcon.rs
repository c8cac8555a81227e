//! Framebuffer text console: an 8x8 bitmap font, drawn 2x, onto a linear
//! 32-bit framebuffer, plus the cursor/newline/wrap/scroll logic on top.
//!
//! `TextConsole` is the cursor logic (where the next character goes, when to
//! wrap, when to scroll) and only talks to a `Surface`. `FramebufferSurface`
//! is the part that sets pixels.
//!
//! Colors are white on black. Both are byte-order symmetric as a 32-bit pixel
//! (`0x00FFFFFF` / `0`), so RGB-versus-BGR framebuffers need no distinction.

use crate::hal::framebuffer::FramebufferInfo;
use vstd::prelude::*;
use vstd::string::*;

verus! {

pub const GLYPH_PIXELS: usize = 8;

pub const SCALE: usize = 2;

/// Side of one character cell, in framebuffer pixels.
pub const CELL_PIXELS: usize = 16;

pub const FOREGROUND: u32 = 0x00FF_FFFF;

pub const BACKGROUND: u32 = 0x0000_0000;

/// What a surface has been asked to do.
pub enum Op {
    Draw(usize, usize, u8),
    Scroll,
    Clear,
}

/// Something that can draw character cells on a grid. Kept tiny so the cursor
/// logic above it stays independent of any real memory. Each implementation
/// says what its grid is.
pub trait Surface {
    /// How many columns and rows the grid has.
    open spec fn grid(&self) -> (usize, usize) {
        arbitrary()
    }

    /// What has been done so far, in order.
    open spec fn ops(&self) -> Seq<Op> {
        arbitrary()
    }

    fn cols(&self) -> (r: usize)
        ensures
            r == self.grid().0,
    ;

    fn rows(&self) -> (r: usize)
        ensures
            r == self.grid().1,
    ;

    /// Draws `byte` in the cell at (`col`, `row`), replacing whatever was
    /// there. Callers guarantee `col < cols()` and `row < rows()`.
    fn draw_glyph(&mut self, col: usize, row: usize, byte: u8)
        ensures
            final(self).grid() == old(self).grid(),
            final(self).ops() == old(self).ops().push(Op::Draw(col, row, byte)),
    ;

    /// Moves every row up by one and blanks the last row.
    fn scroll_up_one_row(&mut self)
        ensures
            final(self).grid() == old(self).grid(),
            final(self).ops() == old(self).ops().push(Op::Scroll),
    ;

    fn clear(&mut self)
        ensures
            final(self).grid() == old(self).grid(),
            final(self).ops() == old(self).ops().push(Op::Clear),
    ;
}

/// A cursor on a grid, and what has been drawn there.
#[verifier::ext_equal]
pub struct Screen {
    pub cols: int,
    pub rows: int,
    pub col: int,
    pub row: int,
    pub ops: Seq<Op>,
}

pub const NEWLINE: u8 = 0x0A;

pub const CARRIAGE_RETURN: u8 = 0x0D;

pub const BACKSPACE: u8 = 0x08;

impl Screen {
    /// The cursor is on a row of the grid, and on a column or one past the
    /// last.
    pub open spec fn wf(self) -> bool {
        &&& 0 <= self.col
        &&& 0 <= self.row
        &&& self.col <= self.cols || self.col <= 1
        &&& self.row < self.rows || self.row == 0
    }

    pub open spec fn newline(self) -> Screen {
        if self.row + 1 >= self.rows {
            Screen { col: 0, ops: self.ops.push(Op::Scroll), ..self }
        } else {
            Screen { col: 0, row: self.row + 1, ..self }
        }
    }

    /// One cell left without erasing. At column 0 that is the end of the
    /// previous row, so an input line that wrapped can still be erased
    /// through the wrap point; at the very first cell nothing happens.
    pub open spec fn backspace(self) -> Screen {
        if self.col > 0 {
            Screen { col: self.col - 1, ..self }
        } else if self.row > 0 {
            Screen { row: self.row - 1, col: self.cols - 1, ..self }
        } else {
            self
        }
    }

    /// A character in the cell at the cursor. A line exactly as wide as the
    /// grid leaves the cursor one past the end: the wrap happens only when
    /// the next character actually needs a cell.
    pub open spec fn draw(self, byte: u8) -> Screen {
        let at = if self.col >= self.cols {
            self.newline()
        } else {
            self
        };
        Screen {
            col: at.col + 1,
            ops: at.ops.push(Op::Draw(at.col as usize, at.row as usize, byte)),
            ..at
        }
    }

    pub open spec fn put(self, byte: u8) -> Screen {
        if byte == NEWLINE {
            self.newline()
        } else if byte == CARRIAGE_RETURN {
            Screen { col: 0, ..self }
        } else if byte == BACKSPACE {
            self.backspace()
        } else {
            self.draw(byte)
        }
    }

    /// Whether there is a cell to put `byte` in or to step back onto: a grid
    /// without columns has none at the end of the previous row.
    pub open spec fn can_put(self, byte: u8) -> bool {
        byte == BACKSPACE && self.col == 0 && self.row > 0 ==> self.cols > 0
    }

    /// The same of every byte of a text in turn.
    pub open spec fn can_write(self, text: Seq<u8>) -> bool
        decreases text.len(),
    {
        text.len() == 0 || (self.can_put(text[0]) && self.put(text[0]).can_write(
            text.drop_first(),
        ))
    }

    pub open spec fn write(self, text: Seq<u8>) -> Screen
        decreases text.len(),
    {
        if text.len() == 0 {
            self
        } else {
            self.put(text[0]).write(text.drop_first())
        }
    }

    pub open spec fn clear(self) -> Screen {
        Screen { col: 0, row: 0, ops: self.ops.push(Op::Clear), ..self }
    }
}

pub struct TextConsole<S: Surface> {
    pub surface: S,
    pub col: usize,
    pub row: usize,
}

impl<S: Surface> TextConsole<S> {
    pub open spec fn screen(&self) -> Screen {
        Screen {
            cols: self.surface.grid().0 as int,
            rows: self.surface.grid().1 as int,
            col: self.col as int,
            row: self.row as int,
            ops: self.surface.ops(),
        }
    }

    pub fn new(surface: S) -> (r: Self)
        ensures
            r.screen() == (Screen {
                cols: surface.grid().0 as int,
                rows: surface.grid().1 as int,
                col: 0,
                row: 0,
                ops: surface.ops().push(Op::Clear),
            }),
            r.screen().wf(),
    {
        let mut surface = surface;
        surface.clear();
        TextConsole { surface, col: 0, row: 0 }
    }

    /// Writes text. On a grid without columns, none of its backspaces may
    /// step back onto the previous row: there is no cell there.
    pub fn write_str(&mut self, s: &str)
        requires
            old(self).screen().wf(),
            old(self).screen().cols > 0 || old(self).screen().can_write(s.spec_bytes()),
        ensures
            final(self).screen() == old(self).screen().write(s.spec_bytes()),
            final(self).screen().wf(),
    {
        let bytes = s.as_bytes();
        let mut i: usize = 0;
        assert(bytes@.skip(0) =~= bytes@);
        while i < bytes.len()
            invariant
                i <= bytes@.len(),
                bytes@ == s.spec_bytes(),
                self.screen().wf(),
                self.screen().cols == old(self).screen().cols,
                self.screen().cols > 0 || self.screen().can_write(bytes@.skip(i as int)),
                old(self).screen().write(s.spec_bytes()) == self.screen().write(
                    bytes@.skip(i as int),
                ),
            decreases bytes.len() - i,
        {
            proof {
                assert(bytes@.skip(i as int).drop_first() =~= bytes@.skip(i + 1));
            }
            self.put_byte(bytes[i]);
            i += 1;
        }
    }

    pub fn clear(&mut self)
        requires
            old(self).screen().wf(),
        ensures
            final(self).screen() == old(self).screen().clear(),
            final(self).screen().wf(),
    {
        self.surface.clear();
        self.col = 0;
        self.row = 0;
    }

    /// Puts one byte: a character, or one of the three that move the cursor.
    pub fn put_byte(&mut self, byte: u8)
        requires
            old(self).screen().wf(),
            old(self).screen().can_put(byte),
        ensures
            final(self).screen() == old(self).screen().put(byte),
            final(self).screen().wf(),
    {
        match byte {
            NEWLINE => self.newline(),
            CARRIAGE_RETURN => {
                self.col = 0;
            },
            BACKSPACE => self.backspace(),
            _ => {
                // A line exactly `cols` wide leaves the cursor one past the
                // end ("pending wrap"): the wrap happens only when the next
                // character actually needs a cell.
                if self.col >= self.surface.cols() {
                    self.newline();
                }
                self.surface.draw_glyph(self.col, self.row, byte);
                self.col = self.col + 1;
            },
        }
    }

    fn newline(&mut self)
        requires
            old(self).screen().wf(),
        ensures
            final(self).screen() == old(self).screen().newline(),
            final(self).screen().wf(),
    {
        self.col = 0;
        if self.surface.rows() <= 1 || self.row >= self.surface.rows() - 1 {
            self.surface.scroll_up_one_row();
        } else {
            self.row = self.row + 1;
        }
    }

    /// Moves the cursor one cell left without erasing (the shell erases with
    /// `BS, ' ', BS`).
    fn backspace(&mut self)
        requires
            old(self).screen().wf(),
            old(self).screen().can_put(BACKSPACE),
        ensures
            final(self).screen() == old(self).screen().backspace(),
            final(self).screen().wf(),
    {
        if self.col > 0 {
            self.col = self.col - 1;
        } else if self.row > 0 {
            self.row = self.row - 1;
            self.col = self.surface.cols() - 1;
        }
    }
}

/// Whether a byte is drawn, and does not move the cursor some other way.
pub open spec fn is_drawn(byte: u8) -> bool {
    byte != NEWLINE && byte != CARRIAGE_RETURN && byte != BACKSPACE
}

/// Everything that is drawn is drawn inside the grid, and the cursor never
/// leaves it.
pub proof fn drawing_stays_inside_the_grid(screen: Screen, byte: u8)
    requires
        screen.wf(),
        0 < screen.cols <= usize::MAX,
        0 < screen.rows <= usize::MAX,
    ensures
        screen.put(byte).wf(),
        is_drawn(byte) ==> {
            &&& screen.put(byte).ops.last() matches Op::Draw(col, row, drawn)
            &&& col == screen.put(byte).col - 1
            &&& row == screen.put(byte).row
            &&& drawn == byte
            &&& 0 <= screen.put(byte).col - 1 < screen.cols
            &&& 0 <= screen.put(byte).row < screen.rows
        },
{
}

/// Writing two texts in turn is writing the joined text.
pub proof fn writing_goes_on_where_it_stopped(screen: Screen, first: Seq<u8>, second: Seq<u8>)
    ensures
        screen.write(first).write(second) == screen.write(first + second),
        first.len() == 1 ==> screen.write(first) == screen.put(first[0]),
        first.len() == 0 ==> screen.write(first) == screen,
    decreases first.len(),
{
    let joined = first + second;
    if first.len() == 0 {
        assert(joined =~= second);
    } else {
        assert(joined.drop_first() =~= first.drop_first() + second);
        writing_goes_on_where_it_stopped(screen.put(first[0]), first.drop_first(), second);
    }
}

/// Every character of a text is drawn inside the grid, whatever the text, and
/// what was drawn before stays as it was.
pub proof fn every_draw_is_inside_the_grid(screen: Screen, text: Seq<u8>)
    requires
        screen.wf(),
        0 < screen.cols <= usize::MAX,
        0 < screen.rows <= usize::MAX,
    ensures
        screen.write(text).wf(),
        screen.ops.len() <= screen.write(text).ops.len(),
        screen.write(text).ops.take(screen.ops.len() as int) == screen.ops,
        forall|k: int|
            screen.ops.len() <= k < screen.write(text).ops.len() ==> {
                (#[trigger] screen.write(text).ops[k]) matches Op::Draw(col, row, _) ==> col
                    < screen.cols && row < screen.rows
            },
    decreases text.len(),
{
    let n = screen.ops.len() as int;
    if text.len() == 0 {
        assert(screen.ops.take(n) =~= screen.ops);
    } else {
        let next = screen.put(text[0]);
        let after = screen.write(text);
        drawing_stays_inside_the_grid(screen, text[0]);
        every_draw_is_inside_the_grid(next, text.drop_first());
        let k = next.ops.len() as int;
        assert(next.ops.take(n) =~= screen.ops);
        assert(after.ops.take(n) =~= after.ops.take(k).take(n));
        assert forall|j: int| n <= j < after.ops.len() implies {
            (#[trigger] after.ops[j]) matches Op::Draw(col, row, _) ==> col < screen.cols && row
                < screen.rows
        } by {
            if j < k {
                assert(after.ops[j] == after.ops.take(k)[j]);
            }
        }
    }
}

/// The same cursor on the same grid, with nothing drawn yet.
spec fn blank(screen: Screen) -> Screen {
    Screen { ops: Seq::empty(), ..screen }
}

/// What is drawn depends on where the cursor is, and on nothing drawn before.
proof fn drawing_depends_on_the_cursor(screen: Screen, text: Seq<u8>)
    ensures
        screen.write(text) == (Screen {
            ops: screen.ops + blank(screen).write(text).ops,
            ..blank(screen).write(text)
        }),
    decreases text.len(),
{
    let bare = blank(screen);
    if text.len() == 0 {
        assert(screen.ops + bare.ops =~= screen.ops);
    } else {
        let (byte, rest) = (text[0], text.drop_first());
        let (next, bare_next) = (screen.put(byte), bare.put(byte));
        assert(next.ops =~= screen.ops + bare_next.ops);
        assert(blank(next) == blank(bare_next));
        drawing_depends_on_the_cursor(next, rest);
        drawing_depends_on_the_cursor(bare_next, rest);
        let more = blank(next).write(rest).ops;
        assert(next.ops + more =~= screen.ops + (bare_next.ops + more));
    }
}

/// A cleared console draws like a fresh one: whatever was written to it, the
/// same text then makes the same calls and leaves the cursor at the same
/// place. Clearing itself is one call. The first character is drawn in the
/// first cell.
pub proof fn a_cleared_console_draws_like_a_fresh_one(
    screen: Screen,
    fresh: Screen,
    text: Seq<u8>,
)
    requires
        fresh.cols == screen.cols,
        fresh.rows == screen.rows,
        fresh.col == 0,
        fresh.row == 0,
    ensures
        screen.clear().ops == screen.ops.push(Op::Clear),
        screen.clear().can_write(text) == fresh.can_write(text),
        ({
            let a = screen.clear().write(text);
            let b = fresh.write(text);
            let n = screen.clear().ops.len() as int;
            &&& a.col == b.col
            &&& a.row == b.row
            &&& a.ops.skip(n) == b.ops.skip(fresh.ops.len() as int)
            &&& a.ops.take(n) == screen.ops.push(Op::Clear)
            &&& text.len() > 0 && is_drawn(text[0]) && screen.cols > 0 ==> a.ops[n] == Op::Draw(0, 0, text[0])
        }),
{
    let cleared = screen.clear();
    let n = cleared.ops.len() as int;
    drawing_depends_on_the_cursor(cleared, text);
    drawing_depends_on_the_cursor(fresh, text);
    assert(blank(cleared) == blank(fresh));
    let drawn = blank(fresh).write(text).ops;
    assert((cleared.ops + drawn).skip(n) =~= drawn);
    assert((cleared.ops + drawn).take(n) =~= cleared.ops);
    assert((fresh.ops + drawn).skip(fresh.ops.len() as int) =~= drawn);
    stepping_back_depends_on_the_cursor(cleared, fresh, text);
    if text.len() > 0 && is_drawn(text[0]) && screen.cols > 0 {
        let one = cleared.put(text[0]);
        drawing_depends_on_the_cursor(one, text.drop_first());
        assert(one.ops[n] == Op::Draw(0, 0, text[0]));
    }
}

proof fn stepping_back_depends_on_the_cursor(a: Screen, b: Screen, text: Seq<u8>)
    requires
        blank(a) == blank(b),
    ensures
        a.can_write(text) == b.can_write(text),
    decreases text.len(),
{
    if text.len() > 0 {
        let (x, y) = (a.put(text[0]), b.put(text[0]));
        assert(blank(x) == blank(y));
        stepping_back_depends_on_the_cursor(x, y, text.drop_first());
    }
}

/// How the cursor moves. A character is drawn at the cursor, which steps past
/// it; past the last column it is drawn at the start of the next row. A new
/// line goes to the start of the next row, a carriage return to the start of
/// this one, a backspace one cell back, over the end of the previous row at the
/// start of a row. On the last row the grid scrolls instead.
pub proof fn the_cursor_moves_as_on_paper(screen: Screen, byte: u8)
    requires
        screen.wf(),
        0 <= screen.cols <= usize::MAX,
        0 <= screen.rows <= usize::MAX,
    ensures
        ({
            let next = screen.put(byte);
            let last = screen.row + 1 >= screen.rows;
            let below: int = if last {
                screen.row
            } else {
                screen.row + 1
            };
            &&& next.cols == screen.cols
            &&& next.rows == screen.rows
            &&& byte == 0x0A ==> next.col == 0 && next.row == below && next.ops == if last {
                screen.ops.push(Op::Scroll)
            } else {
                screen.ops
            }
            &&& byte == 0x0D ==> next.col == 0 && next.row == screen.row && next.ops == screen.ops
            &&& byte == 0x08 ==> next.ops == screen.ops
            &&& byte == 0x08 && screen.col > 0 ==> next.col == screen.col - 1 && next.row
                == screen.row
            &&& byte == 0x08 && screen.col == 0 && screen.row > 0 ==> next.col == screen.cols - 1
                && next.row == screen.row - 1
            &&& byte == 0x08 && screen.col == 0 && screen.row == 0 ==> next.col == 0 && next.row
                == 0
            &&& byte != 0x0A && byte != 0x0D && byte != 0x08 && screen.col < screen.cols
                ==> next.col == screen.col + 1 && next.row == screen.row && next.ops
                == screen.ops.push(Op::Draw(screen.col as usize, screen.row as usize, byte))
            &&& byte != 0x0A && byte != 0x0D && byte != 0x08 && screen.col >= screen.cols
                ==> next.col == 1 && next.row == below && next.ops.last() == Op::Draw(
                0,
                below as usize,
                byte,
            ) && next.ops.drop_last() == if last {
                screen.ops.push(Op::Scroll)
            } else {
                screen.ops
            }
        }),
{
    let next = screen.put(byte);
    let scrolled = screen.ops.push(Op::Scroll);
    if byte != 0x0A && byte != 0x0D && byte != 0x08 && screen.col >= screen.cols {
        assert(next.ops.drop_last() =~= if screen.row + 1 >= screen.rows {
            scrolled
        } else {
            screen.ops
        });
    }
}

/// What the shell does to erase a character it has just typed (step back,
/// blank, step back) draws a space over that very cell and leaves the cursor
/// on it.
pub proof fn the_erase_sequence_blanks_the_last_character(screen: Screen, byte: u8)
    requires
        screen.wf(),
        0 < screen.cols <= usize::MAX,
        0 < screen.rows <= usize::MAX,
        is_drawn(byte),
    ensures
        ({
            let typed = screen.put(byte);
            let erased = typed.write(seq![BACKSPACE, 0x20, BACKSPACE]);
            &&& erased.col == typed.col - 1
            &&& erased.row == typed.row
            &&& erased.ops == typed.ops.push(
                Op::Draw((typed.col - 1) as usize, typed.row as usize, 0x20),
            )
        }),
{
    let typed = screen.put(byte);
    let sequence = seq![BACKSPACE, 0x20u8, BACKSPACE];
    let back = typed.put(BACKSPACE);
    let blank = back.put(0x20);
    assert(sequence.drop_first() =~= seq![0x20u8, BACKSPACE]);
    assert(sequence.drop_first().drop_first() =~= seq![BACKSPACE]);
    assert(sequence.drop_first().drop_first().drop_first() =~= Seq::<u8>::empty());
    reveal_with_fuel(Screen::write, 4);
    assert(typed.write(sequence) == blank.put(BACKSPACE));
}

/// A line scrolls the grid only from the last row.
pub proof fn scrolling_happens_only_on_the_last_row(screen: Screen, byte: u8)
    requires
        screen.wf(),
        screen.rows > 0,
    ensures
        screen.put(byte).row < screen.row ==> byte == BACKSPACE,
        screen.row + 1 < screen.rows && byte == NEWLINE ==> screen.put(byte) == (Screen {
            col: 0,
            row: screen.row + 1,
            ..screen
        }),
        screen.row + 1 >= screen.rows && byte == NEWLINE ==> screen.put(byte) == (Screen {
            col: 0,
            ops: screen.ops.push(Op::Scroll),
            ..screen
        }),
{
}

/// The bitmap of an ASCII character: eight rows, top to bottom, the lowest
/// bit of each leftmost.
pub uninterp spec fn basic_glyph(byte: u8) -> Seq<u8>;

/// Reads `font8x8::legacy::BASIC_LEGACY`, the table of the bitmaps of the 128
/// ASCII characters. The table has nothing to display for the control
/// characters and the space, and something in the first row of the question
/// mark.
#[verifier::external_body]
fn basic_legacy(byte: u8) -> (r: [u8; 8])
    requires
        byte < 128,
    ensures
        r@ == basic_glyph(byte),
        byte <= 0x20 ==> r@ == seq![0u8, 0, 0, 0, 0, 0, 0, 0],
        byte == 0x3F ==> r@[0] == 0x1E,
{
    font8x8::legacy::BASIC_LEGACY[byte as usize]
}

/// The bitmap that a byte is drawn with. The table covers ASCII only.
/// Anything else draws as `?`, so an unexpected byte is visibly wrong instead
/// of silently blank.
pub open spec fn glyph_of(byte: u8) -> Seq<u8> {
    if byte < 128 {
        basic_glyph(byte)
    } else {
        basic_glyph(0x3F)
    }
}

pub fn glyph_for(byte: u8) -> (r: [u8; 8])
    ensures
        r@ == glyph_of(byte),
        byte <= 0x20 ==> r@ == seq![0u8, 0, 0, 0, 0, 0, 0, 0],
        byte >= 128 ==> r@[0] == 0x1E,
{
    if byte < 128 {
        basic_legacy(byte)
    } else {
        basic_legacy(0x3F)
    }
}

/// Whether a bitmap has the pixel `x` of its row `y` set.
pub open spec fn is_lit(glyph: Seq<u8>, x: int, y: int) -> bool {
    glyph[y] & (1u8 << (x as u8)) != 0
}

/// The color of the pixel `(x, y)` of a cell that shows a bitmap.
pub open spec fn cell_color(glyph: Seq<u8>, x: int, y: int) -> u32 {
    if is_lit(glyph, x / SCALE as int, y / SCALE as int) {
        FOREGROUND
    } else {
        BACKGROUND
    }
}

/// Whether the pixel `(x, y)` belongs to the cell at `(col, row)`.
pub open spec fn in_cell(x: int, y: int, col: int, row: int) -> bool {
    &&& col * CELL_PIXELS <= x < (col + 1) * CELL_PIXELS
    &&& row * CELL_PIXELS <= y < (row + 1) * CELL_PIXELS
}

/// Draws text cells straight into a linear framebuffer.
pub struct FramebufferSurface<'a> {
    pixels: &'a mut [u32],
    width: usize,
    height: usize,
    stride: usize,
    cols: usize,
    rows: usize,
    log: Ghost<Seq<Op>>,
}

/// Whether a description is internally consistent: not empty, no scanline
/// narrower than what is visible of it, a region that holds every pixel, an
/// aligned base, and room for at least one character cell.
pub open spec fn is_consistent(info: FramebufferInfo) -> bool {
    &&& info.width >= CELL_PIXELS
    &&& info.height >= CELL_PIXELS
    &&& info.stride >= info.width
    &&& info.stride * info.height * 4 <= info.size_bytes
    &&& info.base_addr % 4 == 0
}

/// Pixels of one scanline never share an index with those of another.
proof fn pixels_are_apart(stride: int, x: int, y: int, a: int, b: int)
    requires
        0 <= x < stride,
        0 <= a < stride,
        0 <= y,
        0 <= b,
    ensures
        y * stride + x == b * stride + a <==> x == a && y == b,
{
    if y < b {
        assert(y * stride + x < b * stride + a) by (nonlinear_arith)
            requires
                0 <= x < stride,
                0 <= a,
                y + 1 <= b,
        ;
    } else if b < y {
        assert(b * stride + a < y * stride + x) by (nonlinear_arith)
            requires
                0 <= a < stride,
                0 <= x,
                b + 1 <= y,
        ;
    }
}

/// A pixel inside the picture has an index inside the region.
proof fn pixels_are_inside(stride: int, height: int, x: int, y: int)
    requires
        0 <= x < stride,
        0 <= y < height,
    ensures
        0 <= y * stride + x < stride * height,
        0 <= y * stride,
{
    assert(0 <= y * stride && y * stride + x < stride * height) by (nonlinear_arith)
        requires
            0 <= x < stride,
            0 <= y < height,
    ;
}

impl<'a> FramebufferSurface<'a> {
    #[verifier::type_invariant]
    spec fn fits(self) -> bool {
        &&& self.width <= self.stride
        &&& self.cols == self.width / 16
        &&& self.rows == self.height / 16
        &&& self.cols > 0
        &&& self.rows > 0
        &&& self.stride * self.height <= self.pixels@.len()
    }

    /// Visible width and height, and the pixels of a scanline.
    pub closed spec fn extent(&self) -> (int, int, int) {
        (self.width as int, self.height as int, self.stride as int)
    }

    /// Every pixel of the region, scanline by scanline.
    pub closed spec fn region(&self) -> Seq<u32> {
        self.pixels@
    }

    /// The pixel at `(x, y)`, which may be in the part of a scanline that is
    /// not visible.
    pub open spec fn pixel(&self, x: int, y: int) -> u32 {
        self.region()[y * self.extent().2 + x]
    }

    /// Whether this surface is `before` with the pixels of the picture
    /// changed to `color`, and nothing after the picture changed.
    pub open spec fn repainted(&self, before: &Self, color: spec_fn(int, int) -> u32) -> bool {
        &&& self.extent() == before.extent()
        &&& self.region().len() == before.region().len()
        &&& forall|x: int, y: int|
            0 <= x < self.extent().2 && 0 <= y < self.extent().1 ==> #[trigger] self.pixel(x, y)
                == color(x, y)
        &&& forall|i: int|
            self.extent().2 * self.extent().1 <= i < self.region().len()
                ==> #[trigger] self.region()[i] == before.region()[i]
    }

    /// Returns `None` if `info` is not internally consistent (zero size,
    /// `stride < width`, a region too small for `stride * height` pixels, a
    /// misaligned base, or no room for even one character cell): a descriptor
    /// that lies about its own bounds must not become an out-of-bounds write.
    ///
    /// `pixels` is the region that `info` describes.
    pub fn new(info: &FramebufferInfo, pixels: &'a mut [u32]) -> (r: Option<Self>)
        requires
            old(pixels)@.len() >= info.size_bytes / 4,
        ensures
            r is Some <==> is_consistent(*info),
            r matches Some(surface) ==> {
                &&& surface.extent() == (info.width as int, info.height as int, info.stride as int)
                &&& surface.region() == old(pixels)@
                &&& surface.grid() == (
                    (info.width / 16) as usize,
                    (info.height / 16) as usize,
                )
                &&& surface.ops() == Seq::<Op>::empty()
            },
            r is None ==> final(pixels)@ == old(pixels)@,
    {
        let width: usize = info.width as usize;
        let height: usize = info.height as usize;
        let stride: usize = info.stride as usize;
        let ghost count = info.stride * info.height;
        assert(0 <= count) by (nonlinear_arith)
            requires
                count == info.stride * info.height,
                info.stride >= 0,
                info.height >= 0,
        ;
        let pixel_count: u64 = match (stride as u64).checked_mul(height as u64) {
            Some(pixel_count) => pixel_count,
            None => {
                return None;
            },
        };
        let needed_bytes: u64 = match pixel_count.checked_mul(4) {
            Some(needed_bytes) => needed_bytes,
            None => {
                return None;
            },
        };
        if width == 0 || height == 0 || stride < width || needed_bytes > info.size_bytes
            || !info.base_addr.is_multiple_of(4) {
            return None;
        }
        let cols: usize = width / CELL_PIXELS;
        let rows: usize = height / CELL_PIXELS;
        if cols == 0 || rows == 0 {
            return None;
        }
        Some(
            FramebufferSurface {
                pixels,
                width,
                height,
                stride,
                cols,
                rows,
                log: Ghost(Seq::empty()),
            },
        )
    }

    fn put_pixel(&mut self, x: usize, y: usize, color: u32)
        requires
            x < old(self).extent().0,
            y < old(self).extent().1,
        ensures
            final(self).grid() == old(self).grid(),
            final(self).ops() == old(self).ops(),
            final(self).repainted(
                old(self),
                |a: int, b: int|
                    if a == x && b == y {
                        color
                    } else {
                        old(self).pixel(a, b)
                    },
            ),
    {
        proof {
            use_type_invariant(&*self);
            pixels_are_inside(self.stride as int, self.height as int, x as int, y as int);
        }
        let count: usize = self.pixels.len();
        assert(y * self.stride + x < count);
        let index: usize = y * self.stride + x;
        self.pixels[index] = color;
        proof {
            let stride = self.stride as int;
            let height = self.height as int;
            assert forall|a: int, b: int| 0 <= a < stride && 0 <= b < height implies #[trigger] self.pixel(
                a,
                b,
            ) == if a == x && b == y {
                color
            } else {
                old(self).pixel(a, b)
            } by {
                pixels_are_apart(stride, x as int, y as int, a, b);
                pixels_are_inside(stride, height, a, b);
            }
        }
    }
}

/// The picture with one cell showing a bitmap.
pub open spec fn with_glyph(before: &FramebufferSurface, col: int, row: int, glyph: Seq<u8>) -> spec_fn(
    int,
    int,
) -> u32 {
    |x: int, y: int|
        if in_cell(x, y, col, row) {
            cell_color(glyph, x - col * CELL_PIXELS, y - row * CELL_PIXELS)
        } else {
            before.pixel(x, y)
        }
}

/// The picture with every text row moved up by one and the last one blank.
/// Whatever is below the last text row stays.
pub open spec fn scrolled(before: &FramebufferSurface) -> spec_fn(int, int) -> u32 {
    |x: int, y: int|
        {
            let text_height = before.grid().1 * CELL_PIXELS;
            if y < text_height - CELL_PIXELS {
                before.pixel(x, y + CELL_PIXELS)
            } else if y < text_height && x < before.extent().0 {
                BACKGROUND
            } else {
                before.pixel(x, y)
            }
        }
}

/// The picture with the visible part of the scanlines `first..end` in one
/// color.
pub open spec fn filled(before: &FramebufferSurface, first: int, end: int, color: u32) -> spec_fn(
    int,
    int,
) -> u32 {
    |x: int, y: int|
        if first <= y < end && x < before.extent().0 {
            color
        } else {
            before.pixel(x, y)
        }
}

/// Scrolling moves every text row but the first up by one: whatever a row
/// showed, the one above it shows, cell by cell and to the end of each
/// scanline. The visible part of the last row is blank, and what is below the
/// last text row stays.
pub proof fn every_row_moves_up(before: &FramebufferSurface, x: int, y: int)
    requires
        0 <= x,
        0 <= y,
    ensures
        ({
            let rows = before.grid().1 as int;
            &&& 16 <= y < 16 * rows ==> scrolled(before)(x, y - 16) == before.pixel(x, y)
            &&& 16 * (rows - 1) <= y < 16 * rows && x < before.extent().0 ==> scrolled(before)(x, y)
                == 0
            &&& 16 * (rows - 1) <= y < 16 * rows && x >= before.extent().0 ==> scrolled(before)(
                x,
                y,
            ) == before.pixel(x, y)
            &&& y >= 16 * rows ==> scrolled(before)(x, y) == before.pixel(x, y)
        }),
{
}

/// A glyph that is drawn in a row is in the row above once the grid has
/// scrolled.
pub proof fn a_glyph_scrolls_with_its_row(
    before: &FramebufferSurface,
    drawn: &FramebufferSurface,
    col: int,
    row: int,
    glyph: Seq<u8>,
    x: int,
    y: int,
)
    requires
        0 <= col,
        0 < row < before.grid().1,
        drawn.grid() == before.grid(),
        drawn.repainted(before, with_glyph(before, col, row, glyph)),
        16 * col <= x < 16 * (col + 1),
        16 * row <= y < 16 * (row + 1),
        x < before.extent().2,
        y < before.extent().1,
    ensures
        scrolled(drawn)(x, y - 16) == cell_color(glyph, x - 16 * col, y - 16 * row),
{
    every_row_moves_up(drawn, x, y);
    assert(drawn.pixel(x, y) == with_glyph(before, col, row, glyph)(x, y));
}

/// What drawing a bitmap shows: each of its bits is a square of two by two
/// pixels, white where the bit is set and black where it is not, the lowest bit
/// of a row leftmost. No pixel of another cell changes.
pub proof fn a_bitmap_is_drawn_bit_by_bit(
    before: &FramebufferSurface,
    col: int,
    row: int,
    glyph: Seq<u8>,
    bit: int,
    line: int,
    x: int,
    y: int,
)
    requires
        glyph.len() == 8,
        0 <= bit < 8,
        0 <= line < 8,
    ensures
        16 * col + 2 * bit <= x < 16 * col + 2 * bit + 2 && 16 * row + 2 * line <= y < 16 * row + 2
            * line + 2 ==> with_glyph(before, col, row, glyph)(x, y) == if glyph[line] & (1u8 << (
        bit as u8)) != 0 {
            0x00FF_FFFFu32
        } else {
            0
        },
        !(16 * col <= x < 16 * col + 16 && 16 * row <= y < 16 * row + 16) ==> with_glyph(
            before,
            col,
            row,
            glyph,
        )(x, y) == before.pixel(x, y),
{
    if 16 * col + 2 * bit <= x < 16 * col + 2 * bit + 2 && 16 * row + 2 * line <= y < 16 * row + 2
        * line + 2 {
        assert((x - 16 * col) / 2 == bit);
        assert((y - 16 * row) / 2 == line);
        assert(in_cell(x, y, col, row));
    }
}

/// Clearing blanks every visible pixel and no other.
pub proof fn clearing_blanks_what_is_visible(before: &FramebufferSurface, x: int, y: int)
    requires
        0 <= x,
        0 <= y < before.extent().1,
    ensures
        ({
            let after = filled(before, 0, before.extent().1, BACKGROUND);
            &&& x < before.extent().0 ==> after(x, y) == 0
            &&& x >= before.extent().0 ==> after(x, y) == before.pixel(x, y)
        }),
{
}

/// A picture that is repainted has the new color at every pixel of every
/// scanline, visible or not, the same size, and the same pixels after it.
pub proof fn a_repainted_picture_is_all_new(
    after: &FramebufferSurface,
    before: &FramebufferSurface,
    color: spec_fn(int, int) -> u32,
    x: int,
    y: int,
    i: int,
)
    requires
        after.repainted(before, color),
    ensures
        after.extent() == before.extent(),
        after.region().len() == before.region().len(),
        0 <= x < before.extent().2 && 0 <= y < before.extent().1 ==> after.pixel(x, y) == color(x, y),
        before.extent().2 * before.extent().1 <= i < before.region().len() ==> after.region()[i]
            == before.region()[i],
{
}

/// The pixels of a picture follow each other scanline by scanline.
pub proof fn pixels_follow_each_other(surface: &FramebufferSurface, x: int, y: int)
    ensures
        surface.pixel(x, y) == surface.region()[surface.extent().2 * y + x],
{
    assert(surface.extent().2 * y == y * surface.extent().2) by (nonlinear_arith);
}

/// A description is usable exactly where it has room for a cell of sixteen by
/// sixteen pixels, scanlines as wide as what is visible of them, a region of
/// four bytes for each pixel, and an aligned base.
pub proof fn a_description_is_usable_where_it_adds_up(info: FramebufferInfo)
    ensures
        is_consistent(info) <==> {
            &&& info.width >= 16
            &&& info.height >= 16
            &&& info.stride >= info.width
            &&& 4 * (info.stride * info.height) <= info.size_bytes
            &&& info.base_addr % 4 == 0
        },
{
    assert(info.stride * info.height * 4 == 4 * (info.stride * info.height)) by (nonlinear_arith);
}

/// Bytes past ASCII are drawn as the question mark, the others as themselves.
pub proof fn unknown_bytes_are_drawn_as_a_question_mark(byte: u8)
    ensures
        byte >= 0x80 ==> glyph_of(byte) == glyph_of(0x3F),
        byte < 0x80 ==> glyph_of(byte) == basic_glyph(byte),
{
}

impl<'a> FramebufferSurface<'a> {
    /// Fills the visible part of some scanlines.
    fn fill_pixel_rows(&mut self, first_y: usize, end_y: usize, color: u32)
        requires
            first_y <= end_y <= old(self).extent().1,
        ensures
            final(self).grid() == old(self).grid(),
            final(self).ops() == old(self).ops(),
            final(self).repainted(
                old(self),
                filled(old(self), first_y as int, end_y as int, color),
            ),
    {
        let width: usize = self.width;
        let mut y: usize = first_y;
        while y < end_y
            invariant
                first_y <= y <= end_y <= self.extent().1,
                width == self.extent().0,
                self.grid() == old(self).grid(),
                self.ops() == old(self).ops(),
                self.repainted(old(self), filled(old(self), first_y as int, y as int, color)),
            decreases end_y - y,
        {
            let mut x: usize = 0;
            let ghost before = *self;
            while x < width
                invariant
                    x <= width,
                    width == self.extent().0,
                    y < self.extent().1,
                    self.extent() == before.extent(),
                    before.extent() == old(self).extent(),
                    self.grid() == old(self).grid(),
                    self.ops() == old(self).ops(),
                    self.region().len() == old(self).region().len(),
                    forall|a: int, b: int|
                        0 <= a < self.extent().2 && 0 <= b < self.extent().1
                            ==> #[trigger] self.pixel(a, b) == if b == y && a < x {
                            color
                        } else {
                            before.pixel(a, b)
                        },
                    forall|i: int|
                        self.extent().2 * self.extent().1 <= i < self.region().len()
                            ==> #[trigger] self.region()[i] == before.region()[i],
                decreases width - x,
            {
                self.put_pixel(x, y, color);
                x += 1;
            }
            y += 1;
        }
    }

    /// Draws a bitmap in the cell at (`col`, `row`), if there is such a cell.
    pub fn draw_bits(&mut self, col: usize, row: usize, glyph: &[u8; 8])
        ensures
            final(self).grid() == old(self).grid(),
            final(self).ops() == old(self).ops(),
            if col < old(self).grid().0 && row < old(self).grid().1 {
                final(self).repainted(
                    old(self),
                    with_glyph(old(self), col as int, row as int, glyph@),
                )
            } else {
                final(self).extent() == old(self).extent() && final(self).region() == old(
                    self,
                ).region()
            },
    {
        if col >= self.cols || row >= self.rows {
            return ;
        }
        proof {
            use_type_invariant(&*self);
        }
        let x0: usize = col * CELL_PIXELS;
        let y0: usize = row * CELL_PIXELS;
        let mut y: usize = 0;
        while y < CELL_PIXELS
            invariant
                y <= CELL_PIXELS,
                x0 == col * CELL_PIXELS,
                y0 == row * CELL_PIXELS,
                x0 + CELL_PIXELS <= self.extent().0,
                y0 + CELL_PIXELS <= self.extent().1,
                self.extent() == old(self).extent(),
                self.grid() == old(self).grid(),
                self.ops() == old(self).ops(),
                self.region().len() == old(self).region().len(),
                col < old(self).grid().0,
                row < old(self).grid().1,
                forall|a: int, b: int|
                    0 <= a < self.extent().2 && 0 <= b < self.extent().1 ==> #[trigger] self.pixel(
                        a,
                        b,
                    ) == if in_cell(a, b, col as int, row as int) && b < y0 + y {
                        cell_color(glyph@, a - x0, b - y0)
                    } else {
                        old(self).pixel(a, b)
                    },
                forall|i: int|
                    self.extent().2 * self.extent().1 <= i < self.region().len()
                        ==> #[trigger] self.region()[i] == old(self).region()[i],
            decreases CELL_PIXELS - y,
        {
            let bits: u8 = glyph[y / SCALE];
            let mut x: usize = 0;
            while x < CELL_PIXELS
                invariant
                    x <= CELL_PIXELS,
                    y < CELL_PIXELS,
                    bits == glyph@[y as int / SCALE as int],
                    x0 == col * CELL_PIXELS,
                    y0 == row * CELL_PIXELS,
                    x0 + CELL_PIXELS <= self.extent().0,
                    y0 + CELL_PIXELS <= self.extent().1,
                    self.extent() == old(self).extent(),
                    self.grid() == old(self).grid(),
                    self.ops() == old(self).ops(),
                    self.region().len() == old(self).region().len(),
                    forall|a: int, b: int|
                        0 <= a < self.extent().2 && 0 <= b < self.extent().1
                            ==> #[trigger] self.pixel(a, b) == if in_cell(
                            a,
                            b,
                            col as int,
                            row as int,
                        ) && (b < y0 + y || (b == y0 + y && a < x0 + x)) {
                            cell_color(glyph@, a - x0, b - y0)
                        } else {
                            old(self).pixel(a, b)
                        },
                    forall|i: int|
                        self.extent().2 * self.extent().1 <= i < self.region().len()
                            ==> #[trigger] self.region()[i] == old(self).region()[i],
                decreases CELL_PIXELS - x,
            {
                // Bit 0 is the leftmost pixel of the row.
                let bit: u8 = (x / SCALE) as u8;
                let color: u32 = if bits & (1u8 << bit) != 0 {
                    FOREGROUND
                } else {
                    BACKGROUND
                };
                assert(color == cell_color(glyph@, x as int, y as int));
                self.put_pixel(x0 + x, y0 + y, color);
                x += 1;
            }
            y += 1;
        }
    }
}

/// What a surface remembers of what was asked of it is no part of the
/// picture.
proof fn remembering_changes_no_pixel(
    before: &FramebufferSurface,
    painted: &FramebufferSurface,
    after: &FramebufferSurface,
    color: spec_fn(int, int) -> u32,
)
    requires
        painted.repainted(before, color),
        after.extent() == painted.extent(),
        after.region() == painted.region(),
    ensures
        after.repainted(before, color),
{
    assert forall|x: int, y: int|
        0 <= x < after.extent().2 && 0 <= y < after.extent().1 implies #[trigger] after.pixel(x, y)
        == color(x, y) by {
        assert(painted.pixel(x, y) == color(x, y));
    }
}

impl Surface for FramebufferSurface<'_> {
    closed spec fn grid(&self) -> (usize, usize) {
        (self.cols, self.rows)
    }

    closed spec fn ops(&self) -> Seq<Op> {
        self.log@
    }

    fn cols(&self) -> (r: usize) {
        self.cols
    }

    fn rows(&self) -> (r: usize) {
        self.rows
    }

    /// Nothing is drawn outside the grid. Control characters and the space
    /// blank their cell; a byte that is not ASCII leaves something to be seen
    /// there.
    fn draw_glyph(&mut self, col: usize, row: usize, byte: u8)
        ensures
            byte <= 0x20 && col < old(self).grid().0 && row < old(self).grid().1 ==> forall|
                x: int,
                y: int,
            |
                in_cell(x, y, col as int, row as int) ==> #[trigger] final(self).pixel(x, y)
                    == BACKGROUND,
            byte >= 128 && col < old(self).grid().0 && row < old(self).grid().1
                ==> final(self).pixel(col * CELL_PIXELS + 2, row * CELL_PIXELS as int) == FOREGROUND,
            if col < old(self).grid().0 && row < old(self).grid().1 {
                final(self).repainted(
                    old(self),
                    with_glyph(old(self), col as int, row as int, glyph_of(byte)),
                )
            } else {
                final(self).extent() == old(self).extent() && final(self).region() == old(
                    self,
                ).region()
            },
    {
        let glyph = glyph_for(byte);
        self.draw_bits(col, row, &glyph);
        let ghost drawn = *self;
        proof {
            use_type_invariant(&*self);
            self.log@ = self.log@.push(Op::Draw(col, row, byte));
            if col < self.cols && row < self.rows {
                remembering_changes_no_pixel(
                    old(self),
                    &drawn,
                    self,
                    with_glyph(old(self), col as int, row as int, glyph@),
                );
                if byte <= 0x20 {
                    assert forall|x: int, y: int|
                        in_cell(x, y, col as int, row as int) implies #[trigger] self.pixel(x, y)
                        == BACKGROUND by {
                        let bit = ((x - col * CELL_PIXELS) / SCALE as int) as u8;
                        assert(0u8 & (1u8 << bit) == 0) by (bit_vector);
                    }
                } else if byte >= 128 {
                    assert(in_cell(
                        col * CELL_PIXELS + 2,
                        row * CELL_PIXELS as int,
                        col as int,
                        row as int,
                    ));
                    assert(0x1Eu8 & (1u8 << 1u8) != 0) by (bit_vector);
                }
            }
        }
    }

    fn scroll_up_one_row(&mut self)
        ensures
            final(self).repainted(old(self), scrolled(old(self))),
    {
        proof {
            use_type_invariant(&*self);
        }
        let text_height: usize = self.rows * CELL_PIXELS;
        let moved: usize = text_height - CELL_PIXELS;
        let stride: usize = self.stride;
        let mut y: usize = 0;
        while y < moved
            invariant
                y <= moved,
                moved + CELL_PIXELS == text_height,
                text_height <= self.extent().1,
                stride == self.extent().2,
                self.extent() == old(self).extent(),
                self.grid() == old(self).grid(),
                self.ops() == old(self).ops(),
                self.region().len() == old(self).region().len(),
                forall|a: int, b: int|
                    0 <= a < self.extent().2 && 0 <= b < self.extent().1 ==> #[trigger] self.pixel(
                        a,
                        b,
                    ) == if b < y {
                        old(self).pixel(a, b + CELL_PIXELS)
                    } else {
                        old(self).pixel(a, b)
                    },
                forall|i: int|
                    self.extent().2 * self.extent().1 <= i < self.region().len()
                        ==> #[trigger] self.region()[i] == old(self).region()[i],
            decreases moved - y,
        {
            let mut x: usize = 0;
            while x < stride
                invariant
                    x <= stride,
                    y < moved,
                    moved + CELL_PIXELS == text_height,
                    text_height <= self.extent().1,
                    stride == self.extent().2,
                    self.extent() == old(self).extent(),
                    self.grid() == old(self).grid(),
                    self.ops() == old(self).ops(),
                    self.region().len() == old(self).region().len(),
                    forall|a: int, b: int|
                        0 <= a < self.extent().2 && 0 <= b < self.extent().1
                            ==> #[trigger] self.pixel(a, b) == if b < y || (b == y && a < x) {
                            old(self).pixel(a, b + CELL_PIXELS)
                        } else {
                            old(self).pixel(a, b)
                        },
                    forall|i: int|
                        self.extent().2 * self.extent().1 <= i < self.region().len()
                            ==> #[trigger] self.region()[i] == old(self).region()[i],
                decreases stride - x,
            {
                self.copy_pixel_up(x, y);
                x += 1;
            }
            y += 1;
        }
        let ghost before = *self;
        self.fill_pixel_rows(moved, text_height, BACKGROUND);
        proof {
            assert forall|a: int, b: int| 0 <= a < self.extent().2 && 0 <= b < self.extent().1 implies #[trigger] self.pixel(
                a,
                b,
            ) == scrolled(old(self))(a, b) by {
                assert(before.pixel(a, b) == if b < moved {
                    old(self).pixel(a, b + CELL_PIXELS)
                } else {
                    old(self).pixel(a, b)
                });
            }
            let painted = *self;
            use_type_invariant(&*self);
            self.log@ = self.log@.push(Op::Scroll);
            remembering_changes_no_pixel(old(self), &painted, self, scrolled(old(self)));
        }
    }

    /// The part of each scanline that is not visible stays as it is.
    fn clear(&mut self)
        ensures
            final(self).repainted(
                old(self),
                filled(old(self), 0, old(self).extent().1, BACKGROUND),
            ),
    {
        let height: usize = self.height;
        self.fill_pixel_rows(0, height, BACKGROUND);
        let ghost cleared = *self;
        proof {
            use_type_invariant(&*self);
            self.log@ = self.log@.push(Op::Clear);
            remembering_changes_no_pixel(
                old(self),
                &cleared,
                self,
                filled(old(self), 0, old(self).extent().1, BACKGROUND),
            );
        }
    }
}

impl<'a> FramebufferSurface<'a> {
    /// Copies the pixel one text row below to `(x, y)`.
    fn copy_pixel_up(&mut self, x: usize, y: usize)
        requires
            x < old(self).extent().2,
            y + CELL_PIXELS < old(self).extent().1,
        ensures
            final(self).grid() == old(self).grid(),
            final(self).ops() == old(self).ops(),
            final(self).repainted(
                old(self),
                |a: int, b: int|
                    if a == x && b == y {
                        old(self).pixel(a, b + CELL_PIXELS)
                    } else {
                        old(self).pixel(a, b)
                    },
            ),
    {
        proof {
            use_type_invariant(&*self);
            let stride = self.stride as int;
            let height = self.height as int;
            pixels_are_inside(stride, height, x as int, y as int);
            pixels_are_inside(stride, height, x as int, y + CELL_PIXELS);
        }
        let count: usize = self.pixels.len();
        assert((y + CELL_PIXELS) * self.stride + x < count);
        assert(y * self.stride + x < count);
        let color: u32 = self.pixels[(y + CELL_PIXELS) * self.stride + x];
        let index: usize = y * self.stride + x;
        self.pixels[index] = color;
        proof {
            let stride = self.stride as int;
            let height = self.height as int;
            assert forall|a: int, b: int| 0 <= a < stride && 0 <= b < height implies #[trigger] self.pixel(
                a,
                b,
            ) == if a == x && b == y {
                old(self).pixel(a, b + CELL_PIXELS)
            } else {
                old(self).pixel(a, b)
            } by {
                pixels_are_apart(stride, x as int, y as int, a, b);
                pixels_are_inside(stride, height, a, b);
            }
        }
    }
}

} // verus!
