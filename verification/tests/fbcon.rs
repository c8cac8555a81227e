use font8x8::legacy::BASIC_LEGACY;
use harlan::fbcon::{
    FramebufferSurface, Surface, TextConsole, BACKGROUND, CELL_PIXELS, FOREGROUND, SCALE,
};
use harlan::hal::framebuffer::FramebufferInfo;

#[derive(Debug, PartialEq, Eq)]
enum Op {
    Draw(usize, usize, u8),
    Scroll,
    Clear,
}

struct FakeSurface {
    cols: usize,
    rows: usize,
    ops: Vec<Op>,
}

impl FakeSurface {
    fn new(cols: usize, rows: usize) -> Self {
        Self {
            cols,
            rows,
            ops: Vec::new(),
        }
    }
}

impl Surface for FakeSurface {
    fn cols(&self) -> usize {
        self.cols
    }
    fn rows(&self) -> usize {
        self.rows
    }
    fn draw_glyph(&mut self, col: usize, row: usize, byte: u8) {
        self.ops.push(Op::Draw(col, row, byte));
    }
    fn scroll_up_one_row(&mut self) {
        self.ops.push(Op::Scroll);
    }
    fn clear(&mut self) {
        self.ops.push(Op::Clear);
    }
}

/// A console over a 4x3 fake surface, with the constructor's own
/// initial `Clear` already discarded so tests see only what they cause.
fn console(cols: usize, rows: usize) -> TextConsole<FakeSurface> {
    let mut c = TextConsole::new(FakeSurface::new(cols, rows));
    c.surface.ops.clear();
    c
}

#[test]
fn new_clears_the_surface() {
    let c = TextConsole::new(FakeSurface::new(4, 3));
    assert_eq!(c.surface.ops, vec![Op::Clear]);
}

#[test]
fn text_advances_one_column_per_character() {
    let mut c = console(4, 3);
    c.write_str("ab");
    assert_eq!(
        c.surface.ops,
        vec![Op::Draw(0, 0, b'a'), Op::Draw(1, 0, b'b')]
    );
}

#[test]
fn newline_moves_to_column_zero_of_the_next_row() {
    let mut c = console(4, 3);
    c.write_str("a\nb");
    assert_eq!(
        c.surface.ops,
        vec![Op::Draw(0, 0, b'a'), Op::Draw(0, 1, b'b')]
    );
}

#[test]
fn a_full_line_wraps_only_when_the_next_character_needs_a_cell() {
    let mut c = console(3, 3);
    c.write_str("abc");
    // Exactly one line: no wrap yet, nothing scrolled.
    assert_eq!(
        c.surface.ops,
        vec![
            Op::Draw(0, 0, b'a'),
            Op::Draw(1, 0, b'b'),
            Op::Draw(2, 0, b'c')
        ]
    );
    c.surface.ops.clear();
    c.write_str("d");
    assert_eq!(c.surface.ops, vec![Op::Draw(0, 1, b'd')]);
}

#[test]
fn newline_on_the_last_row_scrolls_instead_of_moving_down() {
    let mut c = console(4, 2);
    c.write_str("a\nb\nc");
    assert_eq!(
        c.surface.ops,
        vec![
            Op::Draw(0, 0, b'a'),
            Op::Draw(0, 1, b'b'),
            Op::Scroll,
            Op::Draw(0, 1, b'c'),
        ]
    );
}

#[test]
fn wrap_on_the_last_row_scrolls_too() {
    let mut c = console(2, 1);
    c.write_str("abc");
    assert_eq!(
        c.surface.ops,
        vec![
            Op::Draw(0, 0, b'a'),
            Op::Draw(1, 0, b'b'),
            Op::Scroll,
            Op::Draw(0, 0, b'c'),
        ]
    );
}

#[test]
fn backspace_moves_left_without_drawing() {
    let mut c = console(4, 3);
    c.write_str("ab\u{8}c");
    assert_eq!(
        c.surface.ops,
        vec![
            Op::Draw(0, 0, b'a'),
            Op::Draw(1, 0, b'b'),
            Op::Draw(1, 0, b'c'),
        ]
    );
}

#[test]
fn the_shells_erase_sequence_blanks_the_last_character() {
    // The shell erases one typed character with BS, space, BS.
    let mut c = console(8, 3);
    c.write_str("abc");
    c.surface.ops.clear();
    c.write_str("\u{8} \u{8}");
    assert_eq!(c.surface.ops, vec![Op::Draw(2, 0, b' ')]);
    c.surface.ops.clear();
    c.write_str("x");
    assert_eq!(c.surface.ops, vec![Op::Draw(2, 0, b'x')]);
}

#[test]
fn backspace_at_the_very_first_cell_does_nothing() {
    let mut c = console(4, 3);
    c.write_str("\u{8}a");
    assert_eq!(c.surface.ops, vec![Op::Draw(0, 0, b'a')]);
}

#[test]
fn backspace_at_column_zero_steps_back_onto_the_previous_wrapped_row() {
    let mut c = console(3, 3);
    c.write_str("abcd"); // 'd' wrapped to (0, 1)
    c.surface.ops.clear();
    c.write_str("\u{8} \u{8}"); // erase 'd'
    assert_eq!(c.surface.ops, vec![Op::Draw(0, 1, b' ')]);
    c.surface.ops.clear();
    c.write_str("\u{8} \u{8}"); // erase 'c' across the wrap point
    assert_eq!(c.surface.ops, vec![Op::Draw(2, 0, b' ')]);
    c.surface.ops.clear();
    c.write_str("z");
    assert_eq!(c.surface.ops, vec![Op::Draw(2, 0, b'z')]);
}

#[test]
fn carriage_return_returns_to_column_zero_without_changing_row() {
    let mut c = console(4, 3);
    c.write_str("ab\rc");
    assert_eq!(
        c.surface.ops,
        vec![
            Op::Draw(0, 0, b'a'),
            Op::Draw(1, 0, b'b'),
            Op::Draw(0, 0, b'c'),
        ]
    );
}

#[test]
fn clear_blanks_the_surface_and_homes_the_cursor() {
    let mut c = console(4, 3);
    c.write_str("a\nb");
    c.surface.ops.clear();
    c.clear();
    c.write_str("c");
    assert_eq!(c.surface.ops, vec![Op::Clear, Op::Draw(0, 0, b'c')]);
}

#[test]
fn a_cleared_console_draws_like_a_fresh_one() {
    let text = "abcde\n\u{8}f\rg\u{8}\u{8}hij\nkl\nmn";
    let mut fresh = console(4, 3);
    fresh.write_str(text);
    let mut cleared = console(4, 3);
    cleared.write_str("ab\ncdefg");
    cleared.clear();
    cleared.surface.ops.clear();
    cleared.write_str(text);
    assert_eq!(cleared.surface.ops, fresh.surface.ops);
    assert_eq!((cleared.col, cleared.row), (fresh.col, fresh.row));
}

#[test]
fn writing_goes_on_where_it_stopped() {
    let text = "abcdef\ngh\u{8}ijklm\n\nno";
    let mut whole = console(4, 3);
    whole.write_str(text);
    for cut in 0..text.len() {
        let mut parts = console(4, 3);
        parts.write_str(&text[..cut]);
        parts.write_str(&text[cut..]);
        assert_eq!(parts.surface.ops, whole.surface.ops);
        for op in &parts.surface.ops {
            if let Op::Draw(col, row, _) = op {
                assert!(*col < 4 && *row < 3);
            }
        }
    }
}

#[test]
fn a_grid_without_columns_can_be_stepped_back_on_within_a_row() {
    let mut c = console(0, 3);
    c.write_str("\u{8}");
    assert_eq!((c.col, c.row), (0, 0));
    c.write_str("a\u{8}");
    assert_eq!((c.col, c.row), (0, 1));
}

// ---- FramebufferSurface, over a real (host) pixel buffer ----------

const W: usize = 64; // 4 columns
const H: usize = 48; // 3 rows
const STRIDE: usize = 70; // deliberately wider than the visible width

fn info_for(buf: &[u32]) -> FramebufferInfo {
    FramebufferInfo {
        base_addr: 0x8000_0000,
        width: W as u32,
        height: H as u32,
        stride: STRIDE as u32,
        size_bytes: (buf.len() * 4) as u64,
    }
}

fn surface(buf: &mut [u32]) -> FramebufferSurface<'_> {
    let info = info_for(buf);
    // SAFETY: `buf` outlives the surface within each test and nothing
    // else touches it while the surface is in use.
    FramebufferSurface::new(&info, buf).expect("consistent info")
}

fn expected_a_at_cell(x: usize, y: usize, col: usize, row: usize) -> u32 {
    let (x0, y0) = (col * CELL_PIXELS, row * CELL_PIXELS);
    if x < x0 || x >= x0 + CELL_PIXELS || y < y0 || y >= y0 + CELL_PIXELS {
        return 0;
    }
    let gx = (x - x0) / SCALE;
    let gy = (y - y0) / SCALE;
    if BASIC_LEGACY[b'A' as usize][gy] & (1 << gx) != 0 {
        FOREGROUND
    } else {
        BACKGROUND
    }
}

#[test]
fn a_glyph_lands_in_exactly_its_own_cell_scaled_and_never_in_stride_padding() {
    let mut buf = vec![0u32; STRIDE * H];
    let mut s = surface(&mut buf);
    s.draw_glyph(1, 1, b'A');
    for y in 0..H {
        for x in 0..STRIDE {
            assert_eq!(
                buf[y * STRIDE + x],
                expected_a_at_cell(x, y, 1, 1),
                "pixel ({x},{y})"
            );
        }
    }
    assert!(
        buf.contains(&FOREGROUND),
        "the glyph must light some pixels"
    );
}

#[test]
fn control_characters_draw_blank_and_non_ascii_draws_a_question_mark() {
    let mut buf = vec![0xDEAD_BEEFu32; STRIDE * H];
    let mut s = surface(&mut buf);
    s.draw_glyph(0, 0, 0x07);
    // Blank glyph still overwrites the cell (with background).
    for y in 0..CELL_PIXELS {
        for x in 0..CELL_PIXELS {
            assert_eq!(buf[y * STRIDE + x], BACKGROUND);
        }
    }
    let mut s = surface(&mut buf);
    s.draw_glyph(1, 0, 0xE9);
    let lit = (0..CELL_PIXELS)
        .flat_map(|y| (CELL_PIXELS..2 * CELL_PIXELS).map(move |x| (x, y)))
        .filter(|&(x, y)| buf[y * STRIDE + x] == FOREGROUND)
        .count();
    assert!(lit > 0, "a non-ASCII byte must draw the visible '?' glyph");
}

#[test]
fn scrolling_moves_a_row_up_and_blanks_the_bottom() {
    let mut buf = vec![0u32; STRIDE * H];
    let mut s = surface(&mut buf);
    s.draw_glyph(0, 1, b'A');
    s.scroll_up_one_row();
    for y in 0..H {
        for x in 0..STRIDE {
            assert_eq!(
                buf[y * STRIDE + x],
                expected_a_at_cell(x, y, 0, 0),
                "pixel ({x},{y})"
            );
        }
    }
}

#[test]
fn clear_blanks_every_visible_pixel() {
    let mut buf = vec![0xFFFF_FFFFu32; STRIDE * H];
    let mut s = surface(&mut buf);
    s.clear();
    for y in 0..H {
        for x in 0..W {
            assert_eq!(buf[y * STRIDE + x], BACKGROUND);
        }
    }
}

#[test]
fn new_rejects_a_descriptor_that_lies_about_its_bounds() {
    let mut buf = vec![0u32; STRIDE * H];
    let good = info_for(&buf);
    // SAFETY (all cases): `new` returns None before touching memory.
    let too_small = FramebufferInfo {
        size_bytes: good.size_bytes - 4,
        ..good
    };
    assert!(FramebufferSurface::new(&too_small, &mut buf).is_none());
    let narrow_stride = FramebufferInfo {
        stride: (W - 1) as u32,
        ..good
    };
    assert!(FramebufferSurface::new(&narrow_stride, &mut buf).is_none());
    let misaligned = FramebufferInfo {
        base_addr: good.base_addr + 1,
        ..good
    };
    assert!(FramebufferSurface::new(&misaligned, &mut buf).is_none());
    let zero_width = FramebufferInfo { width: 0, ..good };
    assert!(FramebufferSurface::new(&zero_width, &mut buf).is_none());
    let no_room_for_a_cell = FramebufferInfo {
        width: (CELL_PIXELS - 1) as u32,
        ..good
    };
    assert!(FramebufferSurface::new(&no_room_for_a_cell, &mut buf).is_none());
    let overflow = FramebufferInfo {
        stride: u32::MAX,
        height: u32::MAX,
        ..good
    };
    assert!(FramebufferSurface::new(&overflow, &mut buf).is_none());
}
