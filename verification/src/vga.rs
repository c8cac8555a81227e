//! Console on the legacy VGA text-mode buffer.

use crate::hal::console::{Console, ConsoleKey};
use vstd::prelude::*;
use vstd::string::*;

verus! {

pub const VGA_WIDTH: usize = 80;

pub const VGA_HEIGHT: usize = 25;

/// How many cells the buffer has.
pub const VGA_CELLS: usize = 2000;

/// Where the buffer is, physically.
pub const VGA_BUFFER_ADDR: usize = 0xB8000;

/// White text on black background (high nibble = background, low nibble =
/// foreground).
pub const DEFAULT_ATTRIBUTE: u8 = 0x0F;

pub const NEWLINE: u8 = 0x0A;

/// The cell that shows `byte`.
pub open spec fn cell_of(byte: u8) -> u16 {
    (0x0F00 + byte) as u16
}

/// A cursor on the 80 by 25 cells of the buffer.
#[verifier::ext_equal]
pub struct VgaScreen {
    pub cells: Seq<u16>,
    pub row: int,
    pub col: int,
}

impl VgaScreen {
    pub open spec fn wf(self) -> bool {
        &&& self.cells.len() >= VGA_CELLS
        &&& 0 <= self.row < VGA_HEIGHT
        &&& 0 <= self.col <= VGA_WIDTH
    }

    /// Every row but the first one row up, and the last one blank.
    pub open spec fn scroll(self) -> VgaScreen {
        VgaScreen {
            cells: Seq::new(
                self.cells.len(),
                |i: int|
                    if i < VGA_CELLS - VGA_WIDTH {
                        self.cells[i + VGA_WIDTH]
                    } else if i < VGA_CELLS {
                        cell_of(0x20)
                    } else {
                        self.cells[i]
                    },
            ),
            ..self
        }
    }

    pub open spec fn newline(self) -> VgaScreen {
        if self.row + 1 >= VGA_HEIGHT {
            VgaScreen { col: 0, ..self.scroll() }
        } else {
            VgaScreen { col: 0, row: self.row + 1, ..self }
        }
    }

    /// A byte at the cursor, on the next line where this one is full.
    pub open spec fn put(self, byte: u8) -> VgaScreen {
        if byte == NEWLINE {
            self.newline()
        } else {
            let at = if self.col >= VGA_WIDTH {
                self.newline()
            } else {
                self
            };
            VgaScreen {
                cells: at.cells.update(at.row * VGA_WIDTH + at.col, cell_of(byte)),
                col: at.col + 1,
                ..at
            }
        }
    }

    pub open spec fn write(self, text: Seq<u8>) -> VgaScreen
        decreases text.len(),
    {
        if text.len() == 0 {
            self
        } else {
            self.put(text[0]).write(text.drop_first())
        }
    }

    /// Every cell blank, and the cursor on the first one.
    pub open spec fn clear(self) -> VgaScreen {
        VgaScreen {
            cells: Seq::new(
                self.cells.len(),
                |i: int|
                    if i < VGA_CELLS {
                        cell_of(0x20)
                    } else {
                        self.cells[i]
                    },
            ),
            row: 0,
            col: 0,
        }
    }
}

pub struct VgaConsole<'a> {
    cells: &'a mut [u16],
    row: usize,
    col: usize,
}

impl<'a> VgaConsole<'a> {
    #[verifier::type_invariant]
    spec fn fits(self) -> bool {
        &&& self.cells@.len() >= VGA_CELLS
        &&& self.row < VGA_HEIGHT
        &&& self.col <= VGA_WIDTH
    }

    pub closed spec fn screen(&self) -> VgaScreen {
        VgaScreen { cells: self.cells@, row: self.row as int, col: self.col as int }
    }

    /// A console on `cells`, the 80 by 25 cells of the buffer, which are left
    /// as they are.
    pub fn new(cells: &'a mut [u16]) -> (r: Self)
        requires
            old(cells)@.len() >= VGA_CELLS,
        ensures
            r.screen() == (VgaScreen { cells: old(cells)@, row: 0, col: 0 }),
    {
        VgaConsole { cells, row: 0, col: 0 }
    }

    fn put_char_at(&mut self, row: usize, col: usize, byte: u8)
        requires
            row < VGA_HEIGHT,
            col < VGA_WIDTH,
        ensures
            final(self).screen() == (VgaScreen {
                cells: old(self).screen().cells.update(row * VGA_WIDTH + col, cell_of(byte)),
                ..old(self).screen()
            }),
    {
        proof {
            use_type_invariant(&*self);
            assert((0x0Fu8 as u16) << 8 | (byte as u16) == 0x0F00 + byte) by (bit_vector);
        }
        let offset: usize = row * VGA_WIDTH + col;
        self.cells[offset] = (DEFAULT_ATTRIBUTE as u16) << 8 | byte as u16;
    }

    fn clear_row(&mut self, row: usize)
        requires
            row < VGA_HEIGHT,
        ensures
            final(self).screen() == (VgaScreen {
                cells: Seq::new(
                    old(self).screen().cells.len(),
                    |i: int|
                        if row * VGA_WIDTH <= i < (row + 1) * VGA_WIDTH {
                            cell_of(0x20)
                        } else {
                            old(self).screen().cells[i]
                        },
                ),
                ..old(self).screen()
            }),
    {
        proof {
            use_type_invariant(&*self);
        }
        let ghost start = self.screen();
        let mut col: usize = 0;
        while col < VGA_WIDTH
            invariant
                row < VGA_HEIGHT,
                col <= VGA_WIDTH,
                start == old(self).screen(),
                start.cells.len() >= VGA_CELLS,
                self.screen().row == start.row,
                self.screen().col == start.col,
                self.screen().cells.len() == start.cells.len(),
                forall|i: int|
                    0 <= i < start.cells.len() ==> #[trigger] self.screen().cells[i] == if row
                        * VGA_WIDTH <= i < row * VGA_WIDTH + col {
                        cell_of(0x20)
                    } else {
                        start.cells[i]
                    },
            decreases VGA_WIDTH - col,
        {
            self.put_char_at(row, col, 0x20);
            col += 1;
        }
        assert(self.screen() =~= (VgaScreen {
            cells: Seq::new(
                start.cells.len(),
                |i: int|
                    if row * VGA_WIDTH <= i < (row + 1) * VGA_WIDTH {
                        cell_of(0x20)
                    } else {
                        start.cells[i]
                    },
            ),
            ..start
        }));
    }

    fn newline(&mut self)
        ensures
            final(self).screen() == old(self).screen().newline(),
    {
        proof {
            use_type_invariant(&*self);
        }
        self.col = 0;
        if self.row + 1 >= VGA_HEIGHT {
            self.scroll();
            assert(self.screen() =~= old(self).screen().newline());
        } else {
            self.row = self.row + 1;
        }
    }

    fn scroll(&mut self)
        ensures
            final(self).screen() == old(self).screen().scroll(),
    {
        proof {
            use_type_invariant(&*self);
        }
        let ghost start = self.screen();
        let mut i: usize = 0;
        while i < VGA_CELLS - VGA_WIDTH
            invariant
                i <= VGA_CELLS - VGA_WIDTH,
                start.cells.len() >= VGA_CELLS,
                self.screen().row == start.row,
                self.screen().col == start.col,
                self.row < VGA_HEIGHT,
                self.col <= VGA_WIDTH,
                self.cells@ == self.screen().cells,
                self.screen().cells.len() == start.cells.len(),
                forall|j: int|
                    0 <= j < start.cells.len() ==> #[trigger] self.screen().cells[j] == if j < i {
                        start.cells[j + VGA_WIDTH]
                    } else {
                        start.cells[j]
                    },
            decreases VGA_CELLS - VGA_WIDTH - i,
        {
            let below: u16 = self.cells[i + VGA_WIDTH];
            assert(self.screen().cells[i + VGA_WIDTH] == start.cells[i + VGA_WIDTH]);
            let ghost before = self.screen().cells;
            self.cells[i] = below;
            assert(self.screen().cells == before.update(i as int, below));
            i += 1;
        }
        self.clear_row(VGA_HEIGHT - 1);
        assert(self.screen() =~= start.scroll());
    }
}

impl Console for VgaConsole<'_> {
    /// There is no keyboard behind this console.
    fn read_key(&mut self) -> (r: Option<ConsoleKey>)
        ensures
            r is None,
            final(self).screen() == old(self).screen(),
    {
        None
    }

    fn write_str(&mut self, s: &str)
        ensures
            final(self).screen() == old(self).screen().write(s.spec_bytes()),
    {
        let bytes = s.as_bytes();
        let mut i: usize = 0;
        assert(bytes@.skip(0) =~= bytes@);
        while i < bytes.len()
            invariant
                i <= bytes@.len(),
                bytes@ == s.spec_bytes(),
                old(self).screen().write(s.spec_bytes()) == self.screen().write(
                    bytes@.skip(i as int),
                ),
            decreases bytes.len() - i,
        {
            assert(bytes@.skip(i as int).drop_first() =~= bytes@.skip(i + 1));
            let byte: u8 = bytes[i];
            if byte == NEWLINE {
                self.newline();
            } else {
                if self.col >= VGA_WIDTH {
                    self.newline();
                }
                let row: usize = self.row;
                let col: usize = self.col;
                proof {
                    use_type_invariant(&*self);
                }
                self.put_char_at(row, col, byte);
                proof {
                    use_type_invariant(&*self);
                }
                self.col = col + 1;
            }
            i += 1;
        }
    }

    fn clear(&mut self)
        ensures
            final(self).screen() == old(self).screen().clear(),
    {
        proof {
            use_type_invariant(&*self);
        }
        let ghost start = self.screen();
        let mut row: usize = 0;
        while row < VGA_HEIGHT
            invariant
                row <= VGA_HEIGHT,
                start == old(self).screen(),
                start.cells.len() >= VGA_CELLS,
                self.screen().cells.len() == start.cells.len(),
                forall|i: int|
                    0 <= i < start.cells.len() ==> #[trigger] self.screen().cells[i] == if i < row
                        * VGA_WIDTH {
                        cell_of(0x20)
                    } else {
                        start.cells[i]
                    },
            decreases VGA_HEIGHT - row,
        {
            self.clear_row(row);
            row += 1;
        }
        proof {
            use_type_invariant(&*self);
        }
        self.row = 0;
        self.col = 0;
        assert(self.screen() =~= start.clear());
    }
}

/// Scrolling moves every row but the first up by one and blanks the last;
/// what is past the 2000 cells stays.
pub proof fn every_row_moves_up(screen: VgaScreen, row: int, col: int, i: int)
    requires
        screen.cells.len() >= 2000,
        0 <= row < 25,
        0 <= col < 80,
        2000 <= i < screen.cells.len(),
    ensures
        row > 0 ==> screen.scroll().cells[80 * (row - 1) + col] == screen.cells[80 * row + col],
        row == 24 ==> screen.scroll().cells[80 * row + col] == 0x0F20,
        screen.scroll().cells[i] == screen.cells[i],
        screen.scroll().cells.len() == screen.cells.len(),
        screen.scroll().row == screen.row,
        screen.scroll().col == screen.col,
{
}

/// A character is written white on black in the cell at the cursor, or at the
/// start of the next line where this one is full, and no other cell changes
/// but by scrolling. A new line goes to the start of the next row, which on the
/// last row scrolls.
pub proof fn a_character_goes_where_the_cursor_is(screen: VgaScreen, byte: u8, i: int)
    requires
        screen.wf(),
        0 <= i < screen.cells.len(),
    ensures
        ({
            let next = screen.put(byte);
            let last = screen.row == 24;
            let below: int = if last {
                24
            } else {
                screen.row + 1
            };
            let moved = if last {
                screen.scroll().cells
            } else {
                screen.cells
            };
            &&& byte == 0x0A ==> next.row == below && next.col == 0 && next.cells[i] == moved[i]
            &&& byte != 0x0A && screen.col < 80 ==> next.row == screen.row && next.col == screen.col
                + 1 && next.cells[i] == if i == 80 * screen.row + screen.col {
                (0x0F00 + byte) as u16
            } else {
                screen.cells[i]
            }
            &&& byte != 0x0A && screen.col == 80 ==> next.row == below && next.col == 1
                && next.cells[i] == if i == 80 * below {
                (0x0F00 + byte) as u16
            } else {
                moved[i]
            }
        }),
{
}

/// Writing two texts in turn is writing the joined text.
pub proof fn writing_goes_on_where_it_stopped(screen: VgaScreen, first: Seq<u8>, second: Seq<u8>)
    ensures
        screen.write(first).write(second) == screen.write(first + second),
        first.len() == 1 ==> screen.write(first) == screen.put(first[0]),
        first.len() == 0 ==> screen.write(first) == screen,
    decreases first.len(),
{
    let joined = first + second;
    if first.len() == 0 {
        assert(joined =~= second);
    } else {
        assert(joined.drop_first() =~= first.drop_first() + second);
        writing_goes_on_where_it_stopped(screen.put(first[0]), first.drop_first(), second);
    }
}

/// Clearing blanks all 2000 cells, leaves what is past them, and goes back to
/// the first.
pub proof fn clearing_blanks_every_cell(screen: VgaScreen, i: int)
    requires
        0 <= i < screen.cells.len(),
    ensures
        screen.clear().cells[i] == if i < 2000 {
            0x0F20
        } else {
            screen.cells[i]
        },
        screen.clear().cells.len() == screen.cells.len(),
        screen.clear().row == 0,
        screen.clear().col == 0,
{
}

/// The cursor stays in the buffer whatever is written.
pub proof fn writing_stays_in_the_buffer(screen: VgaScreen, text: Seq<u8>)
    requires
        screen.wf(),
    ensures
        screen.write(text).wf(),
        screen.write(text).cells.len() == screen.cells.len(),
        forall|i: int|
            VGA_CELLS <= i < screen.cells.len() ==> #[trigger] screen.write(text).cells[i]
                == screen.cells[i],
    decreases text.len(),
{
    if text.len() > 0 {
        let next = screen.put(text[0]);
        assert(next.wf());
        assert forall|i: int| VGA_CELLS <= i < screen.cells.len() implies next.cells[i]
            == screen.cells[i] by {
            let at = if screen.col >= VGA_WIDTH {
                screen.newline()
            } else {
                screen
            };
            assert(at.row * VGA_WIDTH + at.col < VGA_CELLS || text[0] == NEWLINE);
        }
        writing_stays_in_the_buffer(next, text.drop_first());
    }
}

} // verus!
