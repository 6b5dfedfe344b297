//! VGA text screen.
//!
//! A 25 by 80 grid of characters, each with a foreground and a background
//! colour. Text is written top down; a new line past the last row moves every
//! line up. The grid kept here is copied to the screen's memory outside this
//! crate.
use vstd::prelude::*;

verus! {

/// The number of rows of text
pub const BUFFER_HEIGHT: usize = 25;

/// The number of columns per row of text
pub const BUFFER_WIDTH: usize = 80;

/// The various foreground and background text colors
#[derive(Clone, Copy, Debug, PartialEq, Eq, Structural)]
pub enum Color {
    Black,
    Blue,
    Green,
    Cyan,
    Red,
    Magenta,
    Brown,
    LightGray,
    DarkGray,
    LightBlue,
    LightGreen,
    LightCyan,
    LightRed,
    Pink,
    Yellow,
    White,
}

/// The 4-bit code of a colour.
pub open spec fn color_value(c: Color) -> u8 {
    match c {
        Color::Black => 0,
        Color::Blue => 1,
        Color::Green => 2,
        Color::Cyan => 3,
        Color::Red => 4,
        Color::Magenta => 5,
        Color::Brown => 6,
        Color::LightGray => 7,
        Color::DarkGray => 8,
        Color::LightBlue => 9,
        Color::LightGreen => 10,
        Color::LightCyan => 11,
        Color::LightRed => 12,
        Color::Pink => 13,
        Color::Yellow => 14,
        Color::White => 15,
    }
}

impl Color {
    /// The 4-bit code of this colour.
    pub fn code(self) -> (r: u8)
        ensures
            r == color_value(self),
            r < 16,
    {
        match self {
            Color::Black => 0,
            Color::Blue => 1,
            Color::Green => 2,
            Color::Cyan => 3,
            Color::Red => 4,
            Color::Magenta => 5,
            Color::Brown => 6,
            Color::LightGray => 7,
            Color::DarkGray => 8,
            Color::LightBlue => 9,
            Color::LightGreen => 10,
            Color::LightCyan => 11,
            Color::LightRed => 12,
            Color::Pink => 13,
            Color::Yellow => 14,
            Color::White => 15,
        }
    }
}

/// Wrapper around a packed foreground / background pair
#[derive(Clone, Copy, Debug, PartialEq, Eq, Structural)]
pub struct ColorCode(pub u8);

impl ColorCode {
    /// Creates a new ColorCode from the specified colors: the background in
    /// the high four bits, the foreground in the low four.
    pub fn new(foreground: Color, background: Color) -> (r: ColorCode)
        ensures
            r.0 == color_value(background) * 16 + color_value(foreground),
    {
        let b = background.code();
        let f = foreground.code();
        assert(b << 4u8 | f == b * 16 + f) by (bit_vector)
            requires
                b < 16,
                f < 16,
        ;
        ColorCode(b << 4 | f)
    }
}

/// A character on the screen, with its colours.
#[derive(Clone, Copy, Debug, PartialEq, Eq, Structural)]
pub struct ScreenChar {
    pub ascii_character: u8,
    pub color_code: ColorCode,
}

/// A space in the given colours.
pub open spec fn blank(color_code: ColorCode) -> ScreenChar {
    ScreenChar { ascii_character: 0x20, color_code }
}

/// A row of spaces in the given colours.
pub open spec fn blank_row(color_code: ColorCode) -> Seq<ScreenChar> {
    Seq::new(BUFFER_WIDTH as nat, |i: int| blank(color_code))
}

/// The screen after a new line from `row`: the next row, cleared; or, from the
/// last row, every line moved up and the last one cleared.
pub open spec fn screen_after_new_line(
    screen: Seq<Seq<ScreenChar>>,
    row: int,
    color_code: ColorCode,
) -> Seq<Seq<ScreenChar>> {
    if row >= BUFFER_HEIGHT - 1 {
        screen.subrange(1, BUFFER_HEIGHT as int).push(blank_row(color_code))
    } else {
        screen.update(row + 1, blank_row(color_code))
    }
}

/// The row the cursor is on after a new line from `row`.
pub open spec fn row_after_new_line(row: int) -> int {
    if row >= BUFFER_HEIGHT - 1 {
        row
    } else {
        row + 1
    }
}

/// Writes characters to the screen grid.
pub struct Writer {
    col: usize,
    row: usize,
    color_code: ColorCode,
    chars: [[ScreenChar; BUFFER_WIDTH]; BUFFER_HEIGHT],
}

impl Writer {
    /// The grid, row by row.
    pub closed spec fn screen(&self) -> Seq<Seq<ScreenChar>> {
        Seq::new(BUFFER_HEIGHT as nat, |r: int| self.chars@[r]@)
    }

    pub closed spec fn spec_row(&self) -> int {
        self.row as int
    }

    pub closed spec fn spec_col(&self) -> int {
        self.col as int
    }

    pub closed spec fn spec_color(&self) -> ColorCode {
        self.color_code
    }

    /// The cursor is on the screen, at most one past the last column.
    pub closed spec fn wf(&self) -> bool {
        self.row < BUFFER_HEIGHT && self.col <= BUFFER_WIDTH
    }

    /// A blank screen in the given colours, with the cursor at the top left.
    pub fn new(color_code: ColorCode) -> (r: Writer)
        ensures
            r.wf(),
            r.spec_row() == 0,
            r.spec_col() == 0,
            r.spec_color() == color_code,
            forall|i: int| 0 <= i < BUFFER_HEIGHT ==> #[trigger] r.screen()[i] == blank_row(color_code),
    {
        let blank = ScreenChar { ascii_character: 0x20, color_code };
        let w = Writer {
            col: 0,
            row: 0,
            color_code,
            chars: [[blank; BUFFER_WIDTH]; BUFFER_HEIGHT],
        };
        assert forall|i: int| 0 <= i < BUFFER_HEIGHT implies #[trigger] w.screen()[i] == blank_row(
            color_code,
        ) by {
            assert(w.screen()[i] =~= blank_row(color_code));
        }
        w
    }

    /// Sets the color code to use when drawing to screen
    pub fn set_colorcode(&mut self, color_code: ColorCode)
        ensures
            final(self).spec_color() == color_code,
            final(self).screen() == old(self).screen(),
            final(self).spec_row() == old(self).spec_row(),
            final(self).spec_col() == old(self).spec_col(),
    {
        self.color_code = color_code;
    }

    /// Returns the current color code
    pub fn get_colorcode(&self) -> (r: ColorCode)
        ensures
            r == self.spec_color(),
    {
        self.color_code
    }

    /// The character at `row`, `col`.
    pub fn char_at(&self, row: usize, col: usize) -> (r: ScreenChar)
        requires
            row < BUFFER_HEIGHT,
            col < BUFFER_WIDTH,
        ensures
            r == self.screen()[row as int][col as int],
    {
        self.chars[row][col]
    }

    /// The cursor position, as row and column.
    pub fn position(&self) -> (r: (usize, usize))
        ensures
            r.0 == self.spec_row(),
            r.1 == self.spec_col(),
    {
        (self.row, self.col)
    }

    /// Writes '\x20' for every column in the specified row
    fn clear_row(&mut self, row: usize)
        requires
            row < BUFFER_HEIGHT,
        ensures
            final(self).screen() == old(self).screen().update(
                row as int,
                blank_row(old(self).color_code),
            ),
            final(self).row == old(self).row,
            final(self).col == old(self).col,
            final(self).color_code == old(self).color_code,
    {
        let blank = ScreenChar { ascii_character: 0x20, color_code: self.color_code };
        self.chars[row] = [blank; BUFFER_WIDTH];
        assert(self.chars@[row as int]@ =~= blank_row(old(self).color_code));
        assert(self.screen() =~= old(self).screen().update(
            row as int,
            blank_row(old(self).color_code),
        ));
    }

    /// Moves to the start of the next line, moving all lines up one row when
    /// on the last one, and clears that line.
    fn new_line(&mut self)
        requires
            old(self).wf(),
        ensures
            final(self).wf(),
            final(self).screen() == screen_after_new_line(
                old(self).screen(),
                old(self).spec_row(),
                old(self).color_code,
            ),
            final(self).spec_row() == row_after_new_line(old(self).spec_row()),
            final(self).col == 0,
            final(self).color_code == old(self).color_code,
    {
        let last_row: usize = BUFFER_HEIGHT - 1;
        if self.row >= last_row {
            let mut r: usize = 0;
            while r < last_row
                invariant
                    r <= last_row,
                    last_row == BUFFER_HEIGHT - 1,
                    self.row == old(self).row,
                    self.col == old(self).col,
                    self.color_code == old(self).color_code,
                    forall|i: int| 0 <= i < r ==> #[trigger] self.chars@[i] == old(self).chars@[i + 1],
                    forall|i: int| r <= i < BUFFER_HEIGHT ==> #[trigger] self.chars@[i] == old(
                        self,
                    ).chars@[i],
                decreases last_row - r,
            {
                self.chars[r] = self.chars[r + 1];
                r = r + 1;
            }
        } else {
            self.row = self.row + 1;
        }
        let row = self.row;
        let ghost moved = self.screen();
        self.clear_row(row);
        self.col = 0;
        proof {
            if old(self).row >= last_row {
                assert(moved.update(row as int, blank_row(old(self).color_code)) =~= old(
                    self,
                ).screen().subrange(1, BUFFER_HEIGHT as int).push(blank_row(old(self).color_code)));
            } else {
                assert(moved =~= old(self).screen());
            }
        }
    }

    /// Writes bytes to buffer
    ///
    /// A newline byte moves to the next line; any other byte is written at the
    /// cursor, after moving to the next line when the current one is full.
    pub fn write_byte(&mut self, byte: u8)
        requires
            old(self).wf(),
        ensures
            final(self).wf(),
            final(self).spec_color() == old(self).spec_color(),
            byte == 10 || old(self).spec_col() >= BUFFER_WIDTH ==> {
                let screen = screen_after_new_line(
                    old(self).screen(),
                    old(self).spec_row(),
                    old(self).spec_color(),
                );
                let row = row_after_new_line(old(self).spec_row());
                if byte == 10 {
                    &&& final(self).screen() == screen
                    &&& final(self).spec_row() == row
                    &&& final(self).spec_col() == 0
                } else {
                    &&& final(self).screen() == screen.update(
                        row,
                        screen[row].update(0, ScreenChar { ascii_character: byte, color_code: old(self).spec_color() }),
                    )
                    &&& final(self).spec_row() == row
                    &&& final(self).spec_col() == 1
                }
            },
            byte != 10 && old(self).spec_col() < BUFFER_WIDTH ==> {
                let row = old(self).spec_row();
                let col = old(self).spec_col();
                &&& final(self).screen() == old(self).screen().update(
                    row,
                    old(self).screen()[row].update(
                        col,
                        ScreenChar { ascii_character: byte, color_code: old(self).spec_color() },
                    ),
                )
                &&& final(self).spec_row() == row
                &&& final(self).spec_col() == col + 1
            },
    {
        if byte == 10 {
            self.new_line();
        } else {
            if self.col >= BUFFER_WIDTH {
                self.new_line();
            }
            let ghost before = self.screen();
            let r = self.row;
            let c = self.col;
            let ch = ScreenChar { ascii_character: byte, color_code: self.color_code };
            self.chars[r][c] = ch;
            self.col = self.col + 1;
            assert(self.screen() =~= before.update(r as int, before[r as int].update(c as int, ch)));
        }
    }

    /// Writes every byte of `bytes` in turn.
    pub fn write_bytes(&mut self, bytes: &[u8])
        requires
            old(self).wf(),
        ensures
            final(self).wf(),
            final(self).spec_color() == old(self).spec_color(),
    {
        let mut i: usize = 0;
        while i < bytes.len()
            invariant
                self.wf(),
                self.spec_color() == old(self).spec_color(),
                i <= bytes@.len(),
            decreases bytes@.len() - i,
        {
            self.write_byte(bytes[i]);
            i = i + 1;
        }
    }

    /// Clear the contents of the entire screen buffer
    pub fn clear(&mut self)
        ensures
            final(self).wf(),
            final(self).spec_row() == 0,
            final(self).spec_col() == 0,
            final(self).spec_color() == old(self).spec_color(),
            forall|i: int| 0 <= i < BUFFER_HEIGHT ==> #[trigger] final(self).screen()[i] == blank_row(
                old(self).spec_color(),
            ),
    {
        let mut i: usize = 0;
        while i < BUFFER_HEIGHT
            invariant
                i <= BUFFER_HEIGHT,
                self.color_code == old(self).color_code,
                forall|j: int| 0 <= j < i ==> #[trigger] self.screen()[j] == blank_row(
                    old(self).color_code,
                ),
            decreases BUFFER_HEIGHT - i,
        {
            self.clear_row(i);
            i = i + 1;
        }
        let ghost cleared = self.screen();
        self.col = 0;
        self.row = 0;
        assert(self.screen() =~= cleared);
    }
}

} // verus!
