//! The text screen: 25 rows of 80 cells, each a character and a colour, and
//! a cursor.
//!
//! Output goes to the cell under the cursor, which then moves on.  Past the
//! last column the cursor wraps to the next row; past the last row the
//! screen scrolls up by one row.

use vstd::prelude::*;
use crate::klib::string::c_strlen;
use crate::klib::string::strlen;

verus! {

/// Columns of the screen.
pub const VGA_WIDTH: usize = 80;

/// Rows of the screen.
pub const VGA_HEIGHT: usize = 25;

/// Cells of the screen.
pub const VGA_CELLS: usize = 2000;

/// The colour of ordinary output: light cyan on black.
pub const DEFAULT_COLOR: u8 = 0x0B;

/// Line feed.
pub const NEWLINE: u8 = 10;

/// Carriage return.
pub const CARRIAGE_RETURN: u8 = 13;

/// The sixteen colours of the text mode.
#[derive(Clone, Copy, Debug, PartialEq, Eq, Structural)]
pub enum Color {
    Black,
    Blue,
    Green,
    Cyan,
    Red,
    Magenta,
    Brown,
    LightGray,
    DarkGray,
    LightBlue,
    LightGreen,
    LightCyan,
    LightRed,
    Pink,
    Yellow,
    White,
}

/// The number of a colour, as the hardware knows it.
pub open spec fn color_value(c: Color) -> u8 {
    match c {
        Color::Black => 0x0,
        Color::Blue => 0x1,
        Color::Green => 0x2,
        Color::Cyan => 0x3,
        Color::Red => 0x4,
        Color::Magenta => 0x5,
        Color::Brown => 0x6,
        Color::LightGray => 0x7,
        Color::DarkGray => 0x8,
        Color::LightBlue => 0x9,
        Color::LightGreen => 0xA,
        Color::LightCyan => 0xB,
        Color::LightRed => 0xC,
        Color::Pink => 0xD,
        Color::Yellow => 0xE,
        Color::White => 0xF,
    }
}

/// The number of a colour, as the hardware knows it.
pub fn color_number(c: Color) -> (r: u8)
    ensures
        r == color_value(c),
        r < 16,
{
    match c {
        Color::Black => 0x0,
        Color::Blue => 0x1,
        Color::Green => 0x2,
        Color::Cyan => 0x3,
        Color::Red => 0x4,
        Color::Magenta => 0x5,
        Color::Brown => 0x6,
        Color::LightGray => 0x7,
        Color::DarkGray => 0x8,
        Color::LightBlue => 0x9,
        Color::LightGreen => 0xA,
        Color::LightCyan => 0xB,
        Color::LightRed => 0xC,
        Color::Pink => 0xD,
        Color::Yellow => 0xE,
        Color::White => 0xF,
    }
}

/// The colour byte of a cell: the background in the high four bits and the
/// foreground in the low four.
pub fn get_color_code(fg: Color, bg: Color) -> (r: u8)
    ensures
        r == color_value(bg) * 16 + color_value(fg),
{
    let f: u8 = color_number(fg);
    let b: u8 = color_number(bg);
    proof {
        assert(f < 16 && b < 16 ==> (b << 4u8) | (f & 0x0Fu8) == b * 16 + f) by (bit_vector);
    }
    (b << 4) | (f & 0x0F)
}

/// One cell of the screen.
#[derive(Clone, Copy, Debug, PartialEq, Eq, Structural)]
pub struct Cell {
    pub ch: u8,
    pub color: u8,
}

/// The screen as plain values.
pub struct VgaView {
    /// The cells, row by row.
    pub cells: Seq<Cell>,
    /// Column of the cursor.
    pub x: int,
    /// Row of the cursor.
    pub y: int,
}

/// A space in the default colour.
pub open spec fn blank_cell() -> Cell {
    Cell { ch: 32, color: DEFAULT_COLOR }
}

impl VgaView {
    /// The screen has all its cells and the cursor lies on it.
    pub open spec fn wf(self) -> bool {
        &&& self.cells.len() == VGA_CELLS
        &&& 0 <= self.x < VGA_WIDTH
        &&& 0 <= self.y < VGA_HEIGHT
    }

    /// The cell in row `row` and column `col`.
    pub open spec fn at(self, row: int, col: int) -> Cell {
        self.cells[row * VGA_WIDTH + col]
    }

    /// The screen moved up by one row: the top row is lost, the bottom row
    /// is blank, and the cursor stands at the start of the bottom row.
    pub open spec fn scrolled(self) -> VgaView {
        VgaView {
            cells: Seq::new(
                VGA_CELLS as nat,
                |i: int| if i < VGA_CELLS - VGA_WIDTH { self.cells[i + VGA_WIDTH] } else { blank_cell() },
            ),
            x: 0,
            y: VGA_HEIGHT - 1,
        }
    }

    /// The screen with the cursor moved to column `x` of row `y`, scrolled
    /// if that row lies below the screen.
    pub open spec fn moved(self, x: int, y: int) -> VgaView {
        if y >= VGA_HEIGHT {
            self.scrolled()
        } else {
            VgaView { x, y, ..self }
        }
    }

    /// The screen after the byte `c` has been drawn under the cursor in
    /// colour `color`, whatever the byte is, and the cursor has moved on by
    /// one cell.
    pub open spec fn glyph(self, c: u8, color: u8) -> VgaView {
        let drawn = VgaView {
            cells: self.cells.update(self.y * VGA_WIDTH + self.x, Cell { ch: c, color }),
            ..self
        };
        if self.x + 1 >= VGA_WIDTH {
            drawn.moved(0, self.y + 1)
        } else {
            drawn.moved(self.x + 1, self.y)
        }
    }

    /// The screen after the byte `c` has been put out in colour `color`.  A
    /// line feed moves the cursor to the start of the next row, a carriage
    /// return to the start of its row.  Any other byte is drawn under the
    /// cursor, which moves on by one cell.
    pub open spec fn put(self, c: u8, color: u8) -> VgaView {
        if c == NEWLINE {
            self.moved(0, self.y + 1)
        } else if c == CARRIAGE_RETURN {
            self.moved(0, self.y)
        } else {
            self.glyph(c, color)
        }
    }

    /// The screen after the first `n` bytes of `s` have been drawn as they
    /// are.
    pub open spec fn glyphs(self, s: Seq<u8>, n: int, color: u8) -> VgaView
        decreases n,
    {
        if n <= 0 {
            self
        } else {
            self.glyphs(s, n - 1, color).glyph(s[n - 1], color)
        }
    }

    /// The screen after the first `n` bytes of `s` have been put out.
    pub open spec fn put_all(self, s: Seq<u8>, n: int, color: u8) -> VgaView
        decreases n,
    {
        if n <= 0 {
            self
        } else {
            self.put_all(s, n - 1, color).put(s[n - 1], color)
        }
    }

    /// The screen after the cell before the cursor has been blanked and the
    /// cursor moved onto it.  Nothing happens in the first column.
    pub open spec fn erased(self) -> VgaView {
        if self.x > 0 {
            VgaView {
                cells: self.cells.update(self.y * VGA_WIDTH + self.x - 1, blank_cell()),
                x: self.x - 1,
                y: self.y,
            }
        } else {
            self
        }
    }
}

/// Putting out bytes keeps the screen well-formed.
pub proof fn lemma_put_wf(v: VgaView, s: Seq<u8>, n: int, color: u8)
    requires
        v.wf(),
    ensures
        v.put_all(s, n, color).wf(),
        n >= 1 ==> v.put(s[0], color).wf(),
    decreases n,
{
    if n > 0 {
        lemma_put_wf(v, s, n - 1, color);
    }
    let one = v.put(s[0], color);
    assert(one.wf());
}

/// The text screen.
pub struct Vga {
    cells: Vec<Cell>,
    cursor_x: usize,
    cursor_y: usize,
    hw_cursor: u16,
}

impl Vga {
    /// The screen as plain values.
    pub closed spec fn view(&self) -> VgaView {
        VgaView { cells: self.cells@, x: self.cursor_x as int, y: self.cursor_y as int }
    }

    /// The screen has all its cells and the cursor lies on it.
    pub open spec fn wf(&self) -> bool {
        self@.wf()
    }

    /// Where the hardware shows its cursor: the number of the cell, counted
    /// row by row.
    pub closed spec fn hw_pos(&self) -> int {
        self.hw_cursor as int
    }

    /// A blank screen with the cursor in the top left corner.
    pub fn new() -> (vga: Vga)
        ensures
            vga.wf(),
            vga@.x == 0,
            vga@.y == 0,
            vga.hw_pos() == 0,
            forall|i: int| 0 <= i < VGA_CELLS ==> vga@.cells[i] == blank_cell(),
    {
        Vga {
            cells: vec![Cell { ch: 32, color: DEFAULT_COLOR }; VGA_CELLS],
            cursor_x: 0,
            cursor_y: 0,
            hw_cursor: 0,
        }
    }

    /// The position of the cursor: column and row.
    pub fn cursor(&self) -> (r: (usize, usize))
        ensures
            r.0 == self@.x,
            r.1 == self@.y,
    {
        (self.cursor_x, self.cursor_y)
    }

    /// The cell in row `row` and column `col`.
    pub fn cell(&self, row: usize, col: usize) -> (r: Cell)
        requires
            self.wf(),
            row < VGA_HEIGHT,
            col < VGA_WIDTH,
        ensures
            r == self@.at(row as int, col as int),
    {
        self.cells[row * VGA_WIDTH + col]
    }

    /// Draws `c` in colour `color`, whatever the byte is, and moves the
    /// cursor on.
    fn glyph_core(&mut self, c: u8, color: u8)
        requires
            old(self).wf(),
        ensures
            final(self).wf(),
            final(self)@ == old(self)@.glyph(c, color),
            final(self).hw_pos() == final(self)@.y * VGA_WIDTH + final(self)@.x,
    {
        let offset: usize = self.cursor_y * VGA_WIDTH + self.cursor_x;
        self.cells.set(offset, Cell { ch: c, color });
        self.cursor_x += 1;
        if self.cursor_x >= VGA_WIDTH {
            self.cursor_x = 0;
            self.cursor_y += 1;
        }
        if self.cursor_y >= VGA_HEIGHT {
            scroll_rows(self);
        }
        let x: usize = self.cursor_x;
        let y: usize = self.cursor_y;
        update_cursor(self, x, y);
    }

    /// Draws `c` in colour `color` and moves the cursor on.
    fn put_core(&mut self, c: u8, color: u8)
        requires
            old(self).wf(),
        ensures
            final(self).wf(),
            final(self)@ == old(self)@.put(c, color),
            final(self).hw_pos() == final(self)@.y * VGA_WIDTH + final(self)@.x,
    {
        if c == NEWLINE {
            self.cursor_x = 0;
            self.cursor_y += 1;
        } else if c == CARRIAGE_RETURN {
            self.cursor_x = 0;
        } else {
            let offset: usize = self.cursor_y * VGA_WIDTH + self.cursor_x;
            self.cells.set(offset, Cell { ch: c, color });
            self.cursor_x += 1;
            if self.cursor_x >= VGA_WIDTH {
                self.cursor_x = 0;
                self.cursor_y += 1;
            }
        }
        if self.cursor_y >= VGA_HEIGHT {
            scroll_rows(self);
        }
        let x: usize = self.cursor_x;
        let y: usize = self.cursor_y;
        update_cursor(self, x, y);
    }

    /// Where the hardware shows its cursor.
    pub fn hardware_cursor(&self) -> (r: u16)
        ensures
            r == self.hw_pos(),
    {
        self.hw_cursor
    }
}

/// Tells the hardware to show its cursor in column `x` of row `y`.  The
/// hardware takes the low 16 bits of the cell number.
pub fn update_cursor(vga: &mut Vga, x: usize, y: usize)
    ensures
        final(vga)@ == old(vga)@,
        final(vga).hw_pos() == (y * VGA_WIDTH + x) % 0x1_0000,
{
    let pos: u128 = (y as u128 * 80 + x as u128) % 0x1_0000;
    vga.hw_cursor = pos as u16;
}

/// Draws `c` in colour `color` in column `x` of row `y`.  Nothing is drawn
/// outside the screen.  The cursor stays.
pub fn draw_char_at(vga: &mut Vga, x: usize, y: usize, c: u8, color: u8)
    requires
        old(vga).wf(),
    ensures
        final(vga).wf(),
        final(vga).hw_pos() == old(vga).hw_pos(),
        final(vga)@ == if x < VGA_WIDTH && y < VGA_HEIGHT {
            VgaView { cells: old(vga)@.cells.update(y * VGA_WIDTH + x, Cell { ch: c, color }), ..old(vga)@ }
        } else {
            old(vga)@
        },
{
    if x < VGA_WIDTH && y < VGA_HEIGHT {
        vga.cells.set(y * VGA_WIDTH + x, Cell { ch: c, color });
    }
}

/// Moves every row up by one and blanks the bottom row.  The cursor stays.
pub fn scroll_buffer_up(vga: &mut Vga)
    requires
        old(vga).wf(),
    ensures
        final(vga).wf(),
        final(vga).hw_pos() == old(vga).hw_pos(),
        final(vga)@ == (VgaView { cells: old(vga)@.scrolled().cells, ..old(vga)@ }),
{
    let x: usize = vga.cursor_x;
    let y: usize = vga.cursor_y;
    scroll_rows(vga);
    vga.cursor_x = x;
    vga.cursor_y = y;
}

/// Moves every row up by one, blanks the bottom row and puts the cursor at
/// its start.
fn scroll_rows(vga: &mut Vga)
    requires
        old(vga).cells@.len() == VGA_CELLS,
    ensures
        final(vga).wf(),
        final(vga).hw_cursor == old(vga).hw_cursor,
        final(vga)@ == (VgaView { cells: old(vga).cells@, x: 0, y: 0 }).scrolled(),
{
    let mut i: usize = 0;
    while i < VGA_CELLS - VGA_WIDTH
        invariant
            i <= VGA_CELLS - VGA_WIDTH,
            vga.cells@.len() == VGA_CELLS,
            vga.hw_cursor == old(vga).hw_cursor,
            forall|k: int| 0 <= k < i ==> vga.cells@[k] == old(vga).cells@[k + VGA_WIDTH],
            forall|k: int| i <= k < VGA_CELLS ==> vga.cells@[k] == old(vga).cells@[k],
        decreases VGA_CELLS - VGA_WIDTH - i,
    {
        let below: Cell = vga.cells[i + VGA_WIDTH];
        vga.cells.set(i, below);
        i += 1;
    }
    while i < VGA_CELLS
        invariant
            VGA_CELLS - VGA_WIDTH <= i <= VGA_CELLS,
            vga.cells@.len() == VGA_CELLS,
            vga.hw_cursor == old(vga).hw_cursor,
            forall|k: int| 0 <= k < VGA_CELLS - VGA_WIDTH ==> vga.cells@[k] == old(vga).cells@[k + VGA_WIDTH],
            forall|k: int| VGA_CELLS - VGA_WIDTH <= k < i ==> vga.cells@[k] == blank_cell(),
        decreases VGA_CELLS - i,
    {
        vga.cells.set(i, Cell { ch: 32, color: DEFAULT_COLOR });
        i += 1;
    }
    vga.cursor_y = VGA_HEIGHT - 1;
    vga.cursor_x = 0;
    proof {
        assert(vga@.cells =~= (VgaView { cells: old(vga).cells@, x: 0, y: 0 }).scrolled().cells);
    }
}

/// Scrolls the screen up by one row.
pub fn scroll(vga: &mut Vga)
    requires
        old(vga).wf(),
    ensures
        final(vga).wf(),
        final(vga).hw_pos() == old(vga).hw_pos(),
        final(vga)@ == old(vga)@.scrolled(),
{
    scroll_rows(vga);
}

/// Draws the byte `c` in colour `color` under the cursor, whatever the byte
/// is, and moves the cursor on.
pub fn putglyph(vga: &mut Vga, c: u8, color: u8)
    requires
        old(vga).wf(),
    ensures
        final(vga).wf(),
        final(vga)@ == old(vga)@.glyph(c, color),
        final(vga).hw_pos() == final(vga)@.y * VGA_WIDTH + final(vga)@.x,
{
    vga.glyph_core(c, color);
}

/// Puts out the byte `c` in the default colour.
pub fn putchar(vga: &mut Vga, c: u8)
    requires
        old(vga).wf(),
    ensures
        final(vga).wf(),
        final(vga)@ == old(vga)@.put(c, DEFAULT_COLOR),
        final(vga).hw_pos() == final(vga)@.y * VGA_WIDTH + final(vga)@.x,
{
    vga.put_core(c, DEFAULT_COLOR);
}

/// Puts out the byte `c` in colour `color`.
pub fn putchar_colored(vga: &mut Vga, c: u8, color: u8)
    requires
        old(vga).wf(),
    ensures
        final(vga).wf(),
        final(vga)@ == old(vga)@.put(c, color),
        final(vga).hw_pos() == final(vga)@.y * VGA_WIDTH + final(vga)@.x,
{
    vga.put_core(c, color);
}

fn put_string(vga: &mut Vga, s: &[u8], color: u8)
    requires
        old(vga).wf(),
    ensures
        final(vga).wf(),
        final(vga)@ == old(vga)@.put_all(s@, c_strlen(s@, s@.len() as int), color),
{
    let len: usize = strlen(s);
    let mut i: usize = 0;
    while i < len
        invariant
            i <= len <= s@.len(),
            vga.wf(),
            vga@ == old(vga)@.put_all(s@, i as int, color),
        decreases len - i,
    {
        vga.put_core(s[i], color);
        i += 1;
    }
}

/// Puts out the string that starts `s`, up to its first zero byte, in the
/// default colour.
pub fn putstr(vga: &mut Vga, s: &[u8])
    requires
        old(vga).wf(),
    ensures
        final(vga).wf(),
        final(vga)@ == old(vga)@.put_all(s@, c_strlen(s@, s@.len() as int), DEFAULT_COLOR),
{
    put_string(vga, s, DEFAULT_COLOR);
}

/// Puts out the string that starts `s`, up to its first zero byte, in colour
/// `color`.
pub fn putstr_colored(vga: &mut Vga, s: &[u8], color: u8)
    requires
        old(vga).wf(),
    ensures
        final(vga).wf(),
        final(vga)@ == old(vga)@.put_all(s@, c_strlen(s@, s@.len() as int), color),
{
    put_string(vga, s, color);
}

/// Blanks the cell before the cursor and moves the cursor onto it.  Nothing
/// happens in the first column.
pub fn backspace(vga: &mut Vga)
    requires
        old(vga).wf(),
    ensures
        final(vga).wf(),
        final(vga)@ == old(vga)@.erased(),
        final(vga).hw_pos() == if old(vga)@.x > 0 {
            final(vga)@.y * VGA_WIDTH + final(vga)@.x
        } else {
            old(vga).hw_pos()
        },
{
    if vga.cursor_x > 0 {
        vga.cursor_x -= 1;
        let offset: usize = vga.cursor_y * VGA_WIDTH + vga.cursor_x;
        vga.cells.set(offset, Cell { ch: 32, color: DEFAULT_COLOR });
        let x: usize = vga.cursor_x;
        let y: usize = vga.cursor_y;
        update_cursor(vga, x, y);
    }
}

} // verus!
