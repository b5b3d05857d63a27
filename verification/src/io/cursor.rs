//! The cursor of the console: where the next character goes.
//!
//! The cursor moves over the screen cell by cell.  Moving right past the
//! last column takes it to the start of the next row, and moving down from
//! the last row scrolls the screen instead.

use vstd::prelude::*;
use crate::drivers::vga::Cell;
use crate::drivers::vga::VGA_HEIGHT;
use crate::drivers::vga::VGA_WIDTH;
use crate::drivers::vga::Vga;
use crate::drivers::vga::VgaView;
use crate::drivers::vga::scroll_buffer_up;
use crate::drivers::vga::update_cursor;

verus! {

/// The console as plain values: the cells of the screen and the position of
/// the cursor.
pub struct Tty {
    pub cells: Seq<Cell>,
    pub x: int,
    pub y: int,
}

impl Tty {
    /// The console with the cursor one cell to the left; from the first
    /// column it goes to the last column of the row above, and from the top
    /// left corner nowhere.
    pub open spec fn left(self) -> Tty {
        if self.x > 0 {
            Tty { x: self.x - 1, ..self }
        } else if self.y > 0 {
            Tty { x: VGA_WIDTH - 1, y: self.y - 1, ..self }
        } else {
            self
        }
    }

    /// The console with the cursor at the start of the next row.  From the
    /// last row the screen scrolls and the cursor keeps its row.
    pub open spec fn line(self) -> Tty {
        if self.y + 1 >= VGA_HEIGHT {
            Tty { cells: (VgaView { cells: self.cells, x: 0, y: 0 }).scrolled().cells, x: 0, y: self.y }
        } else {
            Tty { x: 0, y: self.y + 1, ..self }
        }
    }

    /// The console with the cursor one cell to the right; past the last
    /// column it goes to the start of the next row.
    pub open spec fn right(self) -> Tty {
        if self.x + 1 >= VGA_WIDTH {
            self.line()
        } else {
            Tty { x: self.x + 1, ..self }
        }
    }

    /// The console with `c` drawn in colour `color` in column `x` of row
    /// `y`; nothing is drawn outside the screen.
    pub open spec fn draw_at(self, x: int, y: int, c: u8, color: u8) -> Tty {
        if 0 <= x < VGA_WIDTH && 0 <= y < VGA_HEIGHT {
            Tty { cells: self.cells.update(y * VGA_WIDTH + x, Cell { ch: c, color }), ..self }
        } else {
            self
        }
    }

    /// The console with `c` drawn under the cursor.
    pub open spec fn draw(self, c: u8, color: u8) -> Tty {
        self.draw_at(self.x, self.y, c, color)
    }

    /// The console after the first `n` bytes of `s` have been typed in
    /// colour `color`: each is drawn under the cursor, which then moves right.
    pub open spec fn typed(self, s: Seq<u8>, n: int, color: u8) -> Tty
        decreases n,
    {
        if n <= 0 {
            self
        } else {
            self.typed(s, n - 1, color).draw(s[n - 1], color).right()
        }
    }

    /// The console after the first `n` bytes of `s` have been drawn under
    /// the cursor, one over the other.
    pub open spec fn overdrawn(self, s: Seq<u8>, n: int, color: u8) -> Tty
        decreases n,
    {
        if n <= 0 {
            self
        } else {
            self.overdrawn(s, n - 1, color).draw(s[n - 1], color)
        }
    }
}

/// The position of the cursor.
pub struct Cursor {
    x: usize,
    y: usize,
}

/// The console that `vga` and `cursor` make up.
pub open spec fn tty(vga: &Vga, cursor: &Cursor) -> Tty {
    Tty { cells: vga@.cells, x: cursor.col(), y: cursor.row() }
}

/// The hardware shows its cursor where `cursor` is.
pub open spec fn synced(vga: &Vga, cursor: &Cursor) -> bool {
    vga.hw_pos() == (cursor.row() * VGA_WIDTH + cursor.col()) % 0x1_0000
}

impl Cursor {
    /// Column of the cursor.
    pub closed spec fn col(&self) -> int {
        self.x as int
    }

    /// Row of the cursor.
    pub closed spec fn row(&self) -> int {
        self.y as int
    }

    /// A cursor in the top left corner.
    pub fn new() -> (c: Cursor)
        ensures
            c.col() == 0,
            c.row() == 0,
    {
        Cursor { x: 0, y: 0 }
    }
}

/// The position of the cursor: column and row.
pub fn get_pos(cursor: &Cursor) -> (r: (usize, usize))
    ensures
        r.0 == cursor.col(),
        r.1 == cursor.row(),
{
    (cursor.x, cursor.y)
}

/// Puts the cursor in column `x` of row `y` and shows it there.
pub fn set_pos(cursor: &mut Cursor, vga: &mut Vga, x: usize, y: usize)
    ensures
        final(cursor).col() == x,
        final(cursor).row() == y,
        final(vga)@ == old(vga)@,
        synced(final(vga), final(cursor)),
{
    cursor.x = x;
    cursor.y = y;
    update_cursor(vga, x, y);
}

/// Shows the hardware cursor where the cursor is.
pub fn sync_to_hardware(cursor: &Cursor, vga: &mut Vga)
    ensures
        final(vga)@ == old(vga)@,
        synced(final(vga), cursor),
{
    let (x, y) = get_pos(cursor);
    update_cursor(vga, x, y);
}

/// Moves the cursor one cell to the left.
pub fn move_left(cursor: &mut Cursor, vga: &mut Vga)
    ensures
        tty(final(vga), final(cursor)) == tty(old(vga), old(cursor)).left(),
        final(vga)@ == old(vga)@,
        synced(final(vga), final(cursor)),
{
    if cursor.x > 0 {
        cursor.x -= 1;
    } else if cursor.y > 0 {
        cursor.y -= 1;
        cursor.x = VGA_WIDTH - 1;
    }
    sync_to_hardware(cursor, vga);
}

/// Moves the cursor one cell to the right.
pub fn move_right(cursor: &mut Cursor, vga: &mut Vga)
    requires
        old(vga).wf(),
        old(cursor).col() < usize::MAX,
        old(cursor).row() < usize::MAX,
    ensures
        final(vga).wf(),
        tty(final(vga), final(cursor)) == tty(old(vga), old(cursor)).right(),
        final(vga)@.x == old(vga)@.x,
        final(vga)@.y == old(vga)@.y,
        synced(final(vga), final(cursor)),
{
    cursor.x += 1;
    if cursor.x >= VGA_WIDTH {
        cursor.x = 0;
        if cursor.y + 1 >= VGA_HEIGHT {
            scroll_buffer_up(vga);
        } else {
            cursor.y += 1;
        }
    }
    sync_to_hardware(cursor, vga);
}

/// Moves the cursor to the start of the next row.
pub fn new_line(cursor: &mut Cursor, vga: &mut Vga)
    requires
        old(vga).wf(),
        old(cursor).row() < usize::MAX,
    ensures
        final(vga).wf(),
        tty(final(vga), final(cursor)) == tty(old(vga), old(cursor)).line(),
        final(vga)@.x == old(vga)@.x,
        final(vga)@.y == old(vga)@.y,
        synced(final(vga), final(cursor)),
{
    cursor.x = 0;
    if cursor.y + 1 >= VGA_HEIGHT {
        scroll_buffer_up(vga);
    } else {
        cursor.y += 1;
    }
    sync_to_hardware(cursor, vga);
}

} // verus!
