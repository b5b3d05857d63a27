//! Drawing a character under the cursor.

use vstd::prelude::*;
use crate::drivers::vga::DEFAULT_COLOR;
use crate::drivers::vga::Vga;
use crate::drivers::vga::draw_char_at;
use crate::io::cursor::Cursor;
use crate::io::cursor::get_pos;
use crate::io::cursor::tty;

verus! {

/// Draws `c` under the cursor in colour `color`.  The cursor stays.
pub fn write_char_core(vga: &mut Vga, cursor: &Cursor, c: u8, color: u8)
    requires
        old(vga).wf(),
    ensures
        final(vga).wf(),
        tty(final(vga), cursor) == tty(old(vga), cursor).draw(c, color),
        final(vga)@.x == old(vga)@.x,
        final(vga)@.y == old(vga)@.y,
        final(vga).hw_pos() == old(vga).hw_pos(),
{
    let (x, y) = get_pos(cursor);
    draw_char_at(vga, x, y, c, color);
}

/// Draws `c` under the cursor in the default colour.
pub fn write_char(vga: &mut Vga, cursor: &Cursor, c: u8)
    requires
        old(vga).wf(),
    ensures
        final(vga).wf(),
        tty(final(vga), cursor) == tty(old(vga), cursor).draw(c, DEFAULT_COLOR),
        final(vga)@.x == old(vga)@.x,
        final(vga)@.y == old(vga)@.y,
        final(vga).hw_pos() == old(vga).hw_pos(),
{
    write_char_core(vga, cursor, c, DEFAULT_COLOR);
}

/// Draws `c` under the cursor in colour `color`.
pub fn write_colored_char(vga: &mut Vga, cursor: &Cursor, c: u8, color: u8)
    requires
        old(vga).wf(),
    ensures
        final(vga).wf(),
        tty(final(vga), cursor) == tty(old(vga), cursor).draw(c, color),
        final(vga)@.x == old(vga)@.x,
        final(vga)@.y == old(vga)@.y,
        final(vga).hw_pos() == old(vga).hw_pos(),
{
    write_char_core(vga, cursor, c, color);
}

} // verus!
