//! Drawing characters on the screen, under the cursor or at a given place.

use vstd::prelude::*;
use vstd::string::StringSliceAdditionalSpecFns;
use crate::drivers::vga::DEFAULT_COLOR;
use crate::drivers::vga::Vga;
use crate::drivers::vga::draw_char_at;
use crate::drivers::vga::putchar_colored;
use crate::drivers::vga::putglyph;
use crate::io::console::PROMPT_LEN;
use crate::io::cursor::Cursor;
use crate::io::cursor::Tty;
use crate::io::cursor::tty;

verus! {

/// Draws `c` under the cursor in the default colour.  The cursor stays.
pub fn write_char(vga: &mut Vga, cursor: &Cursor, c: u8)
    requires
        old(vga).wf(),
    ensures
        final(vga).wf(),
        tty(final(vga), cursor) == tty(old(vga), cursor).draw(c, DEFAULT_COLOR),
        final(vga)@.x == old(vga)@.x,
        final(vga)@.y == old(vga)@.y,
        final(vga).hw_pos() == old(vga).hw_pos(),
{
    let (x, y) = crate::io::cursor::get_pos(cursor);
    draw_char_at(vga, x, y, c, DEFAULT_COLOR);
}

/// Draws `c` in the default colour in row `y`, `x` columns behind the
/// prompt.
pub fn write_char_at(vga: &mut Vga, c: u8, x: usize, y: usize)
    requires
        old(vga).wf(),
        x + PROMPT_LEN <= usize::MAX,
    ensures
        final(vga).wf(),
        final(vga)@.cells == (Tty { cells: old(vga)@.cells, x: 0, y: 0 }).draw_at(
            x + PROMPT_LEN,
            y as int,
            c,
            DEFAULT_COLOR,
        ).cells,
        final(vga)@.x == old(vga)@.x,
        final(vga)@.y == old(vga)@.y,
        final(vga).hw_pos() == old(vga).hw_pos(),
{
    draw_char_at(vga, x + PROMPT_LEN, y, c, DEFAULT_COLOR);
}

/// Draws `c` under the cursor in colour `color`.  The cursor stays.
pub fn write_colored_char(vga: &mut Vga, cursor: &Cursor, c: u8, color: u8)
    requires
        old(vga).wf(),
    ensures
        final(vga).wf(),
        tty(final(vga), cursor) == tty(old(vga), cursor).draw(c, color),
        final(vga)@.x == old(vga)@.x,
        final(vga)@.y == old(vga)@.y,
        final(vga).hw_pos() == old(vga).hw_pos(),
{
    let (x, y) = crate::io::cursor::get_pos(cursor);
    draw_char_at(vga, x, y, c, color);
}

/// Draws `c` in colour `color` in column `x` of row `y`.
pub fn write_colored_char_at(vga: &mut Vga, c: u8, color: u8, x: usize, y: usize)
    requires
        old(vga).wf(),
    ensures
        final(vga).wf(),
        final(vga)@.cells == (Tty { cells: old(vga)@.cells, x: 0, y: 0 }).draw_at(
            x as int,
            y as int,
            c,
            color,
        ).cells,
        final(vga)@.x == old(vga)@.x,
        final(vga)@.y == old(vga)@.y,
        final(vga).hw_pos() == old(vga).hw_pos(),
{
    draw_char_at(vga, x, y, c, color);
}

/// The cells after the bytes `lo..hi` of `buffer` have been drawn in row
/// `row`, byte `i` in the column `i` behind the prompt.
pub open spec fn line_drawn(cells: Seq<crate::drivers::vga::Cell>, buffer: Seq<u8>, lo: int, hi: int, row: int) -> Seq<
    crate::drivers::vga::Cell,
>
    decreases hi - lo,
{
    if hi <= lo {
        cells
    } else {
        (Tty { cells: line_drawn(cells, buffer, lo, hi - 1, row), x: 0, y: 0 }).draw_at(
            hi - 1 + PROMPT_LEN,
            row,
            buffer[hi - 1],
            DEFAULT_COLOR,
        ).cells
    }
}

/// The end of the part of a line of `len` bytes that lies in `buffer`.
pub open spec fn line_end(buffer: Seq<u8>, len: usize) -> int {
    if len <= buffer.len() {
        len as int
    } else {
        buffer.len() as int
    }
}

fn draw_line(vga: &mut Vga, buffer: &[u8], len: usize, start_pos: usize, cursor_y: usize)
    requires
        old(vga).wf(),
    ensures
        final(vga).wf(),
        final(vga)@.cells == line_drawn(
            old(vga)@.cells,
            buffer@,
            start_pos as int,
            line_end(buffer@, len),
            cursor_y as int,
        ),
        final(vga)@.x == old(vga)@.x,
        final(vga)@.y == old(vga)@.y,
        final(vga).hw_pos() == old(vga).hw_pos(),
{
    let end: usize = if len <= buffer.len() {
        len
    } else {
        buffer.len()
    };
    let mut i: usize = start_pos;
    while i < end
        invariant
            start_pos <= i,
            i <= end || i == start_pos,
            end <= buffer@.len(),
            vga.wf(),
            vga@.cells == line_drawn(old(vga)@.cells, buffer@, start_pos as int, i as int, cursor_y as int),
            vga@.x == old(vga)@.x,
            vga@.y == old(vga)@.y,
            vga.hw_pos() == old(vga).hw_pos(),
        decreases end - i,
    {
        let c: u8 = buffer[i];
        if i <= usize::MAX - PROMPT_LEN {
            write_char_at(vga, c, i, cursor_y);
        }
        i += 1;
    }
}

/// Draws the line again from the byte at `start_pos` on, after a byte was
/// put in there.
pub fn refresh_after_insert(vga: &mut Vga, buffer: &[u8], len: usize, start_pos: usize, cursor_y: usize)
    requires
        old(vga).wf(),
    ensures
        final(vga).wf(),
        final(vga)@.cells == line_drawn(
            old(vga)@.cells,
            buffer@,
            start_pos as int,
            line_end(buffer@, len),
            cursor_y as int,
        ),
        final(vga)@.x == old(vga)@.x,
        final(vga)@.y == old(vga)@.y,
        final(vga).hw_pos() == old(vga).hw_pos(),
{
    draw_line(vga, buffer, len, start_pos, cursor_y);
}

/// Draws the line again from the byte at `start_pos` on, after a byte was
/// taken out there, and blanks the cell behind the line.
pub fn refresh_after_delete(vga: &mut Vga, buffer: &[u8], len: usize, start_pos: usize, cursor_y: usize)
    requires
        old(vga).wf(),
        len + PROMPT_LEN <= usize::MAX,
    ensures
        final(vga).wf(),
        final(vga)@.cells == (Tty {
            cells: line_drawn(
                old(vga)@.cells,
                buffer@,
                start_pos as int,
                line_end(buffer@, len),
                cursor_y as int,
            ),
            x: 0,
            y: 0,
        }).draw_at(len + PROMPT_LEN, cursor_y as int, 32, DEFAULT_COLOR).cells,
        final(vga)@.x == old(vga)@.x,
        final(vga)@.y == old(vga)@.y,
        final(vga).hw_pos() == old(vga).hw_pos(),
{
    draw_line(vga, buffer, len, start_pos, cursor_y);
    write_char_at(vga, 32, len, cursor_y);
}

/// The screen with the colour in which text is put out.
pub struct Display {
    /// The screen.
    pub vga: Vga,
    /// The colour of the text that is put out next.
    pub color: u8,
}

impl Display {
    /// The screen is well-formed.
    pub open spec fn wf(&self) -> bool {
        self.vga.wf()
    }

    /// A blank screen with the default colour.
    pub fn new() -> (d: Display)
        ensures
            d.wf(),
            d.color == DEFAULT_COLOR,
            d.vga@.x == 0,
            d.vga@.y == 0,
    {
        Display { vga: Vga::new(), color: DEFAULT_COLOR }
    }
}

/// The colour of the text that is put out next.
pub fn get_color(display: &Display) -> (r: u8)
    ensures
        r == display.color,
{
    display.color
}

/// Sets the colour of the text that is put out next.
pub fn set_color(display: &mut Display, color: u8)
    ensures
        final(display).color == color,
        final(display).vga == old(display).vga,
{
    display.color = color;
}

/// The position at which text is put out next: column and row.
pub fn get_pos(display: &Display) -> (r: (usize, usize))
    ensures
        r.0 == display.vga@.x,
        r.1 == display.vga@.y,
{
    display.vga.cursor()
}

/// Draws the byte `c` as it is, in the current colour.
pub fn put_char(display: &mut Display, c: u8)
    requires
        old(display).wf(),
    ensures
        final(display).wf(),
        final(display).color == old(display).color,
        final(display).vga@ == old(display).vga@.glyph(c, old(display).color),
{
    let color: u8 = display.color;
    putglyph(&mut display.vga, c, color);
}

/// Puts out the byte `c` in colour `color`; line feed and carriage return
/// move the cursor.
pub fn write_byte(display: &mut Display, c: u8, color: u8)
    requires
        old(display).wf(),
    ensures
        final(display).wf(),
        final(display).color == old(display).color,
        final(display).vga@ == old(display).vga@.put(c, color),
{
    putchar_colored(&mut display.vga, c, color);
}

/// Puts out the bytes of `bytes` in the current colour.
pub fn put_bytes(display: &mut Display, bytes: &[u8])
    requires
        old(display).wf(),
    ensures
        final(display).wf(),
        final(display).color == old(display).color,
        final(display).vga@ == old(display).vga@.put_all(bytes@, bytes@.len() as int, old(display).color),
{
    let color: u8 = display.color;
    put_bytes_colored(display, bytes, color);
}

fn put_bytes_colored(display: &mut Display, bytes: &[u8], color: u8)
    requires
        old(display).wf(),
    ensures
        final(display).wf(),
        final(display).color == old(display).color,
        final(display).vga@ == old(display).vga@.put_all(bytes@, bytes@.len() as int, color),
{
    let mut i: usize = 0;
    while i < bytes.len()
        invariant
            i <= bytes@.len(),
            display.wf(),
            display.color == old(display).color,
            display.vga@ == old(display).vga@.put_all(bytes@, i as int, color),
        decreases bytes@.len() - i,
    {
        write_byte(display, bytes[i], color);
        i += 1;
    }
}

/// Puts out the string `s` in the current colour.
pub fn put_str(display: &mut Display, s: &str)
    requires
        old(display).wf(),
    ensures
        final(display).wf(),
        final(display).color == old(display).color,
        final(display).vga@ == old(display).vga@.put_all(
            s.spec_bytes(),
            s.spec_bytes().len() as int,
            old(display).color,
        ),
{
    put_bytes(display, s.as_bytes());
}

/// Puts out the string `s` in colour `color`.
pub fn put_str_colored(display: &mut Display, s: &str, color: u8)
    requires
        old(display).wf(),
    ensures
        final(display).wf(),
        final(display).color == old(display).color,
        final(display).vga@ == old(display).vga@.put_all(s.spec_bytes(), s.spec_bytes().len() as int, color),
{
    put_bytes_colored(display, s.as_bytes(), color);
}

} // verus!
