//! Lines, the prompt and the greeting of the console.

use vstd::prelude::*;
use vstd::string::StringSliceAdditionalSpecFns;
use crate::drivers::vga::Color;
use crate::drivers::vga::DEFAULT_COLOR;
use crate::drivers::vga::Vga;
use crate::drivers::vga::color_value;
use crate::drivers::vga::get_color_code;
use crate::io::cursor::Cursor;
use crate::io::cursor::Tty;
use crate::io::cursor::move_right;
use crate::io::cursor::new_line;
use crate::io::cursor::synced;
use crate::io::cursor::tty;
use crate::io::display::write_char;
use crate::io::display::write_colored_char;
use crate::klib::string::c_strlen;
use crate::klib::string::strlen;

verus! {

/// Columns that the prompt takes.
pub const PROMPT_LEN: usize = 2;

/// The colour of the greeting and of the prompt: light gray on black.
pub open spec fn plain_color() -> u8 {
    (color_value(Color::Black) * 16 + color_value(Color::LightGray)) as u8
}

/// The colour of error messages: red on black.
pub open spec fn error_color() -> u8 {
    (color_value(Color::Black) * 16 + color_value(Color::Red)) as u8
}

/// The prompt: a dollar sign and a space.
pub open spec fn prompt() -> Seq<u8> {
    seq![36u8, 32u8]
}

/// Line `i` of the greeting.
pub open spec fn banner_line(i: int) -> Seq<u8> {
    if i == 0 {
        "_/_/_/_/_/                      _/_/      _/_/_/      _/".spec_bytes()
    }
    else if i == 1 {
        "   _/      _/_/_/    _/_/_/  _/    _/  _/            _/".spec_bytes()
    }
    else if i == 2 {
        "  _/    _/    _/  _/        _/    _/    _/_/        _/".spec_bytes()
    }
    else if i == 3 {
        " _/    _/    _/  _/        _/    _/        _/".spec_bytes()
    }
    else if i == 4 {
        "_/      _/_/_/    _/_/_/    _/_/    _/_/_/        _/".spec_bytes()
    } else {
        Seq::empty()
    }
}

/// The console after the greeting: its five lines, each typed in light gray
/// and ended, and three empty lines.
pub open spec fn welcomed(t: Tty) -> Tty {
    let c = plain_color();
    let a = t.typed(banner_line(0), c_strlen(banner_line(0), banner_line(0).len() as int), c).line();
    let b = a.typed(banner_line(1), c_strlen(banner_line(1), banner_line(1).len() as int), c).line();
    let d = b.typed(banner_line(2), c_strlen(banner_line(2), banner_line(2).len() as int), c).line();
    let e = d.typed(banner_line(3), c_strlen(banner_line(3), banner_line(3).len() as int), c).line();
    let f = e.typed(banner_line(4), c_strlen(banner_line(4), banner_line(4).len() as int), c).line();
    f.line().line().line()
}

/// The cursor lies on the screen.
pub open spec fn on_screen(t: Tty) -> bool {
    0 <= t.x < crate::drivers::vga::VGA_WIDTH && 0 <= t.y < crate::drivers::vga::VGA_HEIGHT && t.cells.len()
        == crate::drivers::vga::VGA_CELLS
}

/// Typing and ending lines keeps the cursor on the screen.
pub proof fn lemma_typed_on_screen(t: Tty, s: Seq<u8>, n: int, color: u8)
    requires
        on_screen(t),
    ensures
        on_screen(t.typed(s, n, color)),
        on_screen(t.line()),
        on_screen(t.right()),
        on_screen(t.overdrawn(s, n, color)),
    decreases n,
{
    if n > 0 {
        lemma_typed_on_screen(t, s, n - 1, color);
        let p = t.typed(s, n - 1, color).draw(s[n - 1], color);
        assert(on_screen(p.right()));
    }
}

/// Draws the bytes of `s` under the cursor, one over the other, and moves
/// the cursor to the start of the next row.
pub fn write_line(vga: &mut Vga, cursor: &mut Cursor, s: &str)
    requires
        old(vga).wf(),
        on_screen(tty(old(vga), old(cursor))),
    ensures
        final(vga).wf(),
        on_screen(tty(final(vga), final(cursor))),
        tty(final(vga), final(cursor)) == tty(old(vga), old(cursor)).overdrawn(
            s.spec_bytes(),
            s.spec_bytes().len() as int,
            DEFAULT_COLOR,
        ).line(),
        final(vga)@.x == old(vga)@.x,
        final(vga)@.y == old(vga)@.y,
        synced(final(vga), final(cursor)),
{
    let bytes: &[u8] = s.as_bytes();
    let mut i: usize = 0;
    while i < bytes.len()
        invariant
            i <= bytes@.len(),
            bytes@ == s.spec_bytes(),
            vga.wf(),
            *cursor == *old(cursor),
            on_screen(tty(vga, cursor)),
            tty(vga, cursor) == tty(old(vga), old(cursor)).overdrawn(bytes@, i as int, DEFAULT_COLOR),
            vga@.x == old(vga)@.x,
            vga@.y == old(vga)@.y,
        decreases bytes@.len() - i,
    {
        write_char(vga, cursor, bytes[i]);
        i += 1;
    }
    new_line(cursor, vga);
}

/// Types the string that starts `s`, up to its first zero byte, in colour
/// `color`, and moves the cursor to the start of the next row.
pub fn write_colored_line(vga: &mut Vga, cursor: &mut Cursor, s: &[u8], color: u8)
    requires
        old(vga).wf(),
        on_screen(tty(old(vga), old(cursor))),
    ensures
        final(vga).wf(),
        on_screen(tty(final(vga), final(cursor))),
        tty(final(vga), final(cursor)) == tty(old(vga), old(cursor)).typed(
            s@,
            c_strlen(s@, s@.len() as int),
            color,
        ).line(),
        final(vga)@.x == old(vga)@.x,
        final(vga)@.y == old(vga)@.y,
        synced(final(vga), final(cursor)),
{
    type_bytes(vga, cursor, s, strlen(s), color);
    new_line(cursor, vga);
}

/// Types the first `n` bytes of `s` in colour `color`.
fn type_bytes(vga: &mut Vga, cursor: &mut Cursor, s: &[u8], n: usize, color: u8)
    requires
        old(vga).wf(),
        on_screen(tty(old(vga), old(cursor))),
        n <= s@.len(),
    ensures
        final(vga).wf(),
        on_screen(tty(final(vga), final(cursor))),
        tty(final(vga), final(cursor)) == tty(old(vga), old(cursor)).typed(s@, n as int, color),
        final(vga)@.x == old(vga)@.x,
        final(vga)@.y == old(vga)@.y,
        n > 0 ==> synced(final(vga), final(cursor)),
        n == 0 ==> final(vga).hw_pos() == old(vga).hw_pos(),
{
    let mut i: usize = 0;
    while i < n
        invariant
            i <= n <= s@.len(),
            vga.wf(),
            on_screen(tty(vga, cursor)),
            tty(vga, cursor) == tty(old(vga), old(cursor)).typed(s@, i as int, color),
            vga@.x == old(vga)@.x,
            vga@.y == old(vga)@.y,
            i > 0 ==> synced(vga, cursor),
            i == 0 ==> vga.hw_pos() == old(vga).hw_pos(),
        decreases n - i,
    {
        write_colored_char(vga, cursor, s[i], color);
        move_right(cursor, vga);
        i += 1;
    }
}

/// Shows the greeting.
pub fn show_welcome_message(vga: &mut Vga, cursor: &mut Cursor)
    requires
        old(vga).wf(),
        on_screen(tty(old(vga), old(cursor))),
    ensures
        final(vga).wf(),
        on_screen(tty(final(vga), final(cursor))),
        tty(final(vga), final(cursor)) == welcomed(tty(old(vga), old(cursor))),
        final(vga)@.x == old(vga)@.x,
        final(vga)@.y == old(vga)@.y,
        synced(final(vga), final(cursor)),
{
    let c: u8 = get_color_code(Color::LightGray, Color::Black);
    write_colored_line(vga, cursor, "_/_/_/_/_/                      _/_/      _/_/_/      _/".as_bytes(), c);
    write_colored_line(vga, cursor, "   _/      _/_/_/    _/_/_/  _/    _/  _/            _/".as_bytes(), c);
    write_colored_line(vga, cursor, "  _/    _/    _/  _/        _/    _/    _/_/        _/".as_bytes(), c);
    write_colored_line(vga, cursor, " _/    _/    _/  _/        _/    _/        _/".as_bytes(), c);
    write_colored_line(vga, cursor, "_/      _/_/_/    _/_/_/    _/_/    _/_/_/        _/".as_bytes(), c);
    new_line(cursor, vga);
    new_line(cursor, vga);
    new_line(cursor, vga);
}

/// Types the prompt in light gray.
pub fn show_prompt(vga: &mut Vga, cursor: &mut Cursor)
    requires
        old(vga).wf(),
        on_screen(tty(old(vga), old(cursor))),
    ensures
        final(vga).wf(),
        on_screen(tty(final(vga), final(cursor))),
        tty(final(vga), final(cursor)) == tty(old(vga), old(cursor)).typed(prompt(), 2, plain_color()),
        final(vga)@.x == old(vga)@.x,
        final(vga)@.y == old(vga)@.y,
        synced(final(vga), final(cursor)),
{
    let color: u8 = get_color_code(Color::LightGray, Color::Black);
    let text: [u8; 2] = [36, 32];
    proof {
        assert(text@ =~= prompt());
    }
    type_bytes(vga, cursor, text.as_slice(), 2, color);
}

/// Types `msg` in red, draws a line feed under the cursor and moves the
/// cursor to the start of the next row.
pub fn show_error(vga: &mut Vga, cursor: &mut Cursor, msg: &str)
    requires
        old(vga).wf(),
        on_screen(tty(old(vga), old(cursor))),
    ensures
        final(vga).wf(),
        on_screen(tty(final(vga), final(cursor))),
        tty(final(vga), final(cursor)) == tty(old(vga), old(cursor)).typed(
            msg.spec_bytes(),
            msg.spec_bytes().len() as int,
            error_color(),
        ).draw(10, DEFAULT_COLOR).line(),
        final(vga)@.x == old(vga)@.x,
        final(vga)@.y == old(vga)@.y,
        synced(final(vga), final(cursor)),
{
    let color: u8 = get_color_code(Color::Red, Color::Black);
    let bytes: &[u8] = msg.as_bytes();
    type_bytes(vga, cursor, bytes, bytes.len(), color);
    write_char(vga, cursor, 10);
    new_line(cursor, vga);
}

} // verus!
