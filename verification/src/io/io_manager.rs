//! The line editor: what each key does to the line under edit and to the
//! screen.

use vstd::prelude::*;
use crate::drivers::keyboard::KeyEvent;
use crate::drivers::vga::DEFAULT_COLOR;
use crate::drivers::vga::Vga;
use crate::io::console::on_screen;
use crate::io::console::plain_color;
use crate::io::console::prompt;
use crate::io::console::show_prompt;
use crate::io::cursor::Cursor;
use crate::io::cursor::Tty;
use crate::io::cursor::get_pos;
use crate::io::cursor::move_left;
use crate::io::cursor::move_right;
use crate::io::cursor::new_line;
use crate::io::cursor::tty;
use crate::io::console::PROMPT_LEN;
use crate::io::display::line_drawn;
use crate::io::display::line_end;
use crate::io::display::refresh_after_delete;
use crate::io::display::refresh_after_insert;
use crate::io::display::write_char;
use crate::io::input_buffer::BUFFER_SIZE;
use crate::io::input_buffer::InputBuffer;

verus! {

/// The byte that the character `c` is stored as: its low eight bits.
pub open spec fn byte_of(c: char) -> u8 {
    (c as u32 % 256) as u8
}

/// The console after key `c` has put a byte into the line, which is `line`
/// afterwards with the cursor of the line at `pos`: the line is drawn again
/// from the new byte on, and the cursor moves right.
pub open spec fn after_insert(t: Tty, line: Seq<u8>, pos: int) -> Tty {
    (Tty { cells: line_drawn(t.cells, line, pos - 1, line.len() as int, t.y), ..t }).right()
}

/// The console after a byte has been taken out of the line, which is `line`
/// afterwards with the cursor of the line at `pos`: the line is drawn again
/// from the byte before the cursor on, the cell behind it is blanked, and
/// the cursor moves left.  With the cursor of the line at its start nothing
/// of the line is drawn again.
pub open spec fn after_delete(t: Tty, line: Seq<u8>, pos: int) -> Tty {
    let from = if pos > 0 { pos - 1 } else { usize::MAX as int };
    (Tty { cells: line_drawn(t.cells, line, from, line.len() as int, t.y), ..t }).draw_at(
        line.len() + PROMPT_LEN,
        t.y,
        32,
        DEFAULT_COLOR,
    ).left()
}

/// The console after the line `line` has been entered: its bytes are drawn
/// under the cursor, one over the other, the cursor moves to the next row,
/// and the prompt is typed.
pub open spec fn after_enter(t: Tty, line: Seq<u8>) -> Tty {
    t.overdrawn(line, line.len() as int, DEFAULT_COLOR).line().typed(prompt(), 2, plain_color())
}

fn handle_insert(c: char, input: &mut InputBuffer, vga: &mut Vga, cursor: &mut Cursor)
    requires
        old(input).wf(),
        old(vga).wf(),
        on_screen(tty(old(vga), old(cursor))),
    ensures
        final(input).wf(),
        final(vga).wf(),
        on_screen(tty(final(vga), final(cursor))),
        if old(input).len < BUFFER_SIZE - 1 {
            &&& final(input).text() == old(input).text().insert(old(input).pos as int, byte_of(c))
            &&& final(input).pos == old(input).pos + 1
            &&& tty(final(vga), final(cursor)) == after_insert(
                tty(old(vga), old(cursor)),
                final(input).text(),
                final(input).pos as int,
            )
        } else {
            &&& *final(input) == *old(input)
            &&& *final(vga) == *old(vga)
            &&& *final(cursor) == *old(cursor)
        },
{
    let b: u8 = (c as u32 % 256) as u8;
    if input.insert_char(b) {
        let len: usize = input.get_len();
        let start_pos: usize = input.get_pos() - 1;
        let cursor_y: usize = get_pos(cursor).1;
        proof {
            assert(line_end(input.text(), len) == len);
        }
        refresh_after_insert(vga, input.get_buffer(), len, start_pos, cursor_y);
        move_right(cursor, vga);
    }
}

fn handle_delete(input: &mut InputBuffer, vga: &mut Vga, cursor: &mut Cursor)
    requires
        old(input).wf(),
        old(vga).wf(),
        on_screen(tty(old(vga), old(cursor))),
    ensures
        final(input).wf(),
        final(vga).wf(),
        on_screen(tty(final(vga), final(cursor))),
        if old(input).pos > 0 {
            &&& final(input).text() == old(input).text().remove(old(input).pos - 1)
            &&& final(input).pos == old(input).pos - 1
            &&& tty(final(vga), final(cursor)) == after_delete(
                tty(old(vga), old(cursor)),
                final(input).text(),
                final(input).pos as int,
            )
        } else {
            &&& *final(input) == *old(input)
            &&& *final(vga) == *old(vga)
            &&& *final(cursor) == *old(cursor)
        },
{
    if input.remove_char() {
        let len: usize = input.get_len();
        let start_pos: usize = input.get_pos().wrapping_sub(1);
        let cursor_y: usize = get_pos(cursor).1;
        proof {
            assert(line_end(input.text(), len) == len);
        }
        refresh_after_delete(vga, input.get_buffer(), len, start_pos, cursor_y);
        move_left(cursor, vga);
    }
}

fn handle_enter(input: &mut InputBuffer, vga: &mut Vga, cursor: &mut Cursor)
    requires
        old(input).wf(),
        old(vga).wf(),
        on_screen(tty(old(vga), old(cursor))),
    ensures
        final(input).wf(),
        final(vga).wf(),
        on_screen(tty(final(vga), final(cursor))),
        final(input).len == 0,
        final(input).pos == 0,
        tty(final(vga), final(cursor)) == after_enter(tty(old(vga), old(cursor)), old(input).text()),
{
    let command: &[u8] = input.flush();
    let mut i: usize = 0;
    while i < command.len()
        invariant
            i <= command@.len(),
            vga.wf(),
            *cursor == *old(cursor),
            on_screen(tty(vga, cursor)),
            tty(vga, cursor) == tty(old(vga), old(cursor)).overdrawn(command@, i as int, DEFAULT_COLOR),
        decreases command@.len() - i,
    {
        write_char(vga, cursor, command[i]);
        i += 1;
    }
    new_line(cursor, vga);
    show_prompt(vga, cursor);
}

fn handle_arrow_left(input: &mut InputBuffer, vga: &mut Vga, cursor: &mut Cursor)
    requires
        old(input).wf(),
    ensures
        final(input).wf(),
        final(vga)@ == old(vga)@,
        final(input).buffer == old(input).buffer,
        final(input).len == old(input).len,
        if old(input).pos > 0 {
            &&& final(input).pos == old(input).pos - 1
            &&& tty(final(vga), final(cursor)) == tty(old(vga), old(cursor)).left()
        } else {
            &&& final(input).pos == old(input).pos
            &&& *final(vga) == *old(vga)
            &&& *final(cursor) == *old(cursor)
        },
{
    if input.can_move_left() {
        input.move_left();
        move_left(cursor, vga);
    }
}

fn handle_arrow_right(input: &mut InputBuffer, vga: &mut Vga, cursor: &mut Cursor)
    requires
        old(input).wf(),
        old(vga).wf(),
        on_screen(tty(old(vga), old(cursor))),
    ensures
        final(input).wf(),
        final(vga).wf(),
        on_screen(tty(final(vga), final(cursor))),
        final(input).buffer == old(input).buffer,
        final(input).len == old(input).len,
        if old(input).pos < old(input).len {
            &&& final(input).pos == old(input).pos + 1
            &&& tty(final(vga), final(cursor)) == tty(old(vga), old(cursor)).right()
        } else {
            &&& final(input).pos == old(input).pos
            &&& *final(vga) == *old(vga)
            &&& *final(cursor) == *old(cursor)
        },
{
    if input.can_move_right() {
        input.move_right();
        move_right(cursor, vga);
    }
}

/// Lets the key `event` act on the line under edit and on the screen.
///
/// A character goes into the line at the cursor, unless the line is full.
/// Backspace takes out the byte before the cursor.  The arrows move the
/// cursor inside the line.  Enter draws the line, empties it and shows the
/// prompt on the next row.  Every other key does nothing.
pub fn handle_key_event(event: KeyEvent, input: &mut InputBuffer, vga: &mut Vga, cursor: &mut Cursor)
    requires
        old(input).wf(),
        old(vga).wf(),
        on_screen(tty(old(vga), old(cursor))),
    ensures
        final(input).wf(),
        final(vga).wf(),
        on_screen(tty(final(vga), final(cursor))),
        match event {
            KeyEvent::Char(c) => if old(input).len < BUFFER_SIZE - 1 {
                &&& final(input).text() == old(input).text().insert(old(input).pos as int, byte_of(c))
                &&& final(input).pos == old(input).pos + 1
                &&& tty(final(vga), final(cursor)) == after_insert(
                    tty(old(vga), old(cursor)),
                    final(input).text(),
                    final(input).pos as int,
                )
            } else {
                &&& *final(input) == *old(input)
                &&& *final(vga) == *old(vga)
                &&& *final(cursor) == *old(cursor)
            },
            KeyEvent::Backspace => if old(input).pos > 0 {
                &&& final(input).text() == old(input).text().remove(old(input).pos - 1)
                &&& final(input).pos == old(input).pos - 1
                &&& tty(final(vga), final(cursor)) == after_delete(
                    tty(old(vga), old(cursor)),
                    final(input).text(),
                    final(input).pos as int,
                )
            } else {
                &&& *final(input) == *old(input)
                &&& *final(vga) == *old(vga)
                &&& *final(cursor) == *old(cursor)
            },
            KeyEvent::Enter => {
                &&& final(input).len == 0
                &&& final(input).pos == 0
                &&& tty(final(vga), final(cursor)) == after_enter(tty(old(vga), old(cursor)), old(input).text())
            },
            KeyEvent::ArrowLeft => {
                &&& final(input).text() == old(input).text()
                &&& if old(input).pos > 0 {
                    &&& final(input).pos == old(input).pos - 1
                    &&& tty(final(vga), final(cursor)) == tty(old(vga), old(cursor)).left()
                } else {
                    &&& final(input).pos == old(input).pos
                    &&& *final(vga) == *old(vga)
                    &&& *final(cursor) == *old(cursor)
                }
            },
            KeyEvent::ArrowRight => {
                &&& final(input).text() == old(input).text()
                &&& if old(input).pos < old(input).len {
                    &&& final(input).pos == old(input).pos + 1
                    &&& tty(final(vga), final(cursor)) == tty(old(vga), old(cursor)).right()
                } else {
                    &&& final(input).pos == old(input).pos
                    &&& *final(vga) == *old(vga)
                    &&& *final(cursor) == *old(cursor)
                }
            },
            _ => {
                &&& *final(input) == *old(input)
                &&& *final(vga) == *old(vga)
                &&& *final(cursor) == *old(cursor)
            },
        },
{
    match event {
        KeyEvent::Char(c) => handle_insert(c, input, vga, cursor),
        KeyEvent::Backspace => handle_delete(input, vga, cursor),
        KeyEvent::Enter => handle_enter(input, vga, cursor),
        KeyEvent::ArrowLeft => {
            proof {
                crate::io::console::lemma_typed_on_screen(tty(vga, cursor), Seq::empty(), 0, 0);
            }
            handle_arrow_left(input, vga, cursor)
        },
        KeyEvent::ArrowRight => handle_arrow_right(input, vga, cursor),
        _ => {},
    }
}

} // verus!
