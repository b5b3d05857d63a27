//! An input line of up to 255 bytes that draws each byte as it is typed.

use vstd::prelude::*;
use crate::drivers::vga::DEFAULT_COLOR;
use crate::drivers::vga::Vga;
use crate::io::console::on_screen;
use crate::io::cursor::Cursor;
use crate::io::cursor::move_left;
use crate::io::cursor::move_right;
use crate::io::cursor::tty;
use crate::ui::display::write_char;

verus! {

/// Bytes in the buffer.  The line itself holds at most one byte less.
pub const INPUT_BUFFER_SIZE: usize = 256;

/// The line that is being typed.
pub struct Input {
    buffer: [u8; 256],
    len: usize,
    pos: usize,
}

impl Input {
    /// The bytes of the line.
    pub closed spec fn text(&self) -> Seq<u8> {
        self.buffer@.subrange(0, self.len as int)
    }

    /// All bytes of the buffer.
    pub closed spec fn raw(&self) -> Seq<u8> {
        self.buffer@
    }

    /// The position of the cursor in the line.
    pub closed spec fn cursor_pos(&self) -> int {
        self.pos as int
    }

    /// The cursor lies in the line, and the line leaves the last byte of the
    /// buffer free.
    pub closed spec fn wf(&self) -> bool {
        self.pos <= self.len < INPUT_BUFFER_SIZE
    }

    /// An empty line with the cursor at its start, in a buffer of zero
    /// bytes.
    pub fn new() -> (i: Input)
        ensures
            i.wf(),
            i.text() == Seq::<u8>::empty(),
            i.cursor_pos() == 0,
            i.raw().len() == INPUT_BUFFER_SIZE,
            forall|k: int| 0 <= k < INPUT_BUFFER_SIZE ==> i.raw()[k] == 0,
    {
        let i = Input { buffer: [0u8; 256], len: 0, pos: 0 };
        proof {
            assert(i.text() =~= Seq::<u8>::empty());
        }
        i
    }

    /// The bytes of the line.
    pub fn as_slice(&self) -> (r: &[u8])
        requires
            self.wf(),
        ensures
            r@ == self.text(),
    {
        let n: usize = self.len;
        &self.buffer[0..n]
    }
}

/// Puts `c` into the line at the cursor, draws it under the cursor of the
/// screen and moves both cursors on.  Nothing happens when the line is full.
pub fn insert_char(input: &mut Input, vga: &mut Vga, cursor: &mut Cursor, c: u8)
    requires
        old(input).wf(),
        old(vga).wf(),
        on_screen(tty(old(vga), old(cursor))),
    ensures
        final(input).wf(),
        final(vga).wf(),
        on_screen(tty(final(vga), final(cursor))),
        if old(input).text().len() < INPUT_BUFFER_SIZE - 1 {
            &&& final(input).text() == old(input).text().insert(old(input).cursor_pos(), c)
            &&& final(input).cursor_pos() == old(input).cursor_pos() + 1
            &&& tty(final(vga), final(cursor)) == tty(old(vga), old(cursor)).draw(c, DEFAULT_COLOR).right()
        } else {
            &&& *final(input) == *old(input)
            &&& *final(vga) == *old(vga)
            &&& *final(cursor) == *old(cursor)
        },
{
    if input.len < INPUT_BUFFER_SIZE - 1 && input.pos < INPUT_BUFFER_SIZE - 1 {
        let mut i: usize = input.len;
        while i > input.pos
            invariant
                input.len == old(input).len,
                input.pos == old(input).pos,
                input.pos <= input.len < INPUT_BUFFER_SIZE - 1,
                input.pos <= i <= input.len,
                forall|k: int|
                    0 <= k < INPUT_BUFFER_SIZE ==> input.buffer@[k] == if i < k <= old(input).len {
                        old(input).buffer@[k - 1]
                    } else {
                        old(input).buffer@[k]
                    },
            decreases i,
        {
            let b: u8 = input.buffer[i - 1];
            input.buffer[i] = b;
            i -= 1;
        }
        let at: usize = input.pos;
        input.buffer[at] = c;
        input.pos += 1;
        input.len += 1;
        proof {
            assert(input.text() =~= old(input).text().insert(old(input).pos as int, c));
        }
        write_char(vga, cursor, c);
        move_right(cursor, vga);
    }
}

/// Takes the byte before the cursor out of the line, moves the cursor of
/// the screen left and draws a space there.  Nothing happens at the start of
/// the line.
pub fn remove_char(input: &mut Input, vga: &mut Vga, cursor: &mut Cursor)
    requires
        old(input).wf(),
        old(vga).wf(),
        on_screen(tty(old(vga), old(cursor))),
    ensures
        final(input).wf(),
        final(vga).wf(),
        on_screen(tty(final(vga), final(cursor))),
        if old(input).cursor_pos() > 0 {
            &&& final(input).text() == old(input).text().remove(old(input).cursor_pos() - 1)
            &&& final(input).cursor_pos() == old(input).cursor_pos() - 1
            &&& tty(final(vga), final(cursor)) == tty(old(vga), old(cursor)).left().draw(32, DEFAULT_COLOR)
        } else {
            &&& *final(input) == *old(input)
            &&& *final(vga) == *old(vga)
            &&& *final(cursor) == *old(cursor)
        },
{
    if input.pos == 0 || input.len == 0 {
        return ;
    }
    if input.pos > input.len || input.pos > INPUT_BUFFER_SIZE || input.len > INPUT_BUFFER_SIZE {
        return ;
    }
    input.pos -= 1;
    let mut i: usize = input.pos;
    while i + 1 < input.len
        invariant
            input.len == old(input).len,
            input.pos == old(input).pos - 1,
            0 < old(input).pos <= old(input).len < INPUT_BUFFER_SIZE,
            input.pos <= i < input.len,
            forall|k: int|
                0 <= k < INPUT_BUFFER_SIZE ==> input.buffer@[k] == if input.pos <= k < i {
                    old(input).buffer@[k + 1]
                } else {
                    old(input).buffer@[k]
                },
        decreases input.len - i,
    {
        let b: u8 = input.buffer[i + 1];
        input.buffer[i] = b;
        i += 1;
    }
    let last: usize = input.len - 1;
    input.buffer[last] = 0;
    input.len -= 1;
    proof {
        assert(input.text() =~= old(input).text().remove(old(input).pos - 1));
    }
    move_left(cursor, vga);
    write_char(vga, cursor, 32);
}

/// Empties the line and clears the buffer.
pub fn clear(input: &mut Input)
    ensures
        final(input).wf(),
        final(input).text().len() == 0,
        final(input).cursor_pos() == 0,
        forall|k: int| 0 <= k < INPUT_BUFFER_SIZE ==> final(input).raw()[k] == 0,
{
    let mut i: usize = 0;
    while i < INPUT_BUFFER_SIZE
        invariant
            i <= INPUT_BUFFER_SIZE,
            forall|k: int| 0 <= k < i ==> input.buffer@[k] == 0,
        decreases INPUT_BUFFER_SIZE - i,
    {
        input.buffer[i] = 0;
        i += 1;
    }
    input.pos = 0;
    input.len = 0;
}

} // verus!
